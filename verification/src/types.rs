//! Identifiers and enumerations shared by every component.

use crate::text::{nul_trimmed_text, text_of_padded};
use vstd::prelude::*;
use vstd::string::StringExecFns;
use vstd::string::StringSliceAdditionalSpecFns;

verus! {

/// The four bytes that an identifier built from `text` holds: the first four
/// bytes of `text`, followed by zero bytes where `text` is shorter.
pub open spec fn pad_id(text: Seq<u8>) -> Seq<u8> {
    Seq::new(4, |i: int| if i < text.len() { text[i] } else { 0u8 })
}

/// Copies at most four bytes of `bytes` into a zero-filled array.
pub fn id_from_bytes(bytes: &[u8]) -> (id: [u8; 4])
    ensures
        id@ == pad_id(bytes@),
{
    let mut id: [u8; 4] = [0u8; 4];
    let mut i: usize = 0;
    while i < 4 && i < bytes.len()
        invariant
            i <= 4,
            i <= bytes.len(),
            forall|k: int| 0 <= k < i ==> id@[k] == bytes@[k],
            forall|k: int| i <= k < 4 ==> id@[k] == 0u8,
        decreases 4 - i,
    {
        id[i] = bytes[i];
        i += 1;
    }
    assert(id@ =~= pad_id(bytes@));
    id
}

/// Application id: four bytes, zero-padded.
#[derive(Debug, Clone, Copy, PartialEq, Eq, Hash)]
pub struct AppId(pub [u8; 4]);

impl AppId {
    /// Builds the id from the UTF-8 bytes of `s`, truncated or zero-padded to
    /// four bytes.
    pub fn new(s: &str) -> (id: Self)
        ensures
            id.0@ == pad_id(s.spec_bytes()),
    {
        AppId(id_from_bytes(s.as_bytes()))
    }

    /// The id as text, without its zero padding.
    pub fn as_str(&self) -> (text: String)
        ensures
            text@ == nul_trimmed_text(self.0@),
    {
        text_of_padded(self.0.as_slice())
    }
}

/// Context id: four bytes, zero-padded.
#[derive(Debug, Clone, Copy, PartialEq, Eq, Hash)]
pub struct ContextId(pub [u8; 4]);

impl ContextId {
    /// Builds the id from the UTF-8 bytes of `s`, truncated or zero-padded to
    /// four bytes.
    pub fn new(s: &str) -> (id: Self)
        ensures
            id.0@ == pad_id(s.spec_bytes()),
    {
        ContextId(id_from_bytes(s.as_bytes()))
    }

    /// The id as text, without its zero padding.
    pub fn as_str(&self) -> (text: String)
        ensures
            text@ == nul_trimmed_text(self.0@),
    {
        text_of_padded(self.0.as_slice())
    }
}

/// ECU id: four bytes, zero-padded.
#[derive(Debug, Clone, Copy, PartialEq, Eq)]
pub struct EcuId(pub [u8; 4]);

impl EcuId {
    /// Builds the id from the UTF-8 bytes of `s`, truncated or zero-padded to
    /// four bytes.
    pub fn new(s: &str) -> (id: Self)
        ensures
            id.0@ == pad_id(s.spec_bytes()),
    {
        EcuId(id_from_bytes(s.as_bytes()))
    }
}

/// Log levels, most severe first.
#[derive(Debug, Clone, Copy, PartialEq, Eq, PartialOrd, Ord)]
pub enum LogLevel {
    Fatal,
    Error,
    Warn,
    Info,
    Debug,
    Verbose,
}

/// The number that stands for a level on the wire and in routing: 1 for
/// `Fatal` up to 6 for `Verbose`.
pub open spec fn level_number(level: LogLevel) -> u8 {
    match level {
        LogLevel::Fatal => 1,
        LogLevel::Error => 2,
        LogLevel::Warn => 3,
        LogLevel::Info => 4,
        LogLevel::Debug => 5,
        LogLevel::Verbose => 6,
    }
}

/// The upper-case name under which a level is shown.
pub open spec fn level_name(level: LogLevel) -> Seq<char> {
    match level {
        LogLevel::Fatal => "FATAL"@,
        LogLevel::Error => "ERROR"@,
        LogLevel::Warn => "WARN"@,
        LogLevel::Info => "INFO"@,
        LogLevel::Debug => "DEBUG"@,
        LogLevel::Verbose => "VERBOSE"@,
    }
}

impl LogLevel {
    /// The level's number, 1 to 6.
    pub fn as_u8(&self) -> (n: u8)
        ensures
            n == level_number(*self),
    {
        match self {
            LogLevel::Fatal => 1,
            LogLevel::Error => 2,
            LogLevel::Warn => 3,
            LogLevel::Info => 4,
            LogLevel::Debug => 5,
            LogLevel::Verbose => 6,
        }
    }

    /// The level's upper-case name.
    pub fn to_string(&self) -> (name: String)
        ensures
            name@ == level_name(*self),
    {
        match self {
            LogLevel::Fatal => String::from_str("FATAL"),
            LogLevel::Error => String::from_str("ERROR"),
            LogLevel::Warn => String::from_str("WARN"),
            LogLevel::Info => String::from_str("INFO"),
            LogLevel::Debug => String::from_str("DEBUG"),
            LogLevel::Verbose => String::from_str("VERBOSE"),
        }
    }
}

/// Kinds of message that the wire format tells apart.
#[derive(Debug, Clone, Copy, PartialEq, Eq)]
pub enum MessageType {
    Log,
    AppTrace,
    NwTrace,
    Control,
}

} // verus!

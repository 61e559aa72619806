//! The settings of the facade: how many rings, how large, how the workers
//! batch, and what happens on overflow.

use crate::lockless::MAX_BUFFER_CAPACITY;
use crate::ring::{mode_of_byte, OverflowMode};
use crate::text::{decimal_text, parse_number, parsed_number, push_decimal};
use vstd::prelude::*;
use vstd::string::StringExecFns;

verus! {

/// The setting that holds the number of rings.
pub const NUM_BUFFERS_VARIABLE: &'static str = "DLT_USER_NUM_BUFFERS";

/// The setting that holds the batch size.
pub const BATCH_SIZE_VARIABLE: &'static str = "DLT_USER_BATCH_SIZE";

/// The setting that holds the overflow mode at the start.
pub const OVERFLOW_MODE_VARIABLE: &'static str = "DLT_USER_OVERFLOW_MODE";

/// The setting that holds the bounded wait of `BlockWithTimeout`, in
/// milliseconds.
pub const TIMEOUT_VARIABLE: &'static str = "DLT_USER_TIMEOUT_MS";

/// The local stream socket on which the collector takes producers.
pub const DAEMON_SOCKET: &'static str = "/tmp/dlt";

/// The TCP endpoint on which the collector serves subscribers.
pub const DAEMON_ADDRESS: &'static str = "127.0.0.1:3490";

/// The number of rings where no setting says otherwise.
pub const DEFAULT_NUM_BUFFERS: usize = 4;

/// The capacity of a ring where no setting says otherwise.
pub const DEFAULT_BUFFER_SIZE: usize = 2048;

/// The batch size where no setting says otherwise.
pub const DEFAULT_BATCH_SIZE: usize = 16;

/// The bounded wait of `BlockWithTimeout`, in milliseconds, where no setting
/// says otherwise.
pub const DEFAULT_TIMEOUT_MS: u64 = 100;

/// What a setting that may be absent reads as.
pub open spec fn parsed_setting(setting: Option<Seq<char>>) -> Option<u64> {
    match setting {
        Some(text) => parsed_number(text),
        None => None,
    }
}

/// The value of a setting: the number read, where there is one and it lies
/// between `low` and `high`; `fallback` otherwise.
pub open spec fn setting_value(parsed: Option<u64>, low: nat, high: nat, fallback: usize) -> usize {
    match parsed {
        Some(number) => if low <= number <= high {
            number as usize
        } else {
            fallback
        },
        None => fallback,
    }
}

/// The overflow mode that a setting gives: `DropNewest` for 1,
/// `BlockWithTimeout` for 2, `Overwrite` for everything else and for no
/// setting.
pub open spec fn setting_mode(parsed: Option<u64>) -> OverflowMode {
    match parsed {
        Some(number) => if number <= 255 {
            mode_of_byte(number as u8)
        } else {
            OverflowMode::Overwrite
        },
        None => OverflowMode::Overwrite,
    }
}

/// The bounded wait that a setting gives, in milliseconds.
pub open spec fn setting_timeout(parsed: Option<u64>) -> u64 {
    match parsed {
        Some(number) => number,
        None => DEFAULT_TIMEOUT_MS,
    }
}

/// The text of a setting at position `index`, absent where the list is
/// shorter.
pub open spec fn setting_at(settings: Seq<Option<String>>, index: int) -> Option<Seq<char>> {
    if 0 <= index < settings.len() {
        match settings[index] {
            Some(text) => Some(text@),
            None => None,
        }
    } else {
        None
    }
}

/// The name of the setting that holds the capacity of ring `index`.
pub open spec fn buffer_size_name(index: nat) -> Seq<char> {
    "DLT_USER_BUFFER_SIZE_"@ + decimal_text(index)
}

/// The text of a setting that may be absent.
pub open spec fn setting_text(setting: Option<&str>) -> Option<Seq<char>> {
    match setting {
        Some(text) => Some(text@),
        None => None,
    }
}

/// Whether a setting is made and is the decimal notation of `number`,
/// without leading zeros.
pub open spec fn shows(text: Option<Seq<char>>, number: u64) -> bool {
    text == Some(decimal_text(number as nat))
}

/// Reads a setting that may be absent. A setting that shows a number reads
/// as that number.
pub fn read_setting(setting: Option<&str>) -> (parsed: Option<u64>)
    ensures
        parsed == parsed_setting(
            match setting {
                Some(text) => Some(text@),
                None => None,
            },
        ),
        forall|n: u64| #[trigger] shows(setting_text(setting), n) ==> parsed == Some(n),
{
    match setting {
        Some(text) => parse_number(text),
        None => None,
    }
}

/// Picks the value of a setting from what was read.
pub fn choose_value(parsed: Option<u64>, low: usize, high: usize, fallback: usize) -> (value: usize)
    ensures
        value == setting_value(parsed, low as nat, high as nat, fallback),
{
    match parsed {
        Some(number) => {
            if low as u64 <= number && number <= high as u64 {
                number as usize
            } else {
                fallback
            }
        },
        None => fallback,
    }
}

/// The settings of the facade.
#[derive(Debug, Clone)]
pub struct BufferConfig {
    /// How many rings there are.
    pub num_buffers: usize,
    /// The capacity of each ring.
    pub buffer_sizes: Vec<usize>,
    /// The largest number of envelopes in one vectored write.
    pub batch_size: usize,
    /// The overflow mode at the start.
    pub overflow_mode: OverflowMode,
}

impl BufferConfig {
    /// Validity: there is a ring, every ring has a capacity, and every
    /// capacity is one that a ring can be made with.
    pub open spec fn wf(&self) -> bool {
        &&& self.num_buffers >= 1
        &&& self.buffer_sizes@.len() == self.num_buffers
        &&& forall|i: int|
            0 <= i < self.buffer_sizes@.len() ==> 0 < #[trigger] self.buffer_sizes@[i]
                <= MAX_BUFFER_CAPACITY
    }

    /// The name of the setting that holds the capacity of ring `index`.
    pub fn buffer_size_variable(index: usize) -> (name: String)
        ensures
            name@ == buffer_size_name(index as nat),
    {
        let mut name = String::from_str("DLT_USER_BUFFER_SIZE_");
        push_decimal(&mut name, index as u64);
        name
    }

    /// The number of rings that a setting gives: the number read where it is
    /// one at least, four otherwise.
    pub fn num_buffers_from(setting: Option<&str>) -> (count: usize)
        ensures
            count >= 1,
            count == setting_value(
                parsed_setting(
                    match setting {
                        Some(text) => Some(text@),
                        None => None,
                    },
                ),
                1,
                usize::MAX as nat,
                DEFAULT_NUM_BUFFERS,
            ),
            forall|n: u64| #[trigger]
                shows(setting_text(setting), n) ==> count == setting_value(
                    Some(n),
                    1,
                    usize::MAX as nat,
                    DEFAULT_NUM_BUFFERS,
                ),
    {
        choose_value(read_setting(setting), 1, usize::MAX, DEFAULT_NUM_BUFFERS)
    }

    /// The configuration that the settings give. A setting that is absent,
    /// that reads as no number or whose number the library cannot work with
    /// counts as not made: four rings where the number of rings is not one
    /// at least; 2048 envelopes for a ring whose capacity is not between one
    /// and the largest capacity; a batch size of sixteen; `Overwrite`.
    /// `buffer_sizes` holds the capacity settings by ring; rings beyond its
    /// end have no setting.
    pub fn from_settings(
        num_buffers: Option<&str>,
        buffer_sizes: &Vec<Option<String>>,
        batch_size: Option<&str>,
        overflow_mode: Option<&str>,
    ) -> (config: Self)
        ensures
            config.wf(),
            config.num_buffers == setting_value(
                parsed_setting(
                    match num_buffers {
                        Some(text) => Some(text@),
                        None => None,
                    },
                ),
                1,
                usize::MAX as nat,
                DEFAULT_NUM_BUFFERS,
            ),
            forall|i: int|
                0 <= i < config.num_buffers ==> #[trigger] config.buffer_sizes@[i]
                    == setting_value(
                    parsed_setting(setting_at(buffer_sizes@, i)),
                    1,
                    MAX_BUFFER_CAPACITY as nat,
                    DEFAULT_BUFFER_SIZE,
                ),
            config.batch_size == setting_value(
                parsed_setting(
                    match batch_size {
                        Some(text) => Some(text@),
                        None => None,
                    },
                ),
                0,
                usize::MAX as nat,
                DEFAULT_BATCH_SIZE,
            ),
            config.overflow_mode == setting_mode(
                parsed_setting(
                    match overflow_mode {
                        Some(text) => Some(text@),
                        None => None,
                    },
                ),
            ),
            forall|n: u64| #[trigger]
                shows(setting_text(num_buffers), n) ==> config.num_buffers == setting_value(
                    Some(n),
                    1,
                    usize::MAX as nat,
                    DEFAULT_NUM_BUFFERS,
                ),
            forall|i: int, n: u64|
                0 <= i < config.num_buffers && #[trigger] shows(setting_at(buffer_sizes@, i), n)
                    ==> config.buffer_sizes@[i] == setting_value(
                    Some(n),
                    1,
                    MAX_BUFFER_CAPACITY as nat,
                    DEFAULT_BUFFER_SIZE,
                ),
            forall|n: u64| #[trigger]
                shows(setting_text(batch_size), n) ==> config.batch_size == setting_value(
                    Some(n),
                    0,
                    usize::MAX as nat,
                    DEFAULT_BATCH_SIZE,
                ),
            forall|n: u64| #[trigger]
                shows(setting_text(overflow_mode), n) ==> config.overflow_mode == setting_mode(
                    Some(n),
                ),
    {
        let count = Self::num_buffers_from(num_buffers);
        let mut sizes: Vec<usize> = Vec::new();
        let mut i: usize = 0;
        while i < count
            invariant
                i <= count,
                sizes@.len() == i,
                forall|k: int|
                    0 <= k < i ==> #[trigger] sizes@[k] == setting_value(
                        parsed_setting(setting_at(buffer_sizes@, k)),
                        1,
                        MAX_BUFFER_CAPACITY as nat,
                        DEFAULT_BUFFER_SIZE,
                    ),
                forall|k: int, n: u64|
                    0 <= k < i && #[trigger] shows(setting_at(buffer_sizes@, k), n) ==> sizes@[k]
                        == setting_value(
                        Some(n),
                        1,
                        MAX_BUFFER_CAPACITY as nat,
                        DEFAULT_BUFFER_SIZE,
                    ),
            decreases count - i,
        {
            let parsed = if i < buffer_sizes.len() {
                match &buffer_sizes[i] {
                    Some(text) => parse_number(text.as_str()),
                    None => None,
                }
            } else {
                None
            };
            sizes.push(choose_value(parsed, 1, MAX_BUFFER_CAPACITY, DEFAULT_BUFFER_SIZE));
            i += 1;
        }
        let batch = choose_value(read_setting(batch_size), 0, usize::MAX, DEFAULT_BATCH_SIZE);
        let mode = mode_from(read_setting(overflow_mode));
        BufferConfig {
            num_buffers: count,
            buffer_sizes: sizes,
            batch_size: batch,
            overflow_mode: mode,
        }
    }
}

/// Picks the overflow mode from what was read.
pub fn mode_from(parsed: Option<u64>) -> (mode: OverflowMode)
    ensures
        mode == setting_mode(parsed),
{
    match parsed {
        Some(number) => {
            if number <= 255 {
                OverflowMode::from_u8(number as u8)
            } else {
                OverflowMode::Overwrite
            }
        },
        None => OverflowMode::Overwrite,
    }
}

impl OverflowMode {
    /// The bounded wait of `BlockWithTimeout` in milliseconds: the number
    /// that the setting reads as, one hundred where it reads as none.
    pub fn timeout_ms(setting: Option<&str>) -> (millis: u64)
        ensures
            millis == setting_timeout(
                parsed_setting(
                    match setting {
                        Some(text) => Some(text@),
                        None => None,
                    },
                ),
            ),
            forall|n: u64| #[trigger] shows(setting_text(setting), n) ==> millis == n,
    {
        match read_setting(setting) {
            Some(number) => number,
            None => DEFAULT_TIMEOUT_MS,
        }
    }
}

} // verus!

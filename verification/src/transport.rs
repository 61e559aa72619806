//! The uniform contract of a byte-stream transport.

use vstd::prelude::*;

verus! {

/// Why a transport operation failed.
#[derive(Debug, Clone, Copy, PartialEq, Eq)]
pub enum TransportError {
    /// There is no connection.
    NotConnected,
    /// A non-blocking socket could not take the bytes now.
    WouldBlock,
    /// A fault that may pass.
    Transient,
    /// A fault that will not pass by itself.
    Fatal,
}

/// A stream-oriented byte pipe. Implementations do the input and output; the
/// library asks nothing of them beyond these signatures.
pub trait Transport: Send {
    /// Writes bytes and says how many were taken.
    fn send(&mut self, data: &[u8]) -> Result<usize, TransportError>;

    /// Reads bytes into `buf` and says how many were read; zero at the end of
    /// the stream.
    fn receive(&mut self, buf: &mut [u8]) -> Result<usize, TransportError>;

    /// Writes the slices, in order, in one vectored write, and says how many
    /// bytes were taken.
    fn writev(&mut self, buffers: &[&[u8]]) -> Result<usize, TransportError>;

    /// Establishes the connection.
    fn connect(&mut self) -> Result<(), TransportError>;

    /// Gives the connection up.
    fn disconnect(&mut self) -> Result<(), TransportError>;
}

/// A listening endpoint that hands out connections.
pub trait TransportListener: Send {
    /// The connections that the listener accepts.
    type Connection: Transport;

    /// Binds the endpoint.
    fn bind(&mut self) -> Result<(), TransportError>;

    /// Waits for the next connection.
    fn accept(&mut self) -> Result<Self::Connection, TransportError>;
}

/// Borrows each frame as a slice, in order.
pub fn frame_slices<'a>(frames: &'a Vec<Vec<u8>>) -> (slices: Vec<&'a [u8]>)
    ensures
        slices@.len() == frames@.len(),
        forall|i: int| 0 <= i < frames@.len() ==> (#[trigger] slices@[i])@ == frames@[i]@,
{
    let mut slices: Vec<&'a [u8]> = Vec::new();
    let mut i: usize = 0;
    while i < frames.len()
        invariant
            i <= frames@.len(),
            slices@.len() == i,
            forall|k: int| 0 <= k < i ==> (#[trigger] slices@[k])@ == frames@[k]@,
        decreases frames@.len() - i,
    {
        slices.push(frames[i].as_slice());
        i += 1;
    }
    slices
}

} // verus!

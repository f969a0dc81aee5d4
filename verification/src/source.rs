//! Where the bytes come from.

use vstd::prelude::*;

verus! {

/// The number of bytes that a [`StreamReader`](crate::StreamReader) asks its
/// source for at a time.
pub const BUFFER_SIZE: usize = 1024;

/// Something that bytes can be read from, such as a connection.
///
/// Nothing is assumed of an implementation: a
/// [`StreamReader`](crate::StreamReader) checks what it is told.
pub trait ByteSource {
    /// Pulls some bytes from this source into the front of `buf` and returns
    /// how many were written there. `Some(0)` says that the source has
    /// nothing more to give, and `None` that reading from it failed.
    fn read(&mut self, buf: &mut [u8; BUFFER_SIZE]) -> Option<usize>;
}

} // verus!

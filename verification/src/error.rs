//! The error value returned by the header decoders.

use vstd::prelude::*;

verus! {

/// A structural decode failure.
///
/// An unrecognised format version is not an error: the classifier simply
/// reports no file class and the raw version is rendered instead.
#[derive(Debug, Clone, Copy, PartialEq, Eq, Structural)]
pub enum DecodeError {
    /// The buffer ended before a fixed or computed-length field could be
    /// fully read.
    Truncated,
    /// A derived length underflowed: the declared total record length is
    /// smaller than the user-defined-data pointer plus one.
    LengthUnderflow,
}

} // verus!

use vstd::prelude::*;

verus! {

/// The kinds of failure reported by the codec.
#[derive(Debug, Clone, Copy, PartialEq, Eq)]
pub enum Error {
    /// A structural violation of the wire format.
    InvalidData(&'static str),
    /// An attribute that must hold UTF-8 text does not.
    Utf8,
    /// A length does not fit in the 16-bit field of the wire format.
    IntegerOverflow,
    /// A read from an underlying source failed. The codec itself reports a
    /// read past the end of a value as `InvalidData("failed to read from buffer")`.
    Io,
}

} // verus!

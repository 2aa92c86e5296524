use vstd::prelude::*;

verus! {

/// Everything that can go wrong while decoding a message or building a name.
///
/// A failure aborts the whole parse: no partial packet is ever returned.
#[derive(Debug, Clone, Copy, PartialEq, Eq, Structural)]
pub enum Error {
    /// The pointer of a compressed name does not point strictly backward.
    BadPointer,
    /// The buffer is shorter than the fixed twelve-byte header.
    HeaderTooShort,
    /// A fixed-size field or a declared count runs past the end of the buffer.
    UnexpectedEOF,
    /// A record's data does not fill its declared length exactly.
    WrongRdataLength,
    /// A header bit that must always be zero was found set.
    ReservedBitsAreNonZero,
    /// A label length byte uses the reserved `01`/`10` prefix, or a label
    /// cannot be length-encoded at all.
    UnknownLabelFormat,
    /// A name's encoded form exceeds 255 bytes.
    NameTooLong,
    /// A chain of compression pointers exceeds the hop budget.
    TooManyHops,
}

} // verus!

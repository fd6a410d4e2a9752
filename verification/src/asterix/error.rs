use vstd::prelude::*;

verus! {

/// Why a block, a record or an item could not be decoded.
#[derive(Debug, Clone, Copy, PartialEq, Eq, Structural)]
pub enum AsterixError {
    /// The input ended before the item that was being read.
    UnexpectedEof,
    /// A record's FSPEC has more octets than this parser handles.
    FspecTooLong,
    /// A variable-length item (FX chained) is longer than 16 octets.
    FxChainTooLong,
    /// The subfield FSPEC of I048/130 has more than 4 octets.
    SubfieldFspecTooLong,
    /// I062/510 holds more than 30 octets.
    ComposedTrackNumberTooLong,
    /// A data block is shorter than its 3-octet header.
    BlockTooShort,
    /// The category octet of a block is not the expected one.
    WrongCategory(u8),
    /// The declared block length is below 3.
    InvalidLength(u16),
    /// The buffer is shorter than the declared block length.
    ShorterThanDeclared { declared: u16, actual: usize },
    /// A record claims more octets than the block has left.
    RecordOverrun,
    /// A record consumed no octet.
    NoProgress,
    /// A record is longer than 65535 octets.
    RecordTooLong,
}

} // verus!

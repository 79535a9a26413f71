use vstd::prelude::*;

verus! {

/// Why a buffer could not be decoded.
#[derive(PartialEq, Eq, Structural, Clone, Copy, Debug)]
pub enum DecodeError {
    /// The buffer ends before the record does.
    Truncated,
    /// A compression pointer names an offset at or past the end of the buffer.
    PointerOutOfRange,
    /// A name follows more compression pointers than the buffer has bytes.
    PointerLoop,
    /// A label length byte uses one of the reserved prefixes `01` or `10`.
    ReservedLabel,
    /// An answer carries a record type other than an address record.
    UnsupportedType,
    /// An address answer whose data length is not four.
    RdataLength,
}

/// Why a dotted name could not be turned into labels.
#[derive(PartialEq, Eq, Structural, Clone, Copy, Debug)]
pub enum NameError {
    /// Two dots in a row, or a dot at either end, or an empty name.
    EmptyLabel,
    /// A label longer than 63 bytes.
    LabelTooLong,
}

} // verus!

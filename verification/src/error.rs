use vstd::prelude::*;

verus! {

/// The failure conditions a parse, build or decode can report.
///
/// Every error is terminal for the call that raised it: no partial or
/// best-effort result is ever returned alongside one of these.
#[derive(Clone, Copy, Debug, PartialEq, Eq, Structural)]
pub enum DecodeError {
    /// A forbidden bit was set, an OBU type tag was unrecognized, a read
    /// ran past the end of the buffer, or a LEB128 value did not
    /// terminate within its eight-group bound.
    MalformedBitstream,
    /// A record build found no Sequence Header OBU in the supplied bytes.
    MissingSequenceHeader,
    /// A decoded record's version field was not 1.
    VersionMismatch,
    /// A declared OBU size disagrees with the bytes actually available.
    SizeMismatch,
}

} // verus!

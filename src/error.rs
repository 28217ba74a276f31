use vstd::prelude::*;

verus! {

/// Every way an operation on the NVRAM image can fail.
#[derive(Debug, Clone, Copy, PartialEq, Eq, Structural)]
pub enum Error {
    /// The image bytes are not a valid NVRAM container, or a stored value
    /// holds a malformed container escape.
    Parse,
    /// A section no longer fits its capacity when serialized.
    SectionTooBig,
    /// A reference has no `:` between partition and variable name.
    MissingPartitionName,
    /// A write reference has no `=` before its value.
    MissingValue,
    /// A read reference names a variable that is not stored.
    VariableNotFound,
    /// A partition name other than `common` or `system`.
    UnknownPartition,
    /// A `%` that is not followed by two hexadecimal digits.
    InvalidHex,
}

} // verus!

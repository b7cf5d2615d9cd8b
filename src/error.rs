use vstd::prelude::*;

verus! {

/// What can go wrong while decoding a container.
#[derive(Debug, Clone, Copy, PartialEq, Eq, Structural)]
pub enum Error {
    /// The bytes ran out: at a block boundary this marks the end of the
    /// blocks, anywhere else the container is truncated.
    EndOfFile,
    /// Eight magic bytes were read and they are not the expected ones.
    Magic,
    /// A block header names a block kind that this format does not define.
    UndefinedBlock,
    /// A length-prefixed string does not hold valid UTF-8.
    InvalidText,
}

impl Error {
    /// A short human-readable description of the error.
    pub fn description(&self) -> (r: &'static str)
        ensures
            *self == Error::EndOfFile ==> r@ == "End of File"@,
            *self == Error::Magic ==> r@ == "Magic number error"@,
            *self == Error::UndefinedBlock ==> r@ == "Undefined Block"@,
            *self == Error::InvalidText ==> r@ == "String error: invalid UTF-8"@,
    {
        match self {
            Error::EndOfFile => "End of File",
            Error::Magic => "Magic number error",
            Error::UndefinedBlock => "Undefined Block",
            Error::InvalidText => "String error: invalid UTF-8",
        }
    }
}

} // verus!

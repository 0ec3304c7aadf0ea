use vstd::prelude::*;

verus! {

/// The fatal error taxonomy: an unreadable file, a container the parser
/// refuses, a malformed container where raw fallback is disabled, a
/// recognised container that is not ELF or PE, and a search pattern that does
/// not compile.
#[derive(Clone, Copy, Debug, PartialEq, Eq, Structural)]
pub enum Error {
    IoErr,
    GoblinErr,
    ParseErr,
    Unsupported,
    RegexErr,
}

impl Error {
    /// A human-readable description of the error.
    pub fn message(&self) -> (r: &'static str)
        ensures
            *self == Error::IoErr ==> r@ == "unable to read file"@,
            *self == Error::GoblinErr ==> r@ == "unable to parse binary headers"@,
            *self == Error::ParseErr ==> r@ == "unable to parse binary"@,
            *self == Error::Unsupported ==> r@ == "unsupported format or architecture"@,
            *self == Error::RegexErr ==> r@ == "unable to compile regex"@,
    {
        match self {
            Error::IoErr => "unable to read file",
            Error::GoblinErr => "unable to parse binary headers",
            Error::ParseErr => "unable to parse binary",
            Error::Unsupported => "unsupported format or architecture",
            Error::RegexErr => "unable to compile regex",
        }
    }
}

} // verus!

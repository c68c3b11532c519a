use vstd::prelude::*;

verus! {

/// Errors reported by the emulator and its helpers.  Each variant carries a
/// human-readable message.
#[derive(Debug)]
pub enum Error {
    /// A guest CPU or guest memory fault.
    ArmFault(String),
    /// A malformed request crossing the native ABI.
    Abi(String),
    /// An invalid user configuration value.
    Config(String),
    /// A malformed package image.
    Package(String),
    /// A request that exceeds a configured resource limit.
    ResourceLimit(String),
}

/// The message carried by an error.
pub open spec fn error_text(e: Error) -> Seq<char> {
    match e {
        Error::ArmFault(m) => m@,
        Error::Abi(m) => m@,
        Error::Config(m) => m@,
        Error::Package(m) => m@,
        Error::ResourceLimit(m) => m@,
    }
}

/// `r` is an `ArmFault` whose message is `text`.
pub open spec fn is_arm_fault<T>(r: Result<T, Error>, text: Seq<char>) -> bool {
    r matches Err(Error::ArmFault(m)) && m@ == text
}

impl Error {
    /// The error's message.
    pub fn to_string(&self) -> (s: String)
        ensures
            s@ == error_text(*self),
    {
        match self {
            Error::ArmFault(m) => m.clone(),
            Error::Abi(m) => m.clone(),
            Error::Config(m) => m.clone(),
            Error::Package(m) => m.clone(),
            Error::ResourceLimit(m) => m.clone(),
        }
    }
}

} // verus!

//! Error codes of the foreign-function interface (stable integers).
use vstd::prelude::*;

verus! {

/// An interface error.
#[derive(Debug, Clone, Copy, PartialEq, Eq, Structural)]
pub enum FfiError {
    Success,
    InvalidHandle,
    Locked,
    Crypto,
    Network,
    Storage,
    InvalidPassword,
    PanicWiped,
    NoSession,
    Serialize,
    Internal,
}

/// The stable code of each error.
pub open spec fn ffi_code(e: FfiError) -> i32 {
    match e {
        FfiError::Success => 0,
        FfiError::InvalidHandle => 1,
        FfiError::Locked => 2,
        FfiError::Crypto => 3,
        FfiError::Network => 4,
        FfiError::Storage => 5,
        FfiError::InvalidPassword => 6,
        FfiError::PanicWiped => 7,
        FfiError::NoSession => 8,
        FfiError::Serialize => 9,
        FfiError::Internal => 99,
    }
}

impl FfiError {
    /// The stable code of this error.
    pub fn code(self) -> (r: i32)
        ensures
            r == ffi_code(self),
    {
        match self {
            FfiError::Success => 0,
            FfiError::InvalidHandle => 1,
            FfiError::Locked => 2,
            FfiError::Crypto => 3,
            FfiError::Network => 4,
            FfiError::Storage => 5,
            FfiError::InvalidPassword => 6,
            FfiError::PanicWiped => 7,
            FfiError::NoSession => 8,
            FfiError::Serialize => 9,
            FfiError::Internal => 99,
        }
    }
}

} // verus!

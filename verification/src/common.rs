//! The error type shared by every fallible operation of the lock manager.

use vstd::prelude::*;
use vstd::string::StringExecFns;

use crate::locktype::LockType;

verus! {

/// Error enum for the `glock` crate.
#[derive(Debug, PartialEq, Eq)]
pub enum LockError {
    /// An unhandled internal error; the message is opaque.
    UnknownError {
        /// The message describing the original error.
        message: String,
    },
    /// A `try_*` variant could not proceed without waiting for another
    /// holder to release or downgrade.
    LockBusy,
    /// A wrapper attempted to claim a kernel that is already owned by
    /// another wrapper.
    LockAlreadyUsed,
    /// A parent lock guard was supplied that does not belong to the parent
    /// of the lock being acquired.
    InvalidParentLock,
    /// The supplied parent guard's mode does not suffice for the requested
    /// child mode, and automatic upgrading is disabled.
    InvalidParentLockType {
        /// The required parent lock type.
        required: LockType,
        /// The actual parent lock type.
        actual: LockType,
    },
    /// An upgrade was requested to a mode that is not reachable from the
    /// currently held mode in the upgrade lattice.
    InvalidUpgrade {
        /// The original lock type.
        original: LockType,
        /// The target lock type of the upgrade.
        requested: LockType,
    },
}

impl LockError {
    /// The error rendered as one line of text, for diagnostics.
    pub fn describe(&self) -> (r: String)
        ensures
            r@ == (match self {
                LockError::UnknownError { message } => "Unknown error: "@ + message@,
                LockError::LockBusy => "Failed to acquire/upgrade lock; lock is busy"@,
                LockError::LockAlreadyUsed => "Lock kernel is already owned"@,
                LockError::InvalidParentLock => "Invalid parent lock"@,
                LockError::InvalidParentLockType { required, actual } => {
                    "Invalid parent lock type; required: "@ + required.spec_name()
                        + ", actual: "@ + actual.spec_name()
                },
                LockError::InvalidUpgrade { original, requested } => {
                    "Lock of type "@ + original.spec_name() + " is not upgradable to type "@
                        + requested.spec_name()
                },
            }),
    {
        match self {
            LockError::UnknownError { message } => {
                String::from_str("Unknown error: ").concat(message.as_str())
            },
            LockError::LockBusy => {
                String::from_str("Failed to acquire/upgrade lock; lock is busy")
            },
            LockError::LockAlreadyUsed => String::from_str("Lock kernel is already owned"),
            LockError::InvalidParentLock => String::from_str("Invalid parent lock"),
            LockError::InvalidParentLockType { required, actual } => {
                let mut s = String::from_str("Invalid parent lock type; required: ");
                let required_name = required.name();
                s.append(required_name.as_str());
                s.append(", actual: ");
                let actual_name = actual.name();
                s.append(actual_name.as_str());
                s
            },
            LockError::InvalidUpgrade { original, requested } => {
                let mut s = String::from_str("Lock of type ");
                let original_name = original.name();
                s.append(original_name.as_str());
                s.append(" is not upgradable to type ");
                let requested_name = requested.name();
                s.append(requested_name.as_str());
                s
            },
        }
    }
}

/// Wraps an internal error message as a `LockError`.
pub fn map_unknown_err(message: String) -> (r: LockError)
    ensures
        r == (LockError::UnknownError { message }),
{
    LockError::UnknownError { message }
}

/// A type alias for `Result<T, LockError>`.
pub type LockResult<T> = Result<T, LockError>;

} // verus!

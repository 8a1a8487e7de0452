//! Errors.

use vstd::prelude::*;

verus! {

/// Why a request could not be carried out.
#[derive(Debug, PartialEq, Eq)]
pub enum Error {
    /// The text or number stands for no signal that can be used here.
    InvalidSignal(String),
    /// The signal could not be sent.
    FailedToSendSignal,
    /// A system call failed with this error number.
    System(i32),
}

}

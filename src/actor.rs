//! Errors of the actor harness: a mailbox whose actor is gone, and a
//! receiver taken twice.

use vstd::prelude::*;
use vstd::string::StringExecFns;

verus! {

/// Capacity of an actor's mailbox.
pub const BUFFER_SIZE: usize = 16;

/// A message could not be sent: the actor is gone.
#[derive(PartialEq, Eq, Structural, Clone, Copy, Debug)]
pub struct MailError;

impl MailError {
    /// What went wrong, in words.
    pub fn message(&self) -> (r: String)
        ensures
            r@ == "failed to send"@,
    {
        String::from_str("failed to send")
    }
}

/// The receiver of an actor has already been taken.
#[derive(PartialEq, Eq, Structural, Clone, Copy, Debug)]
pub struct RxError;

impl RxError {
    /// What went wrong, in words.
    pub fn message(&self) -> (r: String)
        ensures
            r@ == "receiver does not exists, either it has already been taken or dropped"@,
    {
        String::from_str("receiver does not exists, either it has already been taken or dropped")
    }
}

} // verus!

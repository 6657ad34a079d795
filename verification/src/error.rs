//! The failures that the library reports.
use vstd::prelude::*;

verus! {

/// What an operation of the library can fail with.
#[derive(Debug, Clone, Copy, PartialEq, Eq, Structural)]
pub enum Error {
    /// The table has no free slot.
    Full,
    /// A participant of that name is registered already.
    Duplicate,
    /// The name does not fit its field.
    NameTooLong,
    /// The event has no cell to wait on or to post.
    NoWaitable,
    /// The wait returned and the cell was still zero.
    SpuriousWake,
    /// The timed wait ran out and the cell was still zero.
    Timeout,
    /// The shared region could not be released.
    CloseFailed,
    /// The directory lock was left held by a participant that is gone.
    LockPoisoned,
}

impl Error {
    /// The text shown to a user for each failure.
    pub open spec fn message_text(self) -> Seq<char> {
        match self {
            Error::Full => "Max number of entries reached"@,
            Error::Duplicate => "Participant already exists"@,
            Error::NameTooLong => "Name too long"@,
            Error::NoWaitable => "Error creating waitable"@,
            Error::SpuriousWake => "Error waiting on event"@,
            Error::Timeout => "Timed out waiting on event"@,
            Error::CloseFailed => "Error closing shared memory"@,
            Error::LockPoisoned => "Directory lock is poisoned"@,
        }
    }

    /// Renders the failure as the message a user sees.
    pub fn message(&self) -> (text: String)
        ensures
            text@ == self.message_text(),
    {
        match self {
            Error::Full => "Max number of entries reached".to_string(),
            Error::Duplicate => "Participant already exists".to_string(),
            Error::NameTooLong => "Name too long".to_string(),
            Error::NoWaitable => "Error creating waitable".to_string(),
            Error::SpuriousWake => "Error waiting on event".to_string(),
            Error::Timeout => "Timed out waiting on event".to_string(),
            Error::CloseFailed => "Error closing shared memory".to_string(),
            Error::LockPoisoned => "Directory lock is poisoned".to_string(),
        }
    }
}

} // verus!

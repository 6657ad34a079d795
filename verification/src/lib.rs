//! Verified core of a multi-process event coordination library.
//!
//! Cooperating processes share a fixed-capacity [`coordinator::Directory`] of
//! participants and events, and block and wake on per-event futex cells. This
//! crate holds the directory, the naming scheme of the shared objects, the
//! edge-triggered wait protocol and the discovery rules. Mapping the shared
//! regions into the address space is left to the caller.
use vstd::prelude::*;

pub mod coordinator;
pub mod error;
pub mod event;
pub mod name;
pub mod subscriber;
pub mod waitable;

verus! {

/// Capacity of the participant table.
pub const MAX_PARTICIPANTS: usize = 64;

/// Width in bytes of an event's name field.
pub const MAX_EVENT_NAME_SIZE: usize = 256;

/// Capacity of the event table.
pub const MAX_EVENTS: usize = 64;

/// Width in bytes of a participant's name field.
pub const MAX_PARTICIPANT_NAME_SIZE: usize = 64;

/// Size in bytes of the region that holds the directory lock.
pub const LOCK_REGION_SIZE: usize = 4;

/// Size in bytes of the region that holds an event's cell.
pub const WAITABLE_REGION_SIZE: usize = 8;

/// Name of the built-in event that is raised when a participant registers.
pub const BUILTIN_EVENT_NEW_PARTICIPANT: &'static str = "mpevent_new_participant";

/// Name of the built-in event that is raised when an event is added.
pub const BUILTIN_EVENT_NEW_EVENT: &'static str = "mpevent_new_event";

} // verus!

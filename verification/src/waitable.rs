//! The edge-triggered protocol on an event's cell.
//!
//! An event is backed by a 32-bit cell in a shared region of its own. The cell
//! is the futex word that waiters sleep on, and it is a flag: zero while the
//! event is not posted, non-zero once it is. A waiter that returns from its
//! sleep reads the flag to tell a real wake from a spurious one, and clears it.
//!
//! The cell is shared with other processes, so nothing is claimed of the value
//! that a read of it returns, nor of what a cell holds after a call. What the
//! protocol hands to each call, and what it makes of the value it reads, is
//! fixed by functions on plain values.
use crate::error::Error;
use rufutex::rufutex::SharedFutex;
use std::time::Duration;
use vstd::prelude::*;

verus! {

/// The value a cell holds while its event is not posted.
pub const CLEARED: u32 = 0;

/// The value that a post stores in a cell.
pub const POSTED: u32 = 1;

/// The wake count that reaches every waiter.
pub const ALL_WAITERS: u32 = 0xffff_ffff;

/// Declares `SharedFutex` of rufutex, the handle on a shared cell. A handle is
/// carried through and handed to the calls below; of the cell behind it
/// nothing is known.
#[verifier::external_type_specification]
#[verifier::external_body]
pub struct ExSharedFutex(rufutex::rufutex::SharedFutex);

/// `SharedFutex::set_futex_value`: stores `value` in the cell. The handle is
/// left as it was; of the cell nothing is claimed.
#[verifier::external_body]
fn cell_store(waitable: &mut SharedFutex, value: u32)
    ensures
        *final(waitable) == *old(waitable),
{
    waitable.set_futex_value(value);
}

/// `SharedFutex::get_futex_value`: loads the value of the cell. The handle is
/// left as it was. Another process may have written the cell, so nothing is
/// claimed of the value.
#[verifier::external_body]
fn cell_load(waitable: &mut SharedFutex) -> (value: u32)
    ensures
        *final(waitable) == *old(waitable),
{
    waitable.get_futex_value()
}

/// `SharedFutex::post_with_value`: stores `value` in the cell, then wakes up to
/// `number_of_waiters` sleepers. The handle is left as it was. The result is
/// what the system call returned, of which nothing is claimed.
#[verifier::external_body]
fn cell_post(waitable: &mut SharedFutex, value: u32, number_of_waiters: u32) -> (status: i64)
    ensures
        *final(waitable) == *old(waitable),
{
    waitable.post_with_value(value, number_of_waiters)
}

/// `SharedFutex::wait`: sleeps while the cell holds `expected`, until a wake
/// arrives. The handle is left as it was. The result is what the system call
/// returned, of which nothing is claimed.
#[verifier::external_body]
fn cell_wait(waitable: &mut SharedFutex, expected: u32) -> (status: i64)
    ensures
        *final(waitable) == *old(waitable),
{
    waitable.wait(expected)
}

/// `SharedFutex::wait_with_timeout`: as `wait`, for at most `timeout`, which is
/// handed over as a `libc::timespec` of its seconds and nanoseconds. The
/// handle is left as it was.
#[verifier::external_body]
fn cell_wait_timeout(waitable: &mut SharedFutex, expected: u32, timeout: Duration) -> (status:
    i64)
    ensures
        *final(waitable) == *old(waitable),
{
    let limit = libc::timespec {
        tv_sec: timeout.as_secs() as i64,
        tv_nsec: timeout.subsec_nanos() as i64,
    };
    waitable.wait_with_timeout(expected, limit)
}

/// What a post hands to the cell.
pub struct Post {
    /// The value stored in the cell.
    pub value: u32,
    /// How many sleepers are woken at most.
    pub waiters: u32,
}

/// What a notification hands to the cell: the value that is stored first, and
/// the post that follows.
pub struct Notification {
    /// The value stored in the cell before the post.
    pub reset: u32,
    /// The post made after the store.
    pub post: Post,
}

/// The post of an event to up to `number_of_waiters` waiters: the cell is set
/// to `POSTED`.
pub fn post_of(number_of_waiters: u32) -> (post: Post)
    ensures
        post == (Post { value: POSTED, waiters: number_of_waiters }),
{
    Post { value: POSTED, waiters: number_of_waiters }
}

/// The notification of a built-in event: the cell is cleared first, then
/// posted to every waiter. Clearing first lets a waiter tell this post from a
/// stale one.
pub fn notification() -> (steps: Notification)
    ensures
        steps == (Notification {
            reset: CLEARED,
            post: Post { value: POSTED, waiters: ALL_WAITERS },
        }),
{
    Notification { reset: CLEARED, post: post_of(ALL_WAITERS) }
}

/// The value on which a waiter sleeps: it sleeps for as long as the cell is
/// clear.
pub fn awaited() -> (expected: u32)
    ensures
        expected == CLEARED,
{
    CLEARED
}

/// What a wait ends with, given the value that its cell holds afterwards:
/// a cell that is still clear means that nobody posted.
pub fn wake_outcome(value: u32) -> (outcome: Result<(), Error>)
    ensures
        value == CLEARED ==> outcome == Err::<(), Error>(Error::SpuriousWake),
        value != CLEARED ==> outcome == Ok::<(), Error>(()),
{
    if value == CLEARED {
        Err(Error::SpuriousWake)
    } else {
        Ok(())
    }
}

/// What a timed wait ends with, given the value that its cell holds
/// afterwards: a cell that is still clear means that the time ran out.
pub fn timed_wake_outcome(value: u32) -> (outcome: Result<(), Error>)
    ensures
        value == CLEARED ==> outcome == Err::<(), Error>(Error::Timeout),
        value != CLEARED ==> outcome == Ok::<(), Error>(()),
{
    if value == CLEARED {
        Err(Error::Timeout)
    } else {
        Ok(())
    }
}

/// What a waiter stores in its cell once it has read `value` from it: it
/// clears a cell that was posted, and leaves a clear cell alone.
pub fn reset_after(value: u32) -> (reset: Option<u32>)
    ensures
        value == CLEARED ==> reset is None,
        value != CLEARED ==> reset == Some(CLEARED),
{
    if value == CLEARED {
        None
    } else {
        Some(CLEARED)
    }
}

/// Posts the event to up to `number_of_waiters` waiters, as `post_of` says.
/// The handle still stands for the same cell.
pub(crate) fn post(waitable: &mut SharedFutex, number_of_waiters: u32)
    ensures
        *final(waitable) == *old(waitable),
{
    let post = post_of(number_of_waiters);
    let _ = cell_post(waitable, post.value, post.waiters);
}

/// Notifies every waiter, as `notification` says: clears the cell, then posts
/// it. The handle still stands for the same cell.
pub(crate) fn notify(waitable: &mut SharedFutex)
    ensures
        *final(waitable) == *old(waitable),
{
    let steps = notification();
    cell_store(waitable, steps.reset);
    let _ = cell_post(waitable, steps.post.value, steps.post.waiters);
}

/// Sleeps until the event is posted and consumes the post: waits on the value
/// that `awaited` gives, reads the cell, ends as `wake_outcome` says of the
/// value read and stores what `reset_after` says of it. A wake that finds the
/// cell clear is the only failure. The handle still stands for the same cell.
pub(crate) fn consume(waitable: &mut SharedFutex) -> (outcome: Result<(), Error>)
    ensures
        *final(waitable) == *old(waitable),
        outcome is Err ==> outcome == Err::<(), Error>(Error::SpuriousWake),
{
    let _ = cell_wait(waitable, awaited());
    let value = cell_load(waitable);
    match reset_after(value) {
        Some(reset) => cell_store(waitable, reset),
        None => {},
    }
    wake_outcome(value)
}

/// Sleeps until the event is posted, for at most `timeout`, and consumes the
/// post, as `consume` does; it ends as `timed_wake_outcome` says of the value
/// read. Running out of time is the only failure. The handle still stands for
/// the same cell.
pub(crate) fn consume_timeout(waitable: &mut SharedFutex, timeout: Duration) -> (outcome: Result<
    (),
    Error,
>)
    ensures
        *final(waitable) == *old(waitable),
        outcome is Err ==> outcome == Err::<(), Error>(Error::Timeout),
{
    let _ = cell_wait_timeout(waitable, awaited(), timeout);
    let value = cell_load(waitable);
    match reset_after(value) {
        Some(reset) => cell_store(waitable, reset),
        None => {},
    }
    timed_wake_outcome(value)
}

} // verus!

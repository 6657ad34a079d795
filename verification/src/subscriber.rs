//! A participant that posts events, waits on them, and discovers others.
//!
//! A [`Subscriber`] registers itself in the directory when it is made and keeps
//! the cells of the events it has used, by name. Its waits are edge-triggered:
//! a wake counts only where the cell was posted. The two discovery waits tell,
//! from the directory's counters before and after a wake, whether somebody else
//! has joined or added an event.
use crate::coordinator::{qualified, Coordinator, Directory};
use crate::error::Error;
use crate::event::Event;
use crate::name::{lemma_text_padded, text};
use crate::waitable::{consume, consume_timeout, post};
use crate::MAX_EVENT_NAME_SIZE;
use rufutex::rufutex::SharedFutex;
use std::time::Duration;
use vstd::prelude::*;
use vstd::utf8::*;

verus! {

/// The cell of an event that the subscriber has used, under the name its
/// users call the event.
struct CachedEvent {
    name: String,
    waitable: SharedFutex,
}

/// A participant of a namespace, with the cells of the events it uses.
pub struct Subscriber {
    id: u64,
    name: String,
    coordinator: Coordinator,
    map_events: Vec<CachedEvent>,
}

/// The identifier of the record appended last to a table of `count` records.
pub open spec fn last_id(count: u64) -> Option<u64> {
    if count == 0 {
        None
    } else {
        Some((count - 1) as u64)
    }
}

/// What a discovery wait of participant `own` delivers after one wake.
///
/// `before` and `after` are the identifier of the last record before the wait
/// and after it, `woke` tells whether the wake was real, and `creator` is who
/// made the record `after`. A record is delivered where the wake was real, the
/// last record has changed, and somebody else made it.
pub open spec fn discovery(
    own: u64,
    before: Option<u64>,
    woke: bool,
    after: Option<u64>,
    creator: Option<u64>,
) -> Option<u64> {
    if woke && after != before && after is Some && creator is Some && creator != Some(own) {
        after
    } else {
        None
    }
}

impl Subscriber {
    /// The identifier under which the subscriber takes part.
    pub closed spec fn own_id(&self) -> u64 {
        self.id
    }

    /// The name under which the subscriber registered.
    pub closed spec fn own_name(&self) -> Seq<char> {
        self.name@
    }

    /// The namespace the subscriber takes part in.
    pub closed spec fn namespace(&self) -> Seq<char> {
        self.coordinator.path()
    }

    /// Where in the cache the cell of `name` lies, if it is kept.
    closed spec fn position(&self, name: Seq<char>) -> int {
        choose|i: int|
            0 <= i < self.map_events@.len() && (#[trigger] self.map_events@[i]).name@ == name
    }

    /// The cells that the subscriber keeps, by the name of their event.
    pub closed spec fn kept(&self) -> Map<Seq<char>, SharedFutex> {
        Map::new(
            |name: Seq<char>|
                exists|i: int|
                    0 <= i < self.map_events@.len() && (#[trigger] self.map_events@[i]).name@
                        == name,
            |name: Seq<char>| self.map_events@[self.position(name)].waitable,
        )
    }

    /// No event is kept twice.
    pub closed spec fn wf(&self) -> bool {
        forall|i: int, j: int|
            0 <= i < j < self.map_events@.len() ==> (#[trigger] self.map_events@[i]).name@ != (
            #[trigger] self.map_events@[j]).name@
    }

    /// The cell at a place of the cache is the cell kept under the name at
    /// that place.
    proof fn lemma_kept_at(&self, i: int)
        requires
            self.wf(),
            0 <= i < self.map_events@.len(),
        ensures
            self.kept().contains_key(self.map_events@[i].name@),
            self.kept()[self.map_events@[i].name@] == self.map_events@[i].waitable,
            self.position(self.map_events@[i].name@) == i,
    {
        let name = self.map_events@[i].name@;
        let p = self.position(name);
        if p < i {
            assert(self.map_events@[p].name@ != self.map_events@[i].name@);
        } else if i < p {
            assert(self.map_events@[i].name@ != self.map_events@[p].name@);
        }
    }

    /// Joins the namespace `mem_path` as `name`: registers `name` in the
    /// directory and keeps the identifier it was given.
    ///
    /// The registration must be one that succeeds.
    pub fn new(name: &str, mem_path: &str, directory: &mut Directory) -> (subscriber: Subscriber)
        requires
            old(directory).wf(),
            old(directory).add_participant_outcome(encode_utf8(name@)) is Ok,
        ensures
            subscriber.own_id() == old(directory).last_participant_id,
            subscriber.own_name() == name@,
            subscriber.namespace() == mem_path@,
            subscriber.kept() == Map::<Seq<char>, SharedFutex>::empty(),
            subscriber.wf(),
            final(directory).registers(*old(directory), encode_utf8(name@)),
            final(directory).wf(),
            final(directory).extends(*old(directory)),
    {
        let coordinator = Coordinator::new(mem_path);
        let id = match coordinator.add_participant(directory, name) {
            Ok(id) => id,
            Err(_) => 0,
        };
        let subscriber = Subscriber {
            id,
            name: name.to_string(),
            coordinator,
            map_events: Vec::new(),
        };
        assert(subscriber.kept() =~= Map::<Seq<char>, SharedFutex>::empty());
        subscriber
    }

    pub fn get_name(&self) -> (name: String)
        ensures
            name@ == self.own_name(),
    {
        self.name.clone()
    }

    pub fn get_id(&self) -> (id: u64)
        ensures
            id == self.own_id(),
    {
        self.id
    }

    pub fn set_id(&mut self, id: u64)
        ensures
            final(self).own_id() == id,
            final(self).own_name() == old(self).own_name(),
            final(self).namespace() == old(self).namespace(),
            final(self).kept() == old(self).kept(),
            final(self).wf() == old(self).wf(),
    {
        self.id = id;
    }

    pub fn get_coordinator(&self) -> (coordinator: &Coordinator)
        ensures
            coordinator.path() == self.namespace(),
    {
        &self.coordinator
    }

    /// Finds the cell kept for `event_name`.
    fn find_event(&self, event_name: &str) -> (found: Option<usize>)
        ensures
            found is Some <==> self.kept().contains_key(event_name@),
            found matches Some(i) ==> i < self.map_events@.len() && self.map_events@[i as int].name@
                == event_name@,
    {
        let key = event_name.to_string();
        let mut i: usize = 0;
        while i < self.map_events.len()
            invariant
                i <= self.map_events@.len(),
                key@ == event_name@,
                forall|k: int| 0 <= k < i ==> (#[trigger] self.map_events@[k]).name@ != event_name@,
            decreases self.map_events@.len() - i,
        {
            if self.map_events[i].name == key {
                return Some(i);
            }
            i += 1;
        }
        None
    }

    /// Changing the cell at one place of the cache changes the cell kept
    /// under the name at that place, and nothing else.
    proof fn lemma_cell_changed(&self, earlier: Subscriber, i: int)
        requires
            earlier.wf(),
            0 <= i < earlier.map_events@.len(),
            self.id == earlier.id,
            self.name == earlier.name,
            self.coordinator == earlier.coordinator,
            self.map_events@.len() == earlier.map_events@.len(),
            forall|k: int|
                0 <= k < earlier.map_events@.len() ==> (#[trigger] self.map_events@[k]).name@
                    == earlier.map_events@[k].name@,
            forall|k: int|
                0 <= k < earlier.map_events@.len() && k != i ==> (
                #[trigger] self.map_events@[k]).waitable == earlier.map_events@[k].waitable,
        ensures
            self.wf(),
            self.kept() == earlier.kept().insert(
                earlier.map_events@[i].name@,
                self.map_events@[i].waitable,
            ),
    {
        assert(self.wf()) by {
            assert forall|a: int, b: int| 0 <= a < b < self.map_events@.len() implies (
            #[trigger] self.map_events@[a]).name@ != (#[trigger] self.map_events@[b]).name@ by {
                assert(earlier.map_events@[a].name@ != earlier.map_events@[b].name@);
            }
        }
        let name = earlier.map_events@[i].name@;
        let expected = earlier.kept().insert(name, self.map_events@[i].waitable);
        assert forall|other: Seq<char>| self.kept().contains_key(other) <==> expected.contains_key(
            other,
        ) by {
            if self.kept().contains_key(other) {
                let k = self.position(other);
                assert(earlier.map_events@[k].name@ == other);
            }
            if earlier.kept().contains_key(other) {
                let k = earlier.position(other);
                assert(self.map_events@[k].name@ == other);
            }
            if other == name {
                assert(self.map_events@[i].name@ == other);
            }
        }
        assert forall|other: Seq<char>| self.kept().contains_key(other) implies self.kept()[other]
            == expected[other] by {
            let k = self.position(other);
            self.lemma_kept_at(k);
            assert(earlier.map_events@[k].name@ == other);
            earlier.lemma_kept_at(k);
            if other == name {
                earlier.lemma_kept_at(i);
            }
        }
        assert(self.kept() =~= expected);
    }

    /// Tells whether the cell of `event_name` is kept.
    pub fn has_event(&self, event_name: &str) -> (kept: bool)
        ensures
            kept == self.kept().contains_key(event_name@),
    {
        self.find_event(event_name).is_some()
    }

    /// Keeps `waitable` as the cell of `event_name`, in place of the cell kept
    /// for that event before, if one was.
    pub fn insert_event(&mut self, event_name: &str, waitable: SharedFutex)
        requires
            old(self).wf(),
        ensures
            final(self).wf(),
            final(self).own_id() == old(self).own_id(),
            final(self).own_name() == old(self).own_name(),
            final(self).namespace() == old(self).namespace(),
            final(self).kept() == old(self).kept().insert(event_name@, waitable),
    {
        let entry = CachedEvent { name: event_name.to_string(), waitable };
        match self.find_event(event_name) {
            Some(i) => {
                self.map_events[i] = entry;
                proof {
                    self.lemma_cell_changed(*old(self), i as int);
                }
            },
            None => {
                self.map_events.push(entry);
                proof {
                    let last = old(self).map_events@.len() as int;
                    assert(self.wf()) by {
                        assert forall|a: int, b: int|
                            0 <= a < b < self.map_events@.len() implies (
                        #[trigger] self.map_events@[a]).name@ != (
                        #[trigger] self.map_events@[b]).name@ by {
                            assert(self.map_events@[a] == old(self).map_events@[a]);
                            if b < last {
                                assert(self.map_events@[b] == old(self).map_events@[b]);
                            }
                        }
                    }
                    let expected = old(self).kept().insert(event_name@, waitable);
                    assert forall|other: Seq<char>|
                        self.kept().contains_key(other) <==> expected.contains_key(other) by {
                        if self.kept().contains_key(other) {
                            let k = self.position(other);
                            if k < last {
                                assert(old(self).map_events@[k].name@ == other);
                            }
                        }
                        if old(self).kept().contains_key(other) {
                            let k = old(self).position(other);
                            assert(self.map_events@[k].name@ == other);
                        }
                        if other == event_name@ {
                            assert(self.map_events@[last].name@ == other);
                        }
                    }
                    assert forall|other: Seq<char>|
                        self.kept().contains_key(other) implies self.kept()[other]
                        == expected[other] by {
                        let k = self.position(other);
                        self.lemma_kept_at(k);
                        if k < last {
                            assert(old(self).map_events@[k].name@ == other);
                            old(self).lemma_kept_at(k);
                        }
                    }
                    assert(self.kept() =~= expected);
                }
            },
        }
    }

    /// What getting or creating the event `name` answers for this subscriber,
    /// on `directory` and with `region` as the cell that was opened for the
    /// event, if one was.
    ///
    /// An event whose cell is kept needs nothing. Else the event is added to
    /// the directory, and the failure of that is handed on; else the answer is
    /// `NoWaitable` where there is no cell to keep.
    pub open spec fn attachment(
        &self,
        directory: Directory,
        name: Seq<char>,
        region: Option<SharedFutex>,
    ) -> Result<(), Error> {
        let full = encode_utf8(qualified(self.namespace(), name));
        if self.kept().contains_key(name) {
            Ok(())
        } else if directory.add_event_failure(full) is Some {
            Err(directory.add_event_failure(full)->0)
        } else if text(full).len() == 0 || region is None {
            Err(Error::NoWaitable)
        } else {
            Ok(())
        }
    }

    /// `self` and `after` are what getting or creating the event `name` makes
    /// of the subscriber `earlier` and of the directory `before`.
    ///
    /// Where the cell of the event is kept, nothing changes. Else the event is
    /// added to the directory in the subscriber's name, and where that ends
    /// well and a cell was handed in, this cell is kept under `name`.
    pub open spec fn attaches(
        &self,
        earlier: Subscriber,
        before: Directory,
        after: Directory,
        name: Seq<char>,
        region: Option<SharedFutex>,
    ) -> bool {
        let full = encode_utf8(qualified(earlier.namespace(), name));
        &&& self.wf()
        &&& self.own_id() == earlier.own_id()
        &&& self.own_name() == earlier.own_name()
        &&& self.namespace() == earlier.namespace()
        &&& if earlier.kept().contains_key(name) {
            after == before && self.kept() == earlier.kept()
        } else {
            &&& after.with_event(before, full, earlier.own_id())
            &&& self.kept() == if earlier.attachment(before, name, region) is Ok {
                earlier.kept().insert(name, region->0)
            } else {
                earlier.kept()
            }
        }
    }

    /// Makes sure that the cell of the event `event_name` is kept: where it is
    /// not, adds the event to the directory in the subscriber's name and keeps
    /// `region`, the cell that the caller opened under the qualified name of
    /// the event.
    ///
    /// Fails as adding an event does, and with `NoWaitable` where the event is
    /// in the directory and there is no cell to keep.
    pub fn get_or_create_event(
        &mut self,
        directory: &mut Directory,
        event_name: &str,
        region: Option<SharedFutex>,
    ) -> (outcome: Result<(), Error>)
        requires
            old(self).wf(),
            old(directory).wf(),
        ensures
            outcome == old(self).attachment(*old(directory), event_name@, region),
            final(self).attaches(
                *old(self),
                *old(directory),
                *final(directory),
                event_name@,
                region,
            ),
            outcome is Ok ==> final(self).kept().contains_key(event_name@),
            final(directory).wf(),
            final(directory).extends(*old(directory)),
    {
        if self.has_event(event_name) {
            return Ok(());
        }
        let event = match self.coordinator.add_event(directory, self.id, event_name) {
            Ok(event) => event,
            Err(e) => {
                return Err(e);
            },
        };
        proof {
            let full = encode_utf8(qualified(self.namespace(), event_name@));
            if full.len() <= MAX_EVENT_NAME_SIZE {
                lemma_text_padded(full, MAX_EVENT_NAME_SIZE as nat);
            }
        }
        match event.get_waitable(region) {
            Some(waitable) => {
                self.insert_event(event_name, waitable);
                Ok(())
            },
            None => Err(Error::NoWaitable),
        }
    }

    /// Posts `event_name` to up to `number_of_waiters` waiters, on the cell
    /// kept for the event. Where no cell is kept for it yet, the event is got
    /// or created first, with `region` as its cell: see `get_or_create_event`,
    /// whose failures are the failures of this call.
    pub fn trigger_event(
        &mut self,
        directory: &mut Directory,
        event_name: &str,
        number_of_waiters: u32,
        region: Option<SharedFutex>,
    ) -> (outcome: Result<(), Error>)
        requires
            old(self).wf(),
            old(directory).wf(),
        ensures
            outcome == old(self).attachment(*old(directory), event_name@, region),
            final(self).attaches(
                *old(self),
                *old(directory),
                *final(directory),
                event_name@,
                region,
            ),
            final(directory).wf(),
            final(directory).extends(*old(directory)),
    {
        match self.get_or_create_event(directory, event_name, region) {
            Ok(_) => {},
            Err(e) => {
                return Err(e);
            },
        }
        let ghost attached = *self;
        match self.find_event(event_name) {
            Some(i) => {
                post(&mut self.map_events[i].waitable, number_of_waiters);
                proof {
                    self.lemma_cell_changed(attached, i as int);
                    attached.lemma_kept_at(i as int);
                    assert(self.kept() =~= attached.kept());
                }
                Ok(())
            },
            None => Err(Error::NoWaitable),
        }
    }

    /// Waits on a built-in event, given its record and the cell that was
    /// opened for it, and consumes the post it finds. Fails with `NoWaitable`
    /// when there is no cell, and with `SpuriousWake` when the wake finds the
    /// cell clear.
    pub fn wait_on_internal_event(&self, event: &Event, region: Option<SharedFutex>) -> (outcome:
        Result<(), Error>)
        ensures
            event.name_bytes().len() == 0 || region is None ==> outcome == Err::<(), Error>(
                Error::NoWaitable,
            ),
            event.name_bytes().len() > 0 && region is Some ==> outcome is Ok || outcome == Err::<
                (),
                Error,
            >(Error::SpuriousWake),
    {
        match event.get_waitable(region) {
            Some(mut waitable) => consume(&mut waitable),
            None => Err(Error::NoWaitable),
        }
    }

    /// Waits until `event_name` is posted and consumes the post, on the cell
    /// kept for the event. Where no cell is kept for it yet, the event is got
    /// or created first, with `region` as its cell: see `get_or_create_event`,
    /// whose failures are handed on. A wake that finds the cell clear fails
    /// with `SpuriousWake`.
    pub fn wait_on_event(
        &mut self,
        directory: &mut Directory,
        event_name: &str,
        region: Option<SharedFutex>,
    ) -> (outcome: Result<(), Error>)
        requires
            old(self).wf(),
            old(directory).wf(),
        ensures
            old(self).attachment(*old(directory), event_name@, region) matches Err(e) ==> outcome
                == Err::<(), Error>(e),
            old(self).attachment(*old(directory), event_name@, region) is Ok ==> outcome is Ok
                || outcome == Err::<(), Error>(Error::SpuriousWake),
            final(self).attaches(
                *old(self),
                *old(directory),
                *final(directory),
                event_name@,
                region,
            ),
            final(directory).wf(),
            final(directory).extends(*old(directory)),
    {
        match self.get_or_create_event(directory, event_name, region) {
            Ok(_) => {},
            Err(e) => {
                return Err(e);
            },
        }
        let ghost attached = *self;
        match self.find_event(event_name) {
            Some(i) => {
                let outcome = consume(&mut self.map_events[i].waitable);
                proof {
                    self.lemma_cell_changed(attached, i as int);
                    attached.lemma_kept_at(i as int);
                    assert(self.kept() =~= attached.kept());
                }
                outcome
            },
            None => Err(Error::SpuriousWake),
        }
    }

    /// Waits until `event_name` is posted, for at most `timeout`, and consumes
    /// the post, on the cell kept for the event. Where no cell is kept for it
    /// yet, the event is got or created first, with `region` as its cell: see
    /// `get_or_create_event`, whose failures are handed on. Running out of
    /// time fails with `Timeout`.
    pub fn wait_on_event_timeout(
        &mut self,
        directory: &mut Directory,
        event_name: &str,
        timeout: Duration,
        region: Option<SharedFutex>,
    ) -> (outcome: Result<(), Error>)
        requires
            old(self).wf(),
            old(directory).wf(),
        ensures
            old(self).attachment(*old(directory), event_name@, region) matches Err(e) ==> outcome
                == Err::<(), Error>(e),
            old(self).attachment(*old(directory), event_name@, region) is Ok ==> outcome is Ok
                || outcome == Err::<(), Error>(Error::Timeout),
            final(self).attaches(
                *old(self),
                *old(directory),
                *final(directory),
                event_name@,
                region,
            ),
            final(directory).wf(),
            final(directory).extends(*old(directory)),
    {
        match self.get_or_create_event(directory, event_name, region) {
            Ok(_) => {},
            Err(e) => {
                return Err(e);
            },
        }
        let ghost attached = *self;
        match self.find_event(event_name) {
            Some(i) => {
                let outcome = consume_timeout(&mut self.map_events[i].waitable, timeout);
                proof {
                    self.lemma_cell_changed(attached, i as int);
                    attached.lemma_kept_at(i as int);
                    assert(self.kept() =~= attached.kept());
                }
                outcome
            },
            None => Err(Error::Timeout),
        }
    }

    /// One round of the wait for a new event: decides, once the wait on the
    /// built-in event has returned with `wake`, whether somebody else has
    /// added an event since `before` was read, and which.
    ///
    /// `None` means that the wait goes on.
    pub fn wait_on_new_event(&self, directory: &Directory, before: Option<u64>, wake: Result<
        (),
        Error,
    >) -> (found: Option<u64>)
        ensures
            found == discovery(
                self.own_id(),
                before,
                wake is Ok,
                last_id(directory.last_event_id),
                match last_id(directory.last_event_id) {
                    Some(id) => directory.owner_at(id),
                    None => None,
                },
            ),
    {
        if wake.is_err() {
            return None;
        }
        let current_event_id = self.coordinator.get_last_event_id(directory);
        if !same_id(current_event_id, before) {
            match current_event_id {
                None => None,
                Some(event_id) => {
                    match self.coordinator.get_participant_id_by_event_id(directory, event_id) {
                        Some(id) => {
                            if id == self.id {
                                None
                            } else {
                                Some(event_id)
                            }
                        },
                        None => None,
                    }
                },
            }
        } else {
            None
        }
    }

    /// One round of the wait for a new participant: decides, once the wait on
    /// the built-in event has returned with `wake`, whether somebody else has
    /// registered since `before` was read, and who.
    ///
    /// `None` means that the wait goes on.
    pub fn wait_on_new_participant(&self, directory: &Directory, before: Option<u64>, wake: Result<
        (),
        Error,
    >) -> (found: Option<u64>)
        ensures
            found == discovery(
                self.own_id(),
                before,
                wake is Ok,
                last_id(directory.last_participant_id),
                last_id(directory.last_participant_id),
            ),
    {
        if wake.is_err() {
            return None;
        }
        let current_participant_id = self.coordinator.get_last_participant_id(directory);
        if !same_id(current_participant_id, before) {
            match current_participant_id {
                None => None,
                Some(id) => {
                    if id == self.id {
                        None
                    } else {
                        Some(id)
                    }
                },
            }
        } else {
            None
        }
    }
}

/// Tells whether two optional identifiers are the same.
fn same_id(a: Option<u64>, b: Option<u64>) -> (same: bool)
    ensures
        same == (a == b),
{
    match (a, b) {
        (None, None) => true,
        (Some(x), Some(y)) => x == y,
        _ => false,
    }
}

/// A wait for new participants passes over the registration of the waiter
/// itself and delivers the identifier of anybody else who registers.
pub proof fn lemma_discovery_of_participants(
    own: u64,
    earlier: Directory,
    directory: Directory,
    name: Seq<u8>,
)
    requires
        directory.registers(earlier, name),
    ensures
        discovery(
            own,
            last_id(earlier.last_participant_id),
            true,
            last_id(directory.last_participant_id),
            last_id(directory.last_participant_id),
        ) == if earlier.last_participant_id == own {
            None
        } else {
            Some(earlier.last_participant_id)
        },
{
}

/// A wait for new events passes over the events that the waiter itself adds
/// and delivers the identifier of an event that anybody else adds.
pub proof fn lemma_discovery_of_events(
    own: u64,
    earlier: Directory,
    directory: Directory,
    name: Seq<u8>,
    owner: u64,
)
    requires
        directory.appends_event(earlier, name, owner),
    ensures
        discovery(
            own,
            last_id(earlier.last_event_id),
            true,
            last_id(directory.last_event_id),
            directory.owner_at(earlier.last_event_id),
        ) == if owner == own {
            None
        } else {
            Some(earlier.last_event_id)
        },
{
}

/// A wake is passed over where it is spurious, and where the last record is
/// the one that was last before the wait.
pub proof fn lemma_discovery_needs_change(
    own: u64,
    before: Option<u64>,
    woke: bool,
    after: Option<u64>,
    creator: Option<u64>,
)
    requires
        !woke || after == before,
    ensures
        discovery(own, before, woke, after, creator) is None,
{
}

} // verus!

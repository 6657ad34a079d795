//! The shared directory and the coordinator that works on it.
//!
//! The [`Directory`] is the fixed-capacity table that the processes of one
//! namespace share: who takes part, which events exist, and who created each.
//! Records are only ever appended. A [`Coordinator`] is one process's handle on
//! a namespace. Its operations take the directory they work on as an argument:
//! the caller holds the directory lock while it hands the directory in.
use crate::error::Error;
use crate::event::Event;
use crate::name::{
    lemma_padded_round_trip, lemma_padded_valid_utf8, lemma_text_of_zeros, lemma_text_padded,
    nul_free_chars, padded, padded_field, text, text_equals, text_is_utf8, text_slice,
    text_string,
};
use crate::waitable::notify;
use crate::{
    BUILTIN_EVENT_NEW_EVENT, BUILTIN_EVENT_NEW_PARTICIPANT, MAX_EVENTS, MAX_EVENT_NAME_SIZE,
    MAX_PARTICIPANTS, MAX_PARTICIPANT_NAME_SIZE,
};
use rufutex::rufutex::SharedFutex;
use vstd::prelude::*;
use vstd::utf8::*;

verus! {

/// A participant as the directory stores it: its identifier, and its name in
/// a NUL-padded field.
#[derive(Debug, Copy, Clone)]
pub struct Participant {
    pub id: u64,
    pub name: [u8; MAX_PARTICIPANT_NAME_SIZE],
}

impl Participant {
    /// The bytes of the stored name.
    pub open spec fn name_bytes(&self) -> Seq<u8> {
        text(self.name@)
    }

    /// The stored name can be decoded.
    pub open spec fn wf(&self) -> bool {
        valid_utf8(self.name_bytes())
    }

    /// The stored name.
    pub open spec fn name_chars(&self) -> Seq<char> {
        decode_utf8(self.name_bytes())
    }

    /// The record with identifier 0 and no name.
    pub fn new() -> (participant: Participant)
        ensures
            participant.id == 0,
            participant.name@ == padded(Seq::<u8>::empty(), MAX_PARTICIPANT_NAME_SIZE as nat),
            participant.name_bytes() == Seq::<u8>::empty(),
            participant.name_chars() == Seq::<char>::empty(),
            participant.wf(),
    {
        let participant = Participant { id: 0, name: [0; MAX_PARTICIPANT_NAME_SIZE] };
        proof {
            assert(participant.name@ =~= padded(
                Seq::<u8>::empty(),
                MAX_PARTICIPANT_NAME_SIZE as nat,
            ));
            lemma_text_of_zeros(participant.name@);
            assert(decode_utf8(Seq::<u8>::empty()) == Seq::<char>::empty());
        }
        participant
    }

    /// Decodes the stored name.
    pub fn get_name(&self) -> (name: String)
        requires
            self.wf(),
        ensures
            name@ == self.name_chars(),
    {
        text_string(self.name.as_slice())
    }

    /// Tells whether the stored name can be decoded.
    pub fn has_valid_name(&self) -> (valid: bool)
        ensures
            valid == self.wf(),
    {
        text_is_utf8(self.name.as_slice())
    }
}

/// The table that the processes of a namespace share.
///
/// `last_participant_id` counts the participants registered so far and is the
/// identifier of the next one; `last_event_id` does the same for events. The
/// records in use are those below the counters. `events_owners[i]` is the
/// participant that created `events[i]`.
#[derive(Debug, Clone, Copy)]
pub struct Directory {
    pub last_participant_id: u64,
    pub last_event_id: u64,
    pub participants: [Participant; MAX_PARTICIPANTS],
    pub events: [Event; MAX_EVENTS],
    pub events_owners: [u64; MAX_EVENTS],
}

/// What a directory says: the names of the participants, the qualified names
/// of the events and the owners of the events, each by identifier.
pub struct DirectoryView {
    pub participants: Seq<Seq<u8>>,
    pub events: Seq<Seq<u8>>,
    pub owners: Seq<u64>,
}

impl View for Directory {
    type V = DirectoryView;

    open spec fn view(&self) -> DirectoryView {
        DirectoryView {
            participants: self.participant_names(),
            events: self.event_names(),
            owners: self.events_owners@.take(self.last_event_id as int),
        }
    }
}

impl Directory {
    /// The counters are within capacity, and each record in use carries its
    /// own position as identifier and a name that can be decoded.
    pub open spec fn wf(&self) -> bool {
        &&& self.last_participant_id <= MAX_PARTICIPANTS
        &&& self.last_event_id <= MAX_EVENTS
        &&& forall|i: int|
            0 <= i < self.last_participant_id ==> (#[trigger] self.participants@[i]).id == i
                && self.participants@[i].wf()
        &&& forall|i: int|
            0 <= i < self.last_event_id ==> (#[trigger] self.events@[i]).id == i
                && self.events@[i].wf()
    }

    /// The names of the participants, by identifier.
    pub open spec fn participant_names(&self) -> Seq<Seq<u8>> {
        Seq::new(self.last_participant_id as nat, |i: int| self.participants@[i].name_bytes())
    }

    /// The qualified names of the events, by identifier.
    pub open spec fn event_names(&self) -> Seq<Seq<u8>> {
        Seq::new(self.last_event_id as nat, |i: int| self.events@[i].name_bytes())
    }

    /// No two participants share a name, and no two events do.
    pub open spec fn distinct_names(&self) -> bool {
        &&& forall|i: int, j: int|
            0 <= i < j < self.last_participant_id ==> (
            #[trigger] self.participants@[i]).name_bytes() != (
            #[trigger] self.participants@[j]).name_bytes()
        &&& forall|i: int, j: int|
            0 <= i < j < self.last_event_id ==> (#[trigger] self.events@[i]).name_bytes() != (
            #[trigger] self.events@[j]).name_bytes()
    }

    /// A participant in use is stored under `name`.
    pub open spec fn has_participant(&self, name: Seq<u8>) -> bool {
        exists|i: int|
            0 <= i < self.last_participant_id && (#[trigger] self.participants@[i]).name_bytes()
                == name
    }

    /// An event in use is stored under `name`.
    pub open spec fn has_event(&self, name: Seq<u8>) -> bool {
        exists|i: int|
            0 <= i < self.last_event_id && (#[trigger] self.events@[i]).name_bytes() == name
    }

    /// `i` is the first event in use that is stored under `name`.
    pub open spec fn first_event(&self, name: Seq<u8>, i: int) -> bool {
        &&& 0 <= i < self.last_event_id
        &&& self.events@[i].name_bytes() == name
        &&& forall|j: int| 0 <= j < i ==> (#[trigger] self.events@[j]).name_bytes() != name
    }

    /// `i` is the first participant in use that is stored under `name`.
    pub open spec fn first_participant(&self, name: Seq<u8>, i: int) -> bool {
        &&& 0 <= i < self.last_participant_id
        &&& self.participants@[i].name_bytes() == name
        &&& forall|j: int| 0 <= j < i ==> (#[trigger] self.participants@[j]).name_bytes() != name
    }

    /// Every record in use in `earlier` is in use, unchanged, in `self`:
    /// records are appended, never removed or rewritten.
    pub open spec fn extends(&self, earlier: Directory) -> bool {
        &&& earlier.last_participant_id <= self.last_participant_id
        &&& earlier.last_event_id <= self.last_event_id
        &&& forall|i: int|
            0 <= i < earlier.last_participant_id ==> #[trigger] self.participants@[i]
                == earlier.participants@[i]
        &&& forall|i: int|
            0 <= i < earlier.last_event_id ==> #[trigger] self.events@[i] == earlier.events@[i]
        &&& forall|i: int|
            0 <= i < earlier.last_event_id ==> #[trigger] self.events_owners@[i]
                == earlier.events_owners@[i]
    }

    /// The record in slot `id` of the participant table, in use or not.
    pub open spec fn participant_at(&self, id: u64) -> Option<Participant> {
        if id < MAX_PARTICIPANTS {
            Some(self.participants@[id as int])
        } else {
            None
        }
    }

    /// The owner recorded in slot `id` of the event table, in use or not.
    pub open spec fn owner_at(&self, id: u64) -> Option<u64> {
        if id < MAX_EVENTS {
            Some(self.events_owners@[id as int])
        } else {
            None
        }
    }

    /// What registering `name` answers on this directory. A name counts as
    /// present where a participant is stored under its text, which is all of
    /// a name that a field keeps readable.
    pub open spec fn add_participant_outcome(&self, name: Seq<u8>) -> Result<u64, Error> {
        if self.last_participant_id >= MAX_PARTICIPANTS {
            Err(Error::Full)
        } else if self.has_participant(text(name)) {
            Err(Error::Duplicate)
        } else if name.len() > MAX_PARTICIPANT_NAME_SIZE {
            Err(Error::NameTooLong)
        } else {
            Ok(self.last_participant_id)
        }
    }

    /// `self` is `earlier` with one more participant, stored under `name`
    /// in the slot that was next.
    pub open spec fn registers(&self, earlier: Directory, name: Seq<u8>) -> bool {
        let id = earlier.last_participant_id;
        &&& id < MAX_PARTICIPANTS
        &&& self.last_participant_id == id + 1
        &&& self.last_event_id == earlier.last_event_id
        &&& self.events == earlier.events
        &&& self.events_owners == earlier.events_owners
        &&& self.participants@ == earlier.participants@.update(
            id as int,
            self.participants@[id as int],
        )
        &&& self.participants@[id as int].id == id
        &&& self.participants@[id as int].name@ == padded(name, MAX_PARTICIPANT_NAME_SIZE as nat)
    }

    /// `self` is `earlier` with one more event, stored under the qualified
    /// name `name` in the slot that was next, and owned by `owner`.
    pub open spec fn appends_event(&self, earlier: Directory, name: Seq<u8>, owner: u64) -> bool {
        let id = earlier.last_event_id;
        &&& id < MAX_EVENTS
        &&& self.last_event_id == id + 1
        &&& self.last_participant_id == earlier.last_participant_id
        &&& self.participants == earlier.participants
        &&& self.events@ == earlier.events@.update(id as int, self.events@[id as int])
        &&& self.events_owners@ == earlier.events_owners@.update(id as int, owner)
        &&& self.events@[id as int].id == id
        &&& self.events@[id as int].name@ == padded(name, MAX_EVENT_NAME_SIZE as nat)
    }

    /// What adding an event under the qualified name `name` fails with on this
    /// directory, if it fails: nothing where an event is stored under the text
    /// of `name` already, else `Full` with a full table, else `NameTooLong`
    /// with a name that does not fit its field.
    pub open spec fn add_event_failure(&self, name: Seq<u8>) -> Option<Error> {
        if self.has_event(text(name)) {
            None
        } else if self.last_event_id >= MAX_EVENTS {
            Some(Error::Full)
        } else if name.len() > MAX_EVENT_NAME_SIZE {
            Some(Error::NameTooLong)
        } else {
            None
        }
    }

    /// `self` is what adding an event under the qualified name `name`, for
    /// `owner`, makes of `before`: `before` with the event appended where the
    /// addition does not fail and the event is not stored yet, else `before`.
    pub open spec fn with_event(&self, before: Directory, name: Seq<u8>, owner: u64) -> bool {
        if before.has_event(text(name)) || before.add_event_failure(name) is Some {
            *self == before
        } else {
            self.appends_event(before, name, owner)
        }
    }

    /// `self` and `outcome` are what adding an event under the qualified name
    /// `name`, for `owner`, makes of `before`.
    ///
    /// Where an event is stored under the text of `name` already, the first
    /// such record is the answer and nothing changes. Else a full table
    /// answers `Full`, a name that does not fit its field answers
    /// `NameTooLong`, and otherwise the event is appended and its new record
    /// is the answer.
    pub open spec fn adds_event(
        &self,
        before: Directory,
        name: Seq<u8>,
        owner: u64,
        outcome: Result<Event, Error>,
    ) -> bool {
        if before.has_event(text(name)) {
            &&& *self == before
            &&& outcome matches Ok(event)
            &&& before.first_event(text(name), event.id as int)
            &&& event == before.events@[event.id as int]
        } else if before.last_event_id >= MAX_EVENTS {
            *self == before && outcome == Err::<Event, Error>(Error::Full)
        } else if name.len() > MAX_EVENT_NAME_SIZE {
            *self == before && outcome == Err::<Event, Error>(Error::NameTooLong)
        } else {
            &&& self.appends_event(before, name, owner)
            &&& outcome == Ok::<Event, Error>(self.events@[before.last_event_id as int])
        }
    }

    /// The counters are at zero and every slot is cleared: identifier 0, a
    /// name field of NUL bytes, owner 0.
    pub open spec fn is_cleared(&self) -> bool {
        &&& self.last_participant_id == 0
        &&& self.last_event_id == 0
        &&& forall|i: int|
            0 <= i < MAX_PARTICIPANTS ==> (#[trigger] self.participants@[i]).id == 0
                && self.participants@[i].name@ == padded(
                Seq::<u8>::empty(),
                MAX_PARTICIPANT_NAME_SIZE as nat,
            )
        &&& forall|i: int|
            0 <= i < MAX_EVENTS ==> (#[trigger] self.events@[i]).id == 0 && self.events@[i].name@
                == padded(Seq::<u8>::empty(), MAX_EVENT_NAME_SIZE as nat)
        &&& forall|i: int| 0 <= i < MAX_EVENTS ==> #[trigger] self.events_owners@[i] == 0
    }

    /// The directory of a namespace that nobody has joined yet: counters at
    /// zero, every field cleared.
    pub fn new() -> (directory: Directory)
        ensures
            directory.last_participant_id == 0,
            directory.last_event_id == 0,
            directory.is_cleared(),
            directory.wf(),
            directory.distinct_names(),
            directory@ == (DirectoryView {
                participants: Seq::empty(),
                events: Seq::empty(),
                owners: Seq::empty(),
            }),
            forall|i: int|
                0 <= i < MAX_PARTICIPANTS ==> (#[trigger] directory.participants@[i]).id == 0
                    && directory.participants@[i].name@ == padded(
                    Seq::<u8>::empty(),
                    MAX_PARTICIPANT_NAME_SIZE as nat,
                ) && directory.participants@[i].name_bytes() == Seq::<u8>::empty(),
            forall|i: int|
                0 <= i < MAX_EVENTS ==> (#[trigger] directory.events@[i]).id == 0
                    && directory.events@[i].name@ == padded(
                    Seq::<u8>::empty(),
                    MAX_EVENT_NAME_SIZE as nat,
                ) && directory.events@[i].name_bytes() == Seq::<u8>::empty(),
            forall|i: int| 0 <= i < MAX_EVENTS ==> #[trigger] directory.events_owners@[i] == 0,
    {
        let directory = Directory {
            last_participant_id: 0,
            last_event_id: 0,
            participants: [Participant::new(); MAX_PARTICIPANTS],
            events: [Event::new(); MAX_EVENTS],
            events_owners: [0; MAX_EVENTS],
        };
        proof {
            assert(directory@.participants =~= Seq::empty());
            assert(directory@.events =~= Seq::empty());
            assert(directory@.owners =~= Seq::empty());
        }
        directory
    }

    /// The directory, or the empty directory in its place where it is not
    /// well-formed: a region that was left behind by something else is taken
    /// over as if it had just been created.
    pub fn or_cleared(self) -> (directory: Directory)
        ensures
            directory.wf(),
            self.wf() ==> directory == self,
            !self.wf() ==> directory.is_cleared(),
    {
        if self.is_valid() {
            self
        } else {
            Directory::new()
        }
    }

    /// Tells whether the directory is well-formed.
    pub fn is_valid(&self) -> (valid: bool)
        ensures
            valid == self.wf(),
    {
        if self.last_participant_id > MAX_PARTICIPANTS as u64 || self.last_event_id
            > MAX_EVENTS as u64 {
            return false;
        }
        let participants = self.last_participant_id as usize;
        let mut i: usize = 0;
        while i < participants
            invariant
                i <= participants == self.last_participant_id <= MAX_PARTICIPANTS,
                forall|k: int|
                    0 <= k < i ==> (#[trigger] self.participants@[k]).id == k
                        && self.participants@[k].wf(),
            decreases participants - i,
        {
            if self.participants[i].id != i as u64 || !self.participants[i].has_valid_name() {
                return false;
            }
            i += 1;
        }
        let events = self.last_event_id as usize;
        let mut j: usize = 0;
        while j < events
            invariant
                j <= events == self.last_event_id <= MAX_EVENTS,
                forall|k: int|
                    0 <= k < j ==> (#[trigger] self.events@[k]).id == k && self.events@[k].wf(),
            decreases events - j,
        {
            if self.events[j].id != j as u64 || !self.events[j].has_valid_name() {
                return false;
            }
            j += 1;
        }
        true
    }

    /// Finds the first participant that is stored under the text of `name`.
    pub fn find_participant(&self, name: &str) -> (found: Option<u64>)
        requires
            self.last_participant_id <= MAX_PARTICIPANTS,
        ensures
            found is Some <==> self.has_participant(text(encode_utf8(name@))),
            found matches Some(id) ==> self.first_participant(
                text(encode_utf8(name@)),
                id as int,
            ),
    {
        let bytes = text_slice(name.as_bytes());
        let count = self.last_participant_id as usize;
        let mut i: usize = 0;
        while i < count
            invariant
                i <= count == self.last_participant_id <= MAX_PARTICIPANTS,
                bytes@ == text(encode_utf8(name@)),
                forall|k: int|
                    0 <= k < i ==> (#[trigger] self.participants@[k]).name_bytes() != bytes@,
            decreases count - i,
        {
            if text_equals(self.participants[i].name.as_slice(), bytes) {
                return Some(i as u64);
            }
            i += 1;
        }
        None
    }

    /// Finds the first event that is stored under the text of the qualified
    /// name `name`.
    pub fn find_event(&self, name: &str) -> (found: Option<u64>)
        requires
            self.last_event_id <= MAX_EVENTS,
        ensures
            found is Some <==> self.has_event(text(encode_utf8(name@))),
            found matches Some(id) ==> self.first_event(text(encode_utf8(name@)), id as int),
    {
        let bytes = text_slice(name.as_bytes());
        let count = self.last_event_id as usize;
        let mut i: usize = 0;
        while i < count
            invariant
                i <= count == self.last_event_id <= MAX_EVENTS,
                bytes@ == text(encode_utf8(name@)),
                forall|k: int| 0 <= k < i ==> (#[trigger] self.events@[k]).name_bytes() != bytes@,
            decreases count - i,
        {
            if text_equals(self.events[i].name.as_slice(), bytes) {
                return Some(i as u64);
            }
            i += 1;
        }
        None
    }
}

/// Tells whether a shared-memory file named `file_name` is left over from the
/// namespace `namespace`: whether its name begins with the namespace, as the
/// names of the directory, of its lock and of every event's cell do.
pub fn is_residual(file_name: &str, namespace: &str) -> (residual: bool)
    ensures
        residual == encode_utf8(namespace@).is_prefix_of(encode_utf8(file_name@)),
{
    let file = file_name.as_bytes();
    let prefix = namespace.as_bytes();
    if prefix.len() > file.len() {
        return false;
    }
    let mut i: usize = 0;
    while i < prefix.len()
        invariant
            i <= prefix@.len() <= file@.len(),
            prefix@ == encode_utf8(namespace@),
            file@ == encode_utf8(file_name@),
            forall|k: int| 0 <= k < i ==> prefix@[k] == file@[k],
        decreases prefix@.len() - i,
    {
        if prefix[i] != file[i] {
            assert(!prefix@.is_prefix_of(file@)) by {
                if prefix@.is_prefix_of(file@) {
                    assert(file@.subrange(0, prefix@.len() as int)[i as int] == prefix@[i as int]);
                }
            }
            return false;
        }
        i += 1;
    }
    assert(prefix@ =~= file@.subrange(0, prefix@.len() as int));
    true
}

/// The name under which a namespace stores the event that its users call
/// `name`: the namespace, an underscore, the name.
pub open spec fn qualified(namespace: Seq<char>, name: Seq<char>) -> Seq<char> {
    namespace + seq!['_'] + name
}

/// One process's handle on a namespace.
pub struct Coordinator {
    mem_path: String,
}

impl Coordinator {
    /// The namespace, which is also the name of the region that holds the
    /// directory.
    pub closed spec fn path(&self) -> Seq<char> {
        self.mem_path@
    }

    /// A handle on the namespace `mem_path`.
    pub fn new(mem_path: &str) -> (coordinator: Coordinator)
        ensures
            coordinator.path() == mem_path@,
    {
        Coordinator { mem_path: mem_path.to_string() }
    }

    pub fn get_path(&self) -> (path: String)
        ensures
            path@ == self.path(),
    {
        self.mem_path.clone()
    }

    /// The name of the region that holds the directory lock.
    pub fn mutex_path(&self) -> (path: String)
        ensures
            path@ == self.path() + "_mutex"@,
    {
        let mut path = self.mem_path.clone();
        path.append("_mutex");
        path
    }

    /// The name under which this namespace stores the event `name`.
    pub fn qualified_name(&self, name: &str) -> (full: String)
        ensures
            full@ == qualified(self.path(), name@),
    {
        let mut full = self.mem_path.clone();
        proof {
            reveal_strlit("_");
            assert("_"@ =~= seq!['_']);
        }
        full.append("_");
        full.append(name);
        full
    }

    pub fn get_number_of_participants(&self, directory: &Directory) -> (count: u64)
        ensures
            count == directory.last_participant_id,
    {
        directory.last_participant_id
    }

    pub fn get_number_of_events(&self, directory: &Directory) -> (count: u64)
        ensures
            count == directory.last_event_id,
    {
        directory.last_event_id
    }

    /// Registers a participant under `name` and returns its identifier, the
    /// number of participants registered before it.
    ///
    /// Fails with `Full` when every slot is taken, else with `Duplicate` when
    /// a participant is stored under the text of `name`, else with
    /// `NameTooLong` when `name` has more bytes than the name field. A failure
    /// leaves the directory as it was. No two participants ever come to share
    /// a name.
    pub fn add_participant(&self, directory: &mut Directory, name: &str) -> (outcome: Result<
        u64,
        Error,
    >)
        requires
            old(directory).wf(),
        ensures
            outcome == old(directory).add_participant_outcome(encode_utf8(name@)),
            outcome is Ok ==> final(directory).registers(*old(directory), encode_utf8(name@)),
            outcome is Ok ==> final(directory)@ == (DirectoryView {
                participants: old(directory)@.participants.push(text(encode_utf8(name@))),
                ..old(directory)@
            }),
            outcome is Err ==> *final(directory) == *old(directory),
            final(directory).wf(),
            final(directory).extends(*old(directory)),
            old(directory).distinct_names() ==> final(directory).distinct_names(),
    {
        if directory.last_participant_id >= MAX_PARTICIPANTS as u64 {
            return Err(Error::Full);
        }
        if directory.find_participant(name).is_some() {
            return Err(Error::Duplicate);
        }
        let bytes = name.as_bytes();
        if bytes.len() > MAX_PARTICIPANT_NAME_SIZE {
            return Err(Error::NameTooLong);
        }
        let id = directory.last_participant_id;
        let mut participant = Participant::new();
        participant.id = id;
        participant.name = padded_field::<MAX_PARTICIPANT_NAME_SIZE>(bytes);
        directory.participants[id as usize] = participant;
        directory.last_participant_id = id + 1;
        proof {
            lemma_padded_valid_utf8(name@, MAX_PARTICIPANT_NAME_SIZE as nat);
            lemma_text_padded(encode_utf8(name@), MAX_PARTICIPANT_NAME_SIZE as nat);
            assert(directory@.participants =~= old(directory)@.participants.push(
                text(encode_utf8(name@)),
            ));
            assert(directory@.events =~= old(directory)@.events);
            assert(directory@.owners =~= old(directory)@.owners);
        }
        Ok(id)
    }

    /// Adds the event that this namespace's users call `name`, created by
    /// `participant_id`, and returns its record. The cell of the event is the
    /// region named by the record.
    ///
    /// Where an event is stored under the text of the qualified name already,
    /// its record is returned and nothing is added, so that no two events ever
    /// come to share a name. Else the call fails with `Full` when
    /// every slot is taken, else with `NameTooLong` when the qualified name
    /// has more bytes than the name field. A failure leaves the directory as
    /// it was.
    pub fn add_event(&self, directory: &mut Directory, participant_id: u64, name: &str) -> (outcome:
        Result<Event, Error>)
        requires
            old(directory).wf(),
        ensures
            final(directory).adds_event(
                *old(directory),
                encode_utf8(qualified(self.path(), name@)),
                participant_id,
                outcome,
            ),
            outcome is Ok && !old(directory).has_event(
                text(encode_utf8(qualified(self.path(), name@))),
            ) ==> final(directory)@ == (DirectoryView {
                events: old(directory)@.events.push(
                    text(encode_utf8(qualified(self.path(), name@))),
                ),
                owners: old(directory)@.owners.push(participant_id),
                ..old(directory)@
            }),
            final(directory).wf(),
            final(directory).extends(*old(directory)),
            old(directory).distinct_names() ==> final(directory).distinct_names(),
    {
        let full = self.qualified_name(name);
        match directory.find_event(full.as_str()) {
            Some(id) => {
                return Ok(directory.events[id as usize]);
            },
            None => {},
        }
        if directory.last_event_id >= MAX_EVENTS as u64 {
            return Err(Error::Full);
        }
        let bytes = full.as_str().as_bytes();
        if bytes.len() > MAX_EVENT_NAME_SIZE {
            return Err(Error::NameTooLong);
        }
        let id = directory.last_event_id;
        let mut event = Event::new();
        event.id = id;
        event.name = padded_field::<MAX_EVENT_NAME_SIZE>(bytes);
        directory.events[id as usize] = event;
        directory.events_owners[id as usize] = participant_id;
        directory.last_event_id = id + 1;
        proof {
            lemma_padded_valid_utf8(full@, MAX_EVENT_NAME_SIZE as nat);
            lemma_text_padded(encode_utf8(full@), MAX_EVENT_NAME_SIZE as nat);
            assert(directory@.events =~= old(directory)@.events.push(text(encode_utf8(full@))));
            assert(directory@.owners =~= old(directory)@.owners.push(participant_id));
            assert(directory@.participants =~= old(directory)@.participants);
        }
        Ok(event)
    }

    /// The record in slot `id` of the participant table, in use or not.
    pub fn get_participant(&self, directory: &Directory, id: u64) -> (participant: Option<
        Participant,
    >)
        ensures
            participant == directory.participant_at(id),
    {
        if id >= MAX_PARTICIPANTS as u64 {
            return None;
        }
        Some(directory.participants[id as usize])
    }

    /// The identifier of the event added last, if any was.
    pub fn get_last_event_id(&self, directory: &Directory) -> (last: Option<u64>)
        ensures
            directory.last_event_id == 0 ==> last is None,
            directory.last_event_id > 0 ==> last == Some((directory.last_event_id - 1) as u64),
    {
        let current_id = directory.last_event_id;
        if current_id == 0 {
            return None;
        }
        Some(current_id - 1)
    }

    /// The identifier of the participant registered last, if any was.
    pub fn get_last_participant_id(&self, directory: &Directory) -> (last: Option<u64>)
        ensures
            directory.last_participant_id == 0 ==> last is None,
            directory.last_participant_id > 0 ==> last == Some(
                (directory.last_participant_id - 1) as u64,
            ),
    {
        let current_id = directory.last_participant_id;
        if current_id == 0 {
            return None;
        }
        Some(current_id - 1)
    }

    /// The owner recorded in slot `event_id` of the event table, in use or not.
    pub fn get_participant_id_by_event_id(&self, directory: &Directory, event_id: u64) -> (owner:
        Option<u64>)
        ensures
            owner == directory.owner_at(event_id),
    {
        if event_id >= MAX_EVENTS as u64 {
            return None;
        }
        Some(directory.events_owners[event_id as usize])
    }

    /// The record of the built-in event `event_name` of this namespace: a
    /// record that stands in no directory and serves to name the event's cell.
    /// Fails with `NameTooLong` when the qualified name does not fit.
    pub fn builtin_event(&self, event_name: &str) -> (outcome: Result<Event, Error>)
        ensures
            ({
                let full = encode_utf8(qualified(self.path(), event_name@));
                &&& full.len() > MAX_EVENT_NAME_SIZE ==> outcome == Err::<Event, Error>(
                    Error::NameTooLong,
                )
                &&& full.len() <= MAX_EVENT_NAME_SIZE ==> (outcome matches Ok(event) && event.id
                    == 0 && event.name@ == padded(full, MAX_EVENT_NAME_SIZE as nat)
                    && event.name_bytes() == text(full) && event.wf())
            }),
    {
        let full = self.qualified_name(event_name);
        let mut event = Event::new();
        match event.set_name(full.as_str()) {
            Ok(_) => Ok(event),
            Err(e) => Err(e),
        }
    }

    /// Raises a built-in event, given its record and the cell that was opened
    /// for it: notifies every waiter on the cell. Fails with `NoWaitable` when
    /// there is no cell.
    pub fn notify_builtin(&self, event: &Event, region: Option<SharedFutex>) -> (outcome: Result<
        (),
        Error,
    >)
        ensures
            event.name_bytes().len() > 0 && region is Some ==> outcome == Ok::<(), Error>(()),
            event.name_bytes().len() == 0 || region is None ==> outcome == Err::<(), Error>(
                Error::NoWaitable,
            ),
    {
        match event.get_waitable(region) {
            Some(mut waitable) => {
                notify(&mut waitable);
                Ok(())
            },
            None => Err(Error::NoWaitable),
        }
    }

    /// The built-in event to raise once a registration has ended with
    /// `outcome`: `new_participant` after a success, none after a failure.
    pub fn raised_after_registration(outcome: &Result<u64, Error>) -> (raised: Option<
        &'static str,
    >)
        ensures
            outcome is Ok ==> raised == Some(BUILTIN_EVENT_NEW_PARTICIPANT),
            outcome is Err ==> raised is None,
    {
        match outcome {
            Ok(_) => Some(BUILTIN_EVENT_NEW_PARTICIPANT),
            Err(_) => None,
        }
    }

    /// The built-in event to raise once the addition of an event, the search
    /// for its cell included, has ended with `outcome`: `new_event` after
    /// every success, whether the event was appended or found, and none after
    /// a failure.
    pub fn raised_after_event<T>(outcome: &Result<T, Error>) -> (raised: Option<&'static str>)
        ensures
            outcome is Ok ==> raised == Some(BUILTIN_EVENT_NEW_EVENT),
            outcome is Err ==> raised is None,
    {
        match outcome {
            Ok(_) => Some(BUILTIN_EVENT_NEW_EVENT),
            Err(_) => None,
        }
    }
}

/// `after` is what an attempt to register `name` leaves of `before`.
pub open spec fn registration_step(before: Directory, after: Directory, name: Seq<u8>) -> bool {
    if before.add_participant_outcome(name) is Ok {
        after.registers(before, name)
    } else {
        after == before
    }
}

/// Step `i` of `trace` is the attempt to register `names[i]`.
pub open spec fn registration_at(trace: Seq<Directory>, names: Seq<Seq<u8>>, i: int) -> bool {
    registration_step(trace[i], trace[i + 1], names[i])
}

/// A name can be registered: it fits the name field.
pub open spec fn registrable(name: Seq<u8>) -> bool {
    name.len() <= MAX_PARTICIPANT_NAME_SIZE
}

/// A participant that was registered is read back in its slot, under the text
/// of its name, from every later state of the directory, whoever reads it.
/// Where the name holds no NUL character, that is the name itself.
pub proof fn lemma_registered_participant_is_read_back(
    earlier: Directory,
    directory: Directory,
    later: Directory,
    name: Seq<char>,
)
    requires
        directory.registers(earlier, encode_utf8(name)),
        encode_utf8(name).len() <= MAX_PARTICIPANT_NAME_SIZE,
        later.extends(directory),
    ensures
        later.participant_at(earlier.last_participant_id) matches Some(participant)
            && participant.id == earlier.last_participant_id && participant.wf()
            && participant.name_bytes() == text(encode_utf8(name)) && (nul_free_chars(name)
            ==> participant.name_chars() == name),
        later.has_participant(text(encode_utf8(name))),
{
    let id = earlier.last_participant_id as int;
    assert(later.participants@[id] == directory.participants@[id]);
    lemma_text_padded(encode_utf8(name), MAX_PARTICIPANT_NAME_SIZE as nat);
    lemma_padded_valid_utf8(name, MAX_PARTICIPANT_NAME_SIZE as nat);
    if nul_free_chars(name) {
        lemma_padded_round_trip(name, MAX_PARTICIPANT_NAME_SIZE as nat);
    }
}

/// A directory that is full refuses every registration with `Full`.
pub proof fn lemma_full_directory_refuses(directory: Directory, name: Seq<u8>)
    requires
        directory.last_participant_id == MAX_PARTICIPANTS,
    ensures
        directory.add_participant_outcome(name) == Err::<u64, Error>(Error::Full),
{
}

/// A name that was registered is taken from then on: registering it again is
/// refused with `Duplicate`, or with `Full` once the directory is full.
pub proof fn lemma_registered_name_is_taken(
    earlier: Directory,
    directory: Directory,
    later: Directory,
    name: Seq<u8>,
)
    requires
        directory.registers(earlier, name),
        registrable(name),
        later.extends(directory),
    ensures
        later.has_participant(text(name)),
        later.last_participant_id < MAX_PARTICIPANTS ==> later.add_participant_outcome(name)
            == Err::<u64, Error>(Error::Duplicate),
        later.last_participant_id >= MAX_PARTICIPANTS ==> later.add_participant_outcome(name)
            == Err::<u64, Error>(Error::Full),
{
    let id = earlier.last_participant_id as int;
    assert(later.participants@[id] == directory.participants@[id]);
    lemma_text_padded(name, MAX_PARTICIPANT_NAME_SIZE as nat);
    assert(later.participants@[id].name_bytes() == text(name));
}

/// A registration keeps the names of a directory distinct, whatever the name
/// and whatever the answer.
pub proof fn lemma_registration_keeps_names_distinct(
    before: Directory,
    after: Directory,
    name: Seq<u8>,
)
    requires
        before.distinct_names(),
        registration_step(before, after, name),
    ensures
        after.distinct_names(),
{
    if before.add_participant_outcome(name) is Ok {
        let id = before.last_participant_id as int;
        lemma_text_padded(name, MAX_PARTICIPANT_NAME_SIZE as nat);
        assert(after.participants@[id].name_bytes() == text(name));
        assert forall|i: int, j: int| 0 <= i < j < after.last_participant_id implies (
        #[trigger] after.participants@[i]).name_bytes() != (
        #[trigger] after.participants@[j]).name_bytes() by {
            assert(after.participants@[i] == before.participants@[i]);
            if j < id {
                assert(after.participants@[j] == before.participants@[j]);
            }
        }
    }
}

/// After `n` steps of a trace that starts from an empty directory and registers
/// names of distinct texts, the directory holds the first `n` texts, in order.
proof fn lemma_registration_prefix(trace: Seq<Directory>, names: Seq<Seq<u8>>, n: int)
    requires
        names.len() <= MAX_PARTICIPANTS,
        trace.len() == names.len() + 1,
        trace[0].last_participant_id == 0,
        forall|i: int| 0 <= i < names.len() ==> #[trigger] registration_at(trace, names, i),
        forall|i: int| 0 <= i < names.len() ==> registrable(#[trigger] names[i]),
        forall|i: int, j: int| 0 <= i < j < names.len() ==> text(names[i]) != text(names[j]),
        0 <= n <= names.len(),
    ensures
        trace[n].last_participant_id == n,
        forall|j: int|
            0 <= j < n ==> (#[trigger] trace[n].participants@[j]).name_bytes() == text(names[j]),
        forall|i: int|
            0 <= i < n ==> (#[trigger] trace[i]).add_participant_outcome(names[i]) == Ok::<
                u64,
                Error,
            >(i as u64),
    decreases n,
{
    if n > 0 {
        let m = n - 1;
        lemma_registration_prefix(trace, names, m);
        let before = trace[m];
        let after = trace[n];
        let name = names[m];
        assert(registration_at(trace, names, m));
        assert(registrable(name));
        assert(!before.has_participant(text(name))) by {
            if before.has_participant(text(name)) {
                let j = choose|j: int|
                    0 <= j < before.last_participant_id && (
                    #[trigger] before.participants@[j]).name_bytes() == text(name);
                assert(text(names[j]) != text(names[m]));
            }
        }
        assert(before.add_participant_outcome(name) == Ok::<u64, Error>(m as u64));
        assert(after.registers(before, name));
        lemma_text_padded(name, MAX_PARTICIPANT_NAME_SIZE as nat);
        assert forall|j: int| 0 <= j < n implies (#[trigger] after.participants@[j]).name_bytes()
            == text(names[j]) by {
            if j < m {
                assert(after.participants@[j] == before.participants@[j]);
            }
        }
    }
}

/// Registering up to `MAX_PARTICIPANTS` names of distinct texts in an empty
/// directory succeeds each time, hands out the identifiers 0, 1, 2, ... in the
/// order of the calls, and leaves as many participants as there were calls,
/// under the texts of the names given. Names without NUL are their own texts.
pub proof fn lemma_registrations_are_numbered(trace: Seq<Directory>, names: Seq<Seq<u8>>)
    requires
        names.len() <= MAX_PARTICIPANTS,
        trace.len() == names.len() + 1,
        trace[0].last_participant_id == 0,
        forall|i: int| 0 <= i < names.len() ==> #[trigger] registration_at(trace, names, i),
        forall|i: int| 0 <= i < names.len() ==> registrable(#[trigger] names[i]),
        forall|i: int, j: int| 0 <= i < j < names.len() ==> text(names[i]) != text(names[j]),
    ensures
        forall|i: int|
            0 <= i < names.len() ==> (#[trigger] trace[i]).add_participant_outcome(names[i])
                == Ok::<u64, Error>(i as u64),
        trace[names.len() as int].last_participant_id == names.len(),
        trace[names.len() as int]@.participants == Seq::new(
            names.len(),
            |i: int| text(names[i]),
        ),
{
    let n = names.len() as int;
    lemma_registration_prefix(trace, names, n);
    assert(trace[n]@.participants =~= Seq::new(names.len(), |i: int| text(names[i])));
}

/// An event that was added is found under the text of its qualified name from
/// then on: adding it again changes nothing, and answers with the record that
/// was stored first, so with the same cell each time.
pub proof fn lemma_event_is_added_once(
    before: Directory,
    after: Directory,
    later: Directory,
    name: Seq<u8>,
    owner: u64,
)
    requires
        !before.has_event(text(name)),
        after.appends_event(before, name, owner),
        name.len() <= MAX_EVENT_NAME_SIZE,
        later.extends(after),
    ensures
        later.has_event(text(name)),
        later.first_event(text(name), before.last_event_id as int),
        later.events@[before.last_event_id as int] == after.events@[before.last_event_id as int],
        later.event_names()[before.last_event_id as int] == text(name),
        later.events_owners@[before.last_event_id as int] == owner,
{
    let id = before.last_event_id as int;
    assert(later.events@[id] == after.events@[id]);
    assert(later.events_owners@[id] == after.events_owners@[id]);
    lemma_text_padded(name, MAX_EVENT_NAME_SIZE as nat);
    assert(later.events@[id].name_bytes() == text(name));
    assert forall|j: int| 0 <= j < id implies (#[trigger] later.events@[j]).name_bytes() != text(
        name,
    ) by {
        assert(later.events@[j] == after.events@[j]);
        assert(after.events@[j] == before.events@[j]);
    }
}

} // verus!

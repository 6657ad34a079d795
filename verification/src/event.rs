//! The event record.
use crate::error::Error;
use crate::name::{
    lemma_padded_round_trip, lemma_padded_valid_utf8, lemma_text, lemma_text_of_zeros,
    lemma_text_padded,
    nul_free_chars, padded, padded_field, text, text_is_utf8, text_length, text_string,
};
use crate::MAX_EVENT_NAME_SIZE;
use rufutex::rufutex::SharedFutex;
use vstd::prelude::*;
use vstd::utf8::*;

verus! {

/// A named event as the directory stores it: its identifier, and its
/// qualified name in a NUL-padded field.
#[derive(Debug, Clone, Copy)]
pub struct Event {
    pub id: u64,
    pub name: [u8; MAX_EVENT_NAME_SIZE],
}

impl Event {
    /// The bytes of the stored name.
    pub open spec fn name_bytes(&self) -> Seq<u8> {
        text(self.name@)
    }

    /// The stored name can be decoded.
    pub open spec fn wf(&self) -> bool {
        valid_utf8(self.name_bytes())
    }

    /// The stored name.
    pub open spec fn name_chars(&self) -> Seq<char> {
        decode_utf8(self.name_bytes())
    }

    /// The record with identifier 0 and no name.
    pub fn new() -> (event: Event)
        ensures
            event.id == 0,
            event.name@ == padded(Seq::<u8>::empty(), MAX_EVENT_NAME_SIZE as nat),
            event.name_bytes() == Seq::<u8>::empty(),
            event.name_chars() == Seq::<char>::empty(),
            event.wf(),
    {
        let event = Event { id: 0, name: [0; MAX_EVENT_NAME_SIZE] };
        proof {
            assert(event.name@ =~= padded(Seq::<u8>::empty(), MAX_EVENT_NAME_SIZE as nat));
            lemma_text_of_zeros(event.name@);
            assert(decode_utf8(Seq::<u8>::empty()) == Seq::<char>::empty());
        }
        event
    }

    /// Decodes the stored name.
    pub fn get_name(&self) -> (name: String)
        requires
            self.wf(),
        ensures
            name@ == self.name_chars(),
    {
        text_string(self.name.as_slice())
    }

    /// Tells whether the stored name can be decoded.
    pub fn has_valid_name(&self) -> (valid: bool)
        ensures
            valid == self.wf(),
    {
        text_is_utf8(self.name.as_slice())
    }

    pub fn get_id(&self) -> (id: u64)
        ensures
            id == self.id,
    {
        self.id
    }

    pub fn set_id(&mut self, id: u64)
        ensures
            final(self).id == id,
            final(self).name == old(self).name,
    {
        self.id = id;
    }

    /// Stores `name`, NUL-padded, in place of the name held before. A name of
    /// more bytes than the field has is refused, and the record is left as it
    /// was. A name without NUL characters is read back unchanged.
    pub fn set_name(&mut self, name: &str) -> (outcome: Result<(), Error>)
        ensures
            final(self).id == old(self).id,
            encode_utf8(name@).len() > MAX_EVENT_NAME_SIZE ==> outcome == Err::<(), Error>(
                Error::NameTooLong,
            ) && final(self).name == old(self).name,
            encode_utf8(name@).len() <= MAX_EVENT_NAME_SIZE ==> outcome == Ok::<(), Error>(())
                && final(self).name@ == padded(encode_utf8(name@), MAX_EVENT_NAME_SIZE as nat)
                && final(self).name_bytes() == text(encode_utf8(name@)) && final(self).wf(),
            encode_utf8(name@).len() <= MAX_EVENT_NAME_SIZE && nul_free_chars(name@)
                ==> final(self).name_chars() == name@,
    {
        let bytes = name.as_bytes();
        if bytes.len() > MAX_EVENT_NAME_SIZE {
            return Err(Error::NameTooLong);
        }
        self.name = padded_field::<MAX_EVENT_NAME_SIZE>(bytes);
        proof {
            lemma_text_padded(encode_utf8(name@), MAX_EVENT_NAME_SIZE as nat);
            lemma_padded_valid_utf8(name@, MAX_EVENT_NAME_SIZE as nat);
            if nul_free_chars(name@) {
                lemma_padded_round_trip(name@, MAX_EVENT_NAME_SIZE as nat);
            }
        }
        Ok(())
    }

    /// The cell of this event, given the region that was opened under the
    /// event's name: an event without a name has none, nor has one whose
    /// region could not be opened.
    pub fn get_waitable(&self, region: Option<SharedFutex>) -> (waitable: Option<SharedFutex>)
        ensures
            waitable is Some <==> self.name_bytes().len() > 0 && region is Some,
            waitable is Some ==> waitable == region,
    {
        proof {
            lemma_text(self.name@);
        }
        if text_length(self.name.as_slice()) == 0 {
            None
        } else {
            region
        }
    }
}

} // verus!

//! A device that holds every message back for a while.
//!
//! Waiting is not the device's own work: it answers at once, with no output,
//! and notes what is to be sent when. Whoever runs the graph takes the notes,
//! waits, and dispatches each message as one that the device sends of its own
//! accord.
use vstd::prelude::*;
use crate::device::{Datum, Device, DeviceError, Record};
use crate::globals::WILDCARD;
use crate::hub::{EnvelopeView, MidiEvent};
use crate::text::same_text;

verus! {

pub const CLASS_DELAY: &'static str = "delay";

/// Key of the property under which a delay keeps its length.
pub const KEY_DELAY: &'static str = "delay";

/// The length of a new delay, in milliseconds.
pub const DEFAULT_DELAY: u64 = 1000;

/// A message that is to be dispatched once `delay` milliseconds have passed.
#[derive(Debug)]
pub struct Deferred {
    pub delay: u64,
    pub message: MidiEvent,
}

/// A deferred message as a mathematical value.
pub struct DeferredView {
    pub delay: u64,
    pub message: EnvelopeView,
}

impl View for Deferred {
    type V = DeferredView;

    open spec fn view(&self) -> DeferredView {
        DeferredView { delay: self.delay, message: self.message@ }
    }
}

impl DeepView for Deferred {
    type V = DeferredView;

    open spec fn deep_view(&self) -> DeferredView {
        self@
    }
}

/// What a delay of the given id and length notes for a message: the same
/// bytes, sent by the delay itself to every destination, on the wildcard
/// ports, at time 0.
pub open spec fn deferred_spec(id: Seq<char>, delay: u64, bytes: Seq<u8>) -> DeferredView {
    DeferredView {
        delay,
        message: EnvelopeView {
            ts: 0,
            from: id,
            to: WILDCARD@,
            from_port: WILDCARD@,
            to_port: WILDCARD@,
            bytes,
        },
    }
}

/// A device that sends every message on after a fixed time.
#[derive(Debug)]
pub struct Delay {
    pub id: String,
    pub class: String,
    pub delay: u64,
    pub deferred: Vec<Deferred>,
}

impl Delay {
    /// A delay of one second with nothing noted.
    pub fn new(id: &str) -> (delay: Self)
        ensures
            delay.id@ == id@,
            delay.class@ == CLASS_DELAY@,
            delay.delay == DEFAULT_DELAY,
            delay.deferred@.len() == 0,
    {
        Delay {
            id: id.to_owned(),
            class: CLASS_DELAY.to_owned(),
            delay: DEFAULT_DELAY,
            deferred: Vec::new(),
        }
    }

    /// Hands out what was noted since the last call, oldest first, and
    /// forgets it.
    pub fn take_deferred(&mut self) -> (noted: Vec<Deferred>)
        ensures
            noted == old(self).deferred,
            final(self).deferred@.len() == 0,
            final(self).id == old(self).id,
            final(self).class == old(self).class,
            final(self).delay == old(self).delay,
    {
        let mut noted: Vec<Deferred> = Vec::new();
        std::mem::swap(&mut self.deferred, &mut noted);
        noted
    }
}

impl Device for Delay {
    fn get_id(&self) -> (id: &str)
        ensures
            id@ == self.id@,
    {
        self.id.as_str()
    }

    fn get_class(&self) -> (class: &str)
        ensures
            class@ == self.class@,
    {
        self.class.as_str()
    }

    /// Changes nothing: what was noted stays noted.
    fn destroy(&mut self)
        ensures
            *final(self) == *old(self),
    {
    }

    fn serialize(&self) -> (record: Result<Record, DeviceError>)
        ensures
            record matches Ok(r) && r.id@ == self.id@ && r.class@ == self.class@ && r.fields@.len()
                == 1 && r.fields@[0].0@ == KEY_DELAY@ && r.fields@[0].1 == Datum::Unsigned(
                self.delay,
            ),
    {
        let mut fields: Vec<(String, Datum)> = Vec::new();
        fields.push((KEY_DELAY.to_owned(), Datum::Unsigned(self.delay)));
        Ok(Record { id: self.id.clone(), class: self.class.clone(), fields })
    }

    fn init(&mut self) -> (done: Result<(), DeviceError>)
        ensures
            done is Ok,
            *final(self) == *old(self),
    {
        Ok(())
    }

    fn get_data(&mut self, key: String) -> (data: Result<Option<Datum>, String>)
        ensures
            data == Ok::<Option<Datum>, String>(None),
            *final(self) == *old(self),
    {
        Ok(None)
    }

    /// Sets the length where the key is `delay` and the value is an integer
    /// that is not negative; refuses any other value under that key; ignores
    /// every other key.
    fn set_data(&mut self, key: String, data: Datum) -> (done: Result<(), String>)
        ensures
            final(self).id == old(self).id,
            final(self).class == old(self).class,
            final(self).deferred == old(self).deferred,
            key@ != KEY_DELAY@ ==> done is Ok && final(self).delay == old(self).delay,
            key@ == KEY_DELAY@ ==> match data {
                Datum::Unsigned(n) => done is Ok && final(self).delay == n,
                Datum::Signed(n) if n >= 0 => done is Ok && final(self).delay == n,
                _ => done is Err && final(self).delay == old(self).delay,
            },
    {
        if !same_text(key.as_str(), KEY_DELAY) {
            return Ok(());
        }
        match data {
            Datum::Unsigned(n) => {
                self.delay = n;
                Ok(())
            },
            Datum::Signed(n) => {
                if n >= 0 {
                    self.delay = n as u64;
                    Ok(())
                } else {
                    Err("Failed to read delay".to_owned())
                }
            },
            _ => Err("Failed to read delay".to_owned()),
        }
    }

    fn delete_data(&mut self, key: String) -> (done: Result<(), String>)
        ensures
            done is Ok,
            *final(self) == *old(self),
    {
        Ok(())
    }

    /// Emits nothing and notes the message, to be sent on by the device
    /// itself when its time has passed.
    fn process(
        &mut self,
        bytes: &Vec<u8>,
        from: &str,
        to: &str,
        from_port: &str,
        to_port: &str,
    ) -> (out: Vec<(String, Vec<u8>)>)
        ensures
            out@.len() == 0,
            final(self).deferred.deep_view() == old(self).deferred.deep_view().push(
                deferred_spec(old(self).id@, old(self).delay, bytes@),
            ),
            final(self).id == old(self).id,
            final(self).class == old(self).class,
            final(self).delay == old(self).delay,
    {
        let message = MidiEvent::new(0, bytes, self.id.as_str(), WILDCARD, WILDCARD, WILDCARD);
        self.deferred.push(Deferred { delay: self.delay, message });
        assert(self.deferred.deep_view() =~= old(self).deferred.deep_view().push(
            deferred_spec(old(self).id@, old(self).delay, bytes@),
        ));
        Vec::new()
    }
}

} // verus!

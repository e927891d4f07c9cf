//! A device that sorts messages by what they are: every message leaves on the
//! wildcard port, on the port of its kind and, where it has a channel, on the
//! port of that channel.
use vstd::prelude::*;
use crate::device::{output, Datum, Device, DeviceError, Record};
use crate::globals::{
    PORT_AFTERTOUCH, PORT_CC, PORT_CHANNEL_AT, PORT_COMMON, PORT_CONTINUE, PORT_NOTE_OFF,
    PORT_NOTE_ON, PORT_PITCH, PORT_PROGRAM, PORT_REALTIME, PORT_START, PORT_STOP, PORT_SYSEX,
    PORT_UNKNOWN, WILDCARD,
};
use crate::parser::{
    parse_buffer_spec, parse_events, parse_events_spec, EventView, MidiKind, MidiMessage,
    NO_CHANNEL,
};
use crate::text::{decimal, decimal_spec, same_text};

verus! {

pub const CLASS_SPLITTER: &'static str = "split";

/// The SysEx message that one source is in the middle of sending.
#[derive(Debug)]
pub struct SysexBuffer {
    pub from: String,
    pub from_port: String,
    pub bytes: Vec<u8>,
}

impl SysexBuffer {
    /// Whether the buffer belongs to the given source.
    pub open spec fn is_for(&self, from: Seq<char>, from_port: Seq<char>) -> bool {
        self.from@ == from && self.from_port@ == from_port
    }
}

/// Whether `i` is the place of the first buffer of the given source.
pub open spec fn is_slot(
    buffers: Seq<SysexBuffer>,
    from: Seq<char>,
    from_port: Seq<char>,
    i: int,
) -> bool {
    &&& 0 <= i < buffers.len()
    &&& buffers[i].is_for(from, from_port)
    &&& forall|j: int| 0 <= j < i ==> !(#[trigger] buffers[j]).is_for(from, from_port)
}

/// Whether the given source has a buffer.
pub open spec fn has_slot(buffers: Seq<SysexBuffer>, from: Seq<char>, from_port: Seq<char>) -> bool {
    exists|i: int| is_slot(buffers, from, from_port, i)
}

/// What the given source has sent of a SysEx message that is not complete
/// yet: the content of its first buffer, nothing where it has none.
pub open spec fn pending_sysex(
    buffers: Seq<SysexBuffer>,
    from: Seq<char>,
    from_port: Seq<char>,
) -> Seq<u8> {
    if has_slot(buffers, from, from_port) {
        buffers[choose|i: int| is_slot(buffers, from, from_port, i)].bytes@
    } else {
        Seq::empty()
    }
}

/// A source has at most one first buffer.
pub proof fn lemma_slot_unique(
    buffers: Seq<SysexBuffer>,
    from: Seq<char>,
    from_port: Seq<char>,
    i: int,
)
    requires
        is_slot(buffers, from, from_port, i),
    ensures
        has_slot(buffers, from, from_port),
        pending_sysex(buffers, from, from_port) == buffers[i].bytes@,
{
    let k = choose|k: int| is_slot(buffers, from, from_port, k);
    assert(k == i) by {
        if k < i {
            assert(!buffers[k].is_for(from, from_port));
        }
        if i < k {
            assert(!buffers[i].is_for(from, from_port));
        }
    }
}

/// The port on which events of a kind leave.
pub open spec fn kind_port_spec(kind: MidiKind) -> Seq<char> {
    match kind {
        MidiKind::NoteOff => PORT_NOTE_OFF@,
        MidiKind::NoteOn => PORT_NOTE_ON@,
        MidiKind::Aftertouch => PORT_AFTERTOUCH@,
        MidiKind::ChannelAftertouch => PORT_CHANNEL_AT@,
        MidiKind::ControlChange => PORT_CC@,
        MidiKind::ProgramChange => PORT_PROGRAM@,
        MidiKind::PitchBend => PORT_PITCH@,
        MidiKind::Sysex => PORT_SYSEX@,
        MidiKind::TimeCode => PORT_COMMON@,
        MidiKind::SongPosition => PORT_COMMON@,
        MidiKind::SongSelect => PORT_COMMON@,
        MidiKind::TuneRequest => PORT_COMMON@,
        MidiKind::Clock => PORT_REALTIME@,
        MidiKind::Start => PORT_REALTIME@,
        MidiKind::Continue => PORT_REALTIME@,
        MidiKind::Stop => PORT_REALTIME@,
        MidiKind::ActiveSensing => PORT_REALTIME@,
        MidiKind::Reset => PORT_REALTIME@,
        MidiKind::SysexEnd => PORT_UNKNOWN@,
        MidiKind::Invalid => PORT_UNKNOWN@,
        MidiKind::Unknown => PORT_UNKNOWN@,
    }
}

/// The port of their own on which start, continue and stop leave as well.
pub open spec fn transport_port_spec(kind: MidiKind) -> Option<Seq<char>> {
    match kind {
        MidiKind::Start => Some(PORT_START@),
        MidiKind::Continue => Some(PORT_CONTINUE@),
        MidiKind::Stop => Some(PORT_STOP@),
        _ => None,
    }
}

/// The name of the port of a channel: the channel's number, counted from 1.
pub open spec fn channel_port_spec(channel: u8) -> Seq<char> {
    decimal_spec((channel + 1) as nat)
}

/// The outputs for one event: on the wildcard port, on the port of its kind,
/// on the transport port where it has one, and on the port of its channel
/// where it has one.
pub open spec fn event_outputs(event: EventView) -> Seq<(Seq<char>, Seq<u8>)> {
    let general = seq![(WILDCARD@, event.bytes), (kind_port_spec(event.kind), event.bytes)];
    let transport = match transport_port_spec(event.kind) {
        Some(port) => seq![(port, event.bytes)],
        None => Seq::empty(),
    };
    let channel = if event.channel != NO_CHANNEL {
        seq![(channel_port_spec(event.channel), event.bytes)]
    } else {
        Seq::empty()
    };
    general + transport + channel
}

/// The outputs for a list of events, event by event.
pub open spec fn events_outputs(events: Seq<EventView>) -> Seq<(Seq<char>, Seq<u8>)>
    decreases events.len(),
{
    if events.len() == 0 {
        Seq::empty()
    } else {
        events_outputs(events.drop_last()) + event_outputs(events.last())
    }
}

/// What a splitter emits for a packet, given what the packet's source has
/// sent of an incomplete SysEx message.
pub open spec fn splitter_spec(pending: Seq<u8>, bytes: Seq<u8>) -> Seq<(Seq<char>, Seq<u8>)> {
    events_outputs(parse_events_spec(bytes, pending))
}

/// The port on which events of a kind leave.
pub fn kind_port(kind: MidiKind) -> (port: &'static str)
    ensures
        port@ == kind_port_spec(kind),
{
    match kind {
        MidiKind::NoteOff => PORT_NOTE_OFF,
        MidiKind::NoteOn => PORT_NOTE_ON,
        MidiKind::Aftertouch => PORT_AFTERTOUCH,
        MidiKind::ChannelAftertouch => PORT_CHANNEL_AT,
        MidiKind::ControlChange => PORT_CC,
        MidiKind::ProgramChange => PORT_PROGRAM,
        MidiKind::PitchBend => PORT_PITCH,
        MidiKind::Sysex => PORT_SYSEX,
        MidiKind::TimeCode => PORT_COMMON,
        MidiKind::SongPosition => PORT_COMMON,
        MidiKind::SongSelect => PORT_COMMON,
        MidiKind::TuneRequest => PORT_COMMON,
        MidiKind::Clock => PORT_REALTIME,
        MidiKind::Start => PORT_REALTIME,
        MidiKind::Continue => PORT_REALTIME,
        MidiKind::Stop => PORT_REALTIME,
        MidiKind::ActiveSensing => PORT_REALTIME,
        MidiKind::Reset => PORT_REALTIME,
        MidiKind::SysexEnd => PORT_UNKNOWN,
        MidiKind::Invalid => PORT_UNKNOWN,
        MidiKind::Unknown => PORT_UNKNOWN,
    }
}

/// The port of their own on which start, continue and stop leave as well.
pub fn transport_port(kind: MidiKind) -> (port: Option<&'static str>)
    ensures
        match port {
            Some(p) => transport_port_spec(kind) == Some(p@),
            None => transport_port_spec(kind) is None,
        },
{
    match kind {
        MidiKind::Start => Some(PORT_START),
        MidiKind::Continue => Some(PORT_CONTINUE),
        MidiKind::Stop => Some(PORT_STOP),
        _ => None,
    }
}

/// Appends the outputs for one event to `out`.
pub fn push_event_outputs(out: &mut Vec<(String, Vec<u8>)>, event: &MidiMessage)
    ensures
        final(out).deep_view() == old(out).deep_view() + event_outputs(event@),
{
    let ghost before = out.deep_view();
    let ghost general = seq![(WILDCARD@, event.bytes@), (kind_port_spec(event.kind), event.bytes@)];
    out.push(output(WILDCARD, event.bytes.clone()));
    out.push(output(kind_port(event.kind), event.bytes.clone()));
    assert(out.deep_view() =~= before + general);
    let ghost transport = match transport_port_spec(event.kind) {
        Some(port) => seq![(port, event.bytes@)],
        None => Seq::empty(),
    };
    match transport_port(event.kind) {
        Some(port) => {
            out.push(output(port, event.bytes.clone()));
        },
        None => {},
    }
    assert(out.deep_view() =~= before + general + transport);
    if event.channel != NO_CHANNEL {
        out.push(output(decimal(event.channel as u16 + 1).as_str(), event.bytes.clone()));
    }
    assert(out.deep_view() =~= before + event_outputs(event@));
}

/// A device that classifies each packet and emits it once for each port that
/// its classification names. It reassembles SysEx messages for each source
/// apart.
#[derive(Debug)]
pub struct Splitter {
    pub id: String,
    pub class: String,
    pub sysex: Vec<SysexBuffer>,
}

impl Splitter {
    pub fn new(id: &str) -> (splitter: Self)
        ensures
            splitter.id@ == id@,
            splitter.class@ == CLASS_SPLITTER@,
            splitter.sysex@.len() == 0,
    {
        Splitter { id: id.to_owned(), class: CLASS_SPLITTER.to_owned(), sysex: Vec::new() }
    }

    /// What the given source has sent of a SysEx message that is not complete
    /// yet.
    pub open spec fn pending(&self, from: Seq<char>, from_port: Seq<char>) -> Seq<u8> {
        pending_sysex(self.sysex@, from, from_port)
    }

    /// The place of the buffer of a source, which is added where the source
    /// has none yet.
    fn slot(&mut self, from: &str, from_port: &str) -> (i: usize)
        ensures
            final(self).id == old(self).id,
            final(self).class == old(self).class,
            is_slot(final(self).sysex@, from@, from_port@, i as int),
            final(self).sysex@[i as int].bytes@ == old(self).pending(from@, from_port@),
            final(self).sysex@.len() >= old(self).sysex@.len(),
            forall|j: int|
                0 <= j < old(self).sysex@.len() ==> final(self).sysex@[j] == old(self).sysex@[j],
            forall|f: Seq<char>, p: Seq<char>|
                !(f == from@ && p == from_port@) ==> #[trigger] final(self).pending(f, p) == old(self).pending(f, p),
    {
        let n = self.sysex.len();
        let mut i: usize = 0;
        while i < n
            invariant
                n == self.sysex@.len(),
                i <= n,
                *self == *old(self),
                forall|j: int| 0 <= j < i ==> !(#[trigger] self.sysex@[j]).is_for(from@, from_port@),
            decreases n - i,
        {
            if same_text(self.sysex[i].from.as_str(), from) && same_text(
                self.sysex[i].from_port.as_str(),
                from_port,
            ) {
                proof {
                    lemma_slot_unique(self.sysex@, from@, from_port@, i as int);
                }
                return i;
            }
            i += 1;
        }
        assert(!has_slot(self.sysex@, from@, from_port@));
        self.sysex.push(
            SysexBuffer { from: from.to_owned(), from_port: from_port.to_owned(), bytes: Vec::new() },
        );
        proof {
            lemma_slot_unique(self.sysex@, from@, from_port@, n as int);
            assert forall|f: Seq<char>, p: Seq<char>| !(f == from@ && p == from_port@) implies (
            #[trigger] self.pending(f, p)) == old(self).pending(f, p) by {
                lemma_pending_unchanged(old(self).sysex@, self.sysex@, n as int, f, p);
            }
        }
        n
    }
}

/// The buffers of all other sources are as they were when the buffers of one
/// source change or a buffer of that source is added at the end.
pub proof fn lemma_pending_unchanged(
    before: Seq<SysexBuffer>,
    after: Seq<SysexBuffer>,
    at: int,
    from: Seq<char>,
    from_port: Seq<char>,
)
    requires
        0 <= at < after.len(),
        before.len() == after.len() || (before.len() == at && after.len() == at + 1),
        !after[at].is_for(from, from_port),
        at < before.len() ==> before[at].from == after[at].from && before[at].from_port
            == after[at].from_port,
        forall|j: int| 0 <= j < before.len() && j != at ==> before[j] == after[j],
    ensures
        pending_sysex(after, from, from_port) == pending_sysex(before, from, from_port),
{
    if has_slot(before, from, from_port) {
        let i = choose|i: int| is_slot(before, from, from_port, i);
        assert(i != at);
        assert(is_slot(after, from, from_port, i)) by {
            assert forall|j: int| 0 <= j < i implies !(#[trigger] after[j]).is_for(
                from,
                from_port,
            ) by {
                assert(!before[j].is_for(from, from_port));
            }
        }
        lemma_slot_unique(after, from, from_port, i);
    } else if has_slot(after, from, from_port) {
        let i = choose|i: int| is_slot(after, from, from_port, i);
        assert(i != at);
        assert(is_slot(before, from, from_port, i)) by {
            assert forall|j: int| 0 <= j < i implies !(#[trigger] before[j]).is_for(
                from,
                from_port,
            ) by {
                assert(!after[j].is_for(from, from_port));
            }
        }
    }
}

impl Device for Splitter {
    fn get_id(&self) -> (id: &str)
        ensures
            id@ == self.id@,
    {
        self.id.as_str()
    }

    fn get_class(&self) -> (class: &str)
        ensures
            class@ == self.class@,
    {
        self.class.as_str()
    }

    fn destroy(&mut self)
        ensures
            *final(self) == *old(self),
    {
    }

    fn serialize(&self) -> (record: Result<Record, DeviceError>)
        ensures
            record matches Ok(r) && r.id@ == self.id@ && r.class@ == self.class@ && r.fields@.len()
                == 0,
    {
        Ok(Record { id: self.id.clone(), class: self.class.clone(), fields: Vec::new() })
    }

    fn init(&mut self) -> (done: Result<(), DeviceError>)
        ensures
            done is Ok,
            *final(self) == *old(self),
    {
        Ok(())
    }

    fn get_data(&mut self, key: String) -> (data: Result<Option<Datum>, String>)
        ensures
            data == Ok::<Option<Datum>, String>(None),
            *final(self) == *old(self),
    {
        Ok(None)
    }

    fn set_data(&mut self, key: String, data: Datum) -> (done: Result<(), String>)
        ensures
            done is Ok,
            *final(self) == *old(self),
    {
        Ok(())
    }

    fn delete_data(&mut self, key: String) -> (done: Result<(), String>)
        ensures
            done is Ok,
            *final(self) == *old(self),
    {
        Ok(())
    }

    /// Classifies the packet against the SysEx buffer of its source, which is
    /// the pair of `from` and `from_port`, and emits every event on each of
    /// its ports. Only the buffer of that source changes.
    fn process(
        &mut self,
        bytes: &Vec<u8>,
        from: &str,
        to: &str,
        from_port: &str,
        to_port: &str,
    ) -> (out: Vec<(String, Vec<u8>)>)
        ensures
            out.deep_view() == splitter_spec(old(self).pending(from@, from_port@), bytes@),
            final(self).pending(from@, from_port@) == parse_buffer_spec(
                bytes@,
                old(self).pending(from@, from_port@),
            ),
            forall|f: Seq<char>, p: Seq<char>|
                !(f == from@ && p == from_port@) ==> #[trigger] final(self).pending(f, p) == old(self).pending(f, p),
            final(self).id == old(self).id,
            final(self).class == old(self).class,
    {
        let i = self.slot(from, from_port);
        let ghost middle = *self;
        let ghost pending = old(self).pending(from@, from_port@);
        let events = parse_events(bytes, &mut self.sysex[i].bytes);
        proof {
            lemma_slot_unique(self.sysex@, from@, from_port@, i as int);
            assert forall|f: Seq<char>, p: Seq<char>| !(f == from@ && p == from_port@) implies (
            #[trigger] self.pending(f, p)) == old(self).pending(f, p) by {
                assert(middle.pending(f, p) == old(self).pending(f, p));
                lemma_pending_unchanged(middle.sysex@, self.sysex@, i as int, f, p);
            }
        }
        let ghost expected = parse_events_spec(bytes@, pending);
        let mut out: Vec<(String, Vec<u8>)> = Vec::new();
        let n = events.len();
        let mut k: usize = 0;
        assert(expected.take(0) =~= Seq::<EventView>::empty());
        while k < n
            invariant
                n == events@.len(),
                k <= n,
                events.deep_view() == expected,
                out.deep_view() == events_outputs(expected.take(k as int)),
            decreases n - k,
        {
            assert(expected[k as int] == events@[k as int]@);
            assert(expected.take(k + 1).drop_last() =~= expected.take(k as int));
            push_event_outputs(&mut out, &events[k]);
            k += 1;
        }
        assert(expected.take(n as int) =~= expected);
        out
    }
}

} // verus!

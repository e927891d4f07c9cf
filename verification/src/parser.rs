//! Classification of raw MIDI packets.
//!
//! A packet is one delivery from a source: a complete channel message, a
//! system message, or a fragment of a system-exclusive (SysEx) message.
//! SysEx fragments are reassembled in a buffer that the caller keeps for each
//! source; everything else is classified from its status byte alone.
use vstd::prelude::*;

verus! {

pub const MIDI_NOTE_OFF: &'static str = "Note Off";

pub const MIDI_NOTE_ON: &'static str = "Note On";

pub const MIDI_AFTERTOUCH: &'static str = "Aftertouch";

pub const MIDI_CC: &'static str = "CC";

pub const MIDI_PROG_CHNG: &'static str = "Program";

pub const MIDI_CHANNEL_AT: &'static str = "Channel AT";

pub const MIDI_PITCH: &'static str = "Pitch";

pub const MIDI_EXT_SYSEX: &'static str = "Sysex";

pub const MIDI_EXT_MTC: &'static str = "MTC";

pub const MIDI_EXT_POSITION: &'static str = "Position";

pub const MIDI_EXT_SELECT: &'static str = "Select";

pub const MIDI_EXT_TUNE: &'static str = "Tune";

pub const MIDI_EXT_SYSEXEND: &'static str = "SysexEnd";

pub const MIDI_EXT_CLOCK: &'static str = "Clock";

pub const MIDI_EXT_START: &'static str = "Start";

pub const MIDI_EXT_CONTINUE: &'static str = "Continue";

pub const MIDI_EXT_STOP: &'static str = "Stop";

pub const MIDI_EXT_ACTIVE_SNS: &'static str = "Active Sns";

pub const MIDI_EXT_RESET: &'static str = "Rese";

pub const MIDI_INVALID: &'static str = "Invalid";

pub const MIDI_UNKNOWN: &'static str = "Unknown";

/// Channel value carried by events that belong to no channel.
pub const NO_CHANNEL: u8 = 0xFF;

/// Status byte that opens a SysEx message.
pub const SYSEX_START: u8 = 0xF0;

/// Status byte that closes a SysEx message.
pub const SYSEX_END: u8 = 0xF7;

/// What a packet was classified as.
#[derive(Clone, Copy, Debug, PartialEq, Eq, Structural)]
pub enum MidiKind {
    NoteOff,
    NoteOn,
    Aftertouch,
    ControlChange,
    ProgramChange,
    ChannelAftertouch,
    PitchBend,
    Sysex,
    TimeCode,
    SongPosition,
    SongSelect,
    TuneRequest,
    SysexEnd,
    Clock,
    Start,
    Continue,
    Stop,
    ActiveSensing,
    Reset,
    Invalid,
    Unknown,
}

impl MidiKind {
    /// The display name of the kind.
    pub open spec fn name_spec(self) -> Seq<char> {
        match self {
            MidiKind::NoteOff => MIDI_NOTE_OFF@,
            MidiKind::NoteOn => MIDI_NOTE_ON@,
            MidiKind::Aftertouch => MIDI_AFTERTOUCH@,
            MidiKind::ControlChange => MIDI_CC@,
            MidiKind::ProgramChange => MIDI_PROG_CHNG@,
            MidiKind::ChannelAftertouch => MIDI_CHANNEL_AT@,
            MidiKind::PitchBend => MIDI_PITCH@,
            MidiKind::Sysex => MIDI_EXT_SYSEX@,
            MidiKind::TimeCode => MIDI_EXT_MTC@,
            MidiKind::SongPosition => MIDI_EXT_POSITION@,
            MidiKind::SongSelect => MIDI_EXT_SELECT@,
            MidiKind::TuneRequest => MIDI_EXT_TUNE@,
            MidiKind::SysexEnd => MIDI_EXT_SYSEXEND@,
            MidiKind::Clock => MIDI_EXT_CLOCK@,
            MidiKind::Start => MIDI_EXT_START@,
            MidiKind::Continue => MIDI_EXT_CONTINUE@,
            MidiKind::Stop => MIDI_EXT_STOP@,
            MidiKind::ActiveSensing => MIDI_EXT_ACTIVE_SNS@,
            MidiKind::Reset => MIDI_EXT_RESET@,
            MidiKind::Invalid => MIDI_INVALID@,
            MidiKind::Unknown => MIDI_UNKNOWN@,
        }
    }

    /// The display name of the kind.
    pub fn name(self) -> (name: &'static str)
        ensures
            name@ == self.name_spec(),
    {
        match self {
            MidiKind::NoteOff => MIDI_NOTE_OFF,
            MidiKind::NoteOn => MIDI_NOTE_ON,
            MidiKind::Aftertouch => MIDI_AFTERTOUCH,
            MidiKind::ControlChange => MIDI_CC,
            MidiKind::ProgramChange => MIDI_PROG_CHNG,
            MidiKind::ChannelAftertouch => MIDI_CHANNEL_AT,
            MidiKind::PitchBend => MIDI_PITCH,
            MidiKind::Sysex => MIDI_EXT_SYSEX,
            MidiKind::TimeCode => MIDI_EXT_MTC,
            MidiKind::SongPosition => MIDI_EXT_POSITION,
            MidiKind::SongSelect => MIDI_EXT_SELECT,
            MidiKind::TuneRequest => MIDI_EXT_TUNE,
            MidiKind::SysexEnd => MIDI_EXT_SYSEXEND,
            MidiKind::Clock => MIDI_EXT_CLOCK,
            MidiKind::Start => MIDI_EXT_START,
            MidiKind::Continue => MIDI_EXT_CONTINUE,
            MidiKind::Stop => MIDI_EXT_STOP,
            MidiKind::ActiveSensing => MIDI_EXT_ACTIVE_SNS,
            MidiKind::Reset => MIDI_EXT_RESET,
            MidiKind::Invalid => MIDI_INVALID,
            MidiKind::Unknown => MIDI_UNKNOWN,
        }
    }
}

/// The kind named by a system status byte (`0xF0` and above), if it has one.
pub open spec fn system_kind_spec(status: u8) -> Option<MidiKind> {
    if status == 0xF0 {
        Some(MidiKind::Sysex)
    } else if status == 0xF1 {
        Some(MidiKind::TimeCode)
    } else if status == 0xF2 {
        Some(MidiKind::SongPosition)
    } else if status == 0xF3 {
        Some(MidiKind::SongSelect)
    } else if status == 0xF6 {
        Some(MidiKind::TuneRequest)
    } else if status == 0xF7 {
        Some(MidiKind::SysexEnd)
    } else if status == 0xF8 {
        Some(MidiKind::Clock)
    } else if status == 0xFA {
        Some(MidiKind::Start)
    } else if status == 0xFB {
        Some(MidiKind::Continue)
    } else if status == 0xFC {
        Some(MidiKind::Stop)
    } else if status == 0xFE {
        Some(MidiKind::ActiveSensing)
    } else if status == 0xFF {
        Some(MidiKind::Reset)
    } else {
        None
    }
}

/// The kind named by the high nibble of a channel status byte, if it has one.
pub open spec fn voice_kind_spec(nibble: u8) -> Option<MidiKind> {
    if nibble == 0x8 {
        Some(MidiKind::NoteOff)
    } else if nibble == 0x9 {
        Some(MidiKind::NoteOn)
    } else if nibble == 0xA {
        Some(MidiKind::Aftertouch)
    } else if nibble == 0xB {
        Some(MidiKind::ControlChange)
    } else if nibble == 0xC {
        Some(MidiKind::ProgramChange)
    } else if nibble == 0xD {
        Some(MidiKind::ChannelAftertouch)
    } else if nibble == 0xE {
        Some(MidiKind::PitchBend)
    } else {
        None
    }
}

/// Looks a system status byte up in the table of system messages.
pub fn system_kind(status: u8) -> (kind: Option<MidiKind>)
    ensures
        kind == system_kind_spec(status),
{
    if status == 0xF0 {
        Some(MidiKind::Sysex)
    } else if status == 0xF1 {
        Some(MidiKind::TimeCode)
    } else if status == 0xF2 {
        Some(MidiKind::SongPosition)
    } else if status == 0xF3 {
        Some(MidiKind::SongSelect)
    } else if status == 0xF6 {
        Some(MidiKind::TuneRequest)
    } else if status == 0xF7 {
        Some(MidiKind::SysexEnd)
    } else if status == 0xF8 {
        Some(MidiKind::Clock)
    } else if status == 0xFA {
        Some(MidiKind::Start)
    } else if status == 0xFB {
        Some(MidiKind::Continue)
    } else if status == 0xFC {
        Some(MidiKind::Stop)
    } else if status == 0xFE {
        Some(MidiKind::ActiveSensing)
    } else if status == 0xFF {
        Some(MidiKind::Reset)
    } else {
        None
    }
}

/// Looks the high nibble of a channel status byte up in the table of channel
/// messages.
pub fn voice_kind(nibble: u8) -> (kind: Option<MidiKind>)
    ensures
        kind == voice_kind_spec(nibble),
{
    if nibble == 0x8 {
        Some(MidiKind::NoteOff)
    } else if nibble == 0x9 {
        Some(MidiKind::NoteOn)
    } else if nibble == 0xA {
        Some(MidiKind::Aftertouch)
    } else if nibble == 0xB {
        Some(MidiKind::ControlChange)
    } else if nibble == 0xC {
        Some(MidiKind::ProgramChange)
    } else if nibble == 0xD {
        Some(MidiKind::ChannelAftertouch)
    } else if nibble == 0xE {
        Some(MidiKind::PitchBend)
    } else {
        None
    }
}

/// One classified event, as a mathematical value.
pub struct EventView {
    pub kind: MidiKind,
    pub channel: u8,
    pub bytes: Seq<u8>,
}

/// One classified event: its kind, its channel (`NO_CHANNEL` where it has
/// none) and the bytes it carries.
#[derive(Debug)]
pub struct MidiMessage {
    pub kind: MidiKind,
    pub channel: u8,
    pub bytes: Vec<u8>,
}

impl View for MidiMessage {
    type V = EventView;

    open spec fn view(&self) -> EventView {
        EventView { kind: self.kind, channel: self.channel, bytes: self.bytes@ }
    }
}

impl DeepView for MidiMessage {
    type V = EventView;

    open spec fn deep_view(&self) -> EventView {
        self@
    }
}

/// An event of `kind` that belongs to no channel.
pub open spec fn system_event(kind: MidiKind, bytes: Seq<u8>) -> EventView {
    EventView { kind, channel: NO_CHANNEL, bytes }
}

/// Whether a fragment may continue an open SysEx message: it holds no status
/// byte (a byte of `0x80` or more), except that its last byte may be the end
/// marker.
pub open spec fn continues_sysex(bytes: Seq<u8>) -> bool {
    forall|i: int|
        0 <= i < bytes.len() && #[trigger] bytes[i] >= 0x80 ==> i == bytes.len() - 1 && bytes[i]
            == SYSEX_END
}

/// Whether a fragment ends with the SysEx end marker.
pub open spec fn closes_sysex(bytes: Seq<u8>) -> bool {
    bytes.len() > 0 && bytes.last() == SYSEX_END
}

/// The events of a SysEx fragment that was accepted, where `whole` is the
/// message accumulated so far with this fragment included.
pub open spec fn sysex_events(bytes: Seq<u8>, whole: Seq<u8>) -> Seq<EventView> {
    if closes_sysex(bytes) {
        seq![system_event(MidiKind::Sysex, bytes), system_event(MidiKind::SysexEnd, whole)]
    } else {
        seq![system_event(MidiKind::Sysex, bytes)]
    }
}

/// The events that a branch of the classification produced, or the single
/// fallback event where it produced none.
pub open spec fn or_unknown(events: Seq<EventView>, bytes: Seq<u8>) -> Seq<EventView> {
    if events.len() == 0 {
        seq![system_event(MidiKind::Unknown, bytes)]
    } else {
        events
    }
}

/// The events that a packet yields, given the SysEx buffer of its source.
pub open spec fn parse_events_spec(bytes: Seq<u8>, sysex: Seq<u8>) -> Seq<EventView> {
    if bytes.len() == 0 {
        seq![system_event(MidiKind::Invalid, Seq::empty())]
    } else if bytes[0] == SYSEX_START {
        sysex_events(bytes, bytes)
    } else if bytes[0] > SYSEX_START {
        match system_kind_spec(bytes[0]) {
            Some(kind) => seq![system_event(kind, bytes)],
            None => seq![system_event(MidiKind::Unknown, bytes)],
        }
    } else if sysex.len() > 0 {
        if continues_sysex(bytes) {
            sysex_events(bytes, sysex + bytes)
        } else {
            seq![system_event(MidiKind::Unknown, bytes)]
        }
    } else {
        match voice_kind_spec(bytes[0] / 16) {
            Some(kind) => seq![EventView { kind, channel: bytes[0] % 16, bytes }],
            None => seq![system_event(MidiKind::Unknown, bytes)],
        }
    }
}

/// The SysEx buffer of the source after a packet.
pub open spec fn parse_buffer_spec(bytes: Seq<u8>, sysex: Seq<u8>) -> Seq<u8> {
    if bytes.len() == 0 {
        sysex
    } else if bytes[0] == SYSEX_START {
        if closes_sysex(bytes) {
            Seq::empty()
        } else {
            bytes
        }
    } else if bytes[0] > SYSEX_START {
        sysex
    } else if sysex.len() > 0 {
        if continues_sysex(bytes) && !closes_sysex(bytes) {
            sysex + bytes
        } else {
            Seq::empty()
        }
    } else {
        sysex
    }
}

/// The mathematical value of a list of `(name, channel, bytes)` events.
pub open spec fn named_events(events: Seq<EventView>) -> Seq<(Seq<char>, u8, Seq<u8>)> {
    Seq::new(events.len(), |i: int| (events[i].kind.name_spec(), events[i].channel, events[i].bytes))
}

/// Checks whether a fragment may continue an open SysEx message.
pub fn check_continuation(bytes: &Vec<u8>) -> (valid: bool)
    ensures
        valid == continues_sysex(bytes@),
{
    let n = bytes.len();
    let mut i: usize = 0;
    while i < n
        invariant
            n == bytes@.len(),
            i <= n,
            forall|j: int|
                0 <= j < i && #[trigger] bytes@[j] >= 0x80 ==> j == n - 1 && bytes@[j] == SYSEX_END,
        decreases n - i,
    {
        let byte = bytes[i];
        if byte >= 0x80 && (i != n - 1 || byte != SYSEX_END) {
            return false;
        }
        i += 1;
    }
    true
}

fn system_message(kind: MidiKind, bytes: Vec<u8>) -> (message: MidiMessage)
    ensures
        message@ == system_event(kind, bytes@),
{
    MidiMessage { kind, channel: NO_CHANNEL, bytes }
}

/// Classifies one packet, reassembling SysEx fragments in `sysex`.
///
/// In order: an empty packet is invalid; a packet that starts with the SysEx
/// start status restarts the buffer; any other system status is looked up in
/// the table of system messages and leaves the buffer alone; while a SysEx
/// message is open, a packet either continues it or, if it holds a status
/// byte where none may stand, abandons it; anything else is a channel
/// message. A completed SysEx message is reported whole and the buffer is
/// emptied. A packet that nothing recognises is reported as unknown.
pub fn parse_events(bytes: &Vec<u8>, sysex: &mut Vec<u8>) -> (events: Vec<MidiMessage>)
    ensures
        events.deep_view() == parse_events_spec(bytes@, old(sysex)@),
        final(sysex)@ == parse_buffer_spec(bytes@, old(sysex)@),
{
    let mut events: Vec<MidiMessage> = Vec::new();
    if bytes.len() == 0 {
        events.push(system_message(MidiKind::Invalid, Vec::new()));
        assert(events.deep_view() =~= parse_events_spec(bytes@, old(sysex)@));
        return events;
    }
    let status = bytes[0];
    let closing = bytes[bytes.len() - 1] == SYSEX_END;
    if status == SYSEX_START {
        sysex.clear();
        events.push(system_message(MidiKind::Sysex, bytes.clone()));
        if closing {
            events.push(system_message(MidiKind::SysexEnd, bytes.clone()));
        } else {
            sysex.extend_from_slice(bytes.as_slice());
            assert(sysex@ =~= bytes@);
        }
    } else if status > SYSEX_START {
        match system_kind(status) {
            Some(kind) => {
                events.push(system_message(kind, bytes.clone()));
            },
            None => {
                events.push(system_message(MidiKind::Unknown, bytes.clone()));
            },
        }
    } else if sysex.len() > 0 {
        if check_continuation(bytes) {
            events.push(system_message(MidiKind::Sysex, bytes.clone()));
            sysex.extend_from_slice(bytes.as_slice());
            assert(sysex@ =~= old(sysex)@ + bytes@);
            if closing {
                events.push(system_message(MidiKind::SysexEnd, sysex.clone()));
                sysex.clear();
            }
        } else {
            sysex.clear();
            events.push(system_message(MidiKind::Unknown, bytes.clone()));
        }
    } else {
        match voice_kind(status / 16) {
            Some(kind) => {
                events.push(MidiMessage { kind, channel: status % 16, bytes: bytes.clone() });
            },
            None => {
                events.push(system_message(MidiKind::Unknown, bytes.clone()));
            },
        }
    }
    assert(events.deep_view() =~= parse_events_spec(bytes@, old(sysex)@));
    events
}

/// Classifies one packet and reports each event by its display name.
///
/// The events are those of [`parse_events`], in the same order, as
/// `(name, channel, bytes)`.
pub fn parse_midi(bytes: Vec<u8>, sysex: &mut Vec<u8>) -> (events: Vec<(&'static str, u8, Vec<u8>)>)
    ensures
        events.deep_view() == named_events(parse_events_spec(bytes@, old(sysex)@)),
        final(sysex)@ == parse_buffer_spec(bytes@, old(sysex)@),
{
    let mut parsed = parse_events(&bytes, sysex);
    let ghost expected = parsed.deep_view();
    let mut events: Vec<(&'static str, u8, Vec<u8>)> = Vec::new();
    let n = parsed.len();
    let mut i: usize = 0;
    while i < n
        invariant
            n == parsed@.len(),
            i <= n,
            parsed.deep_view() == expected,
            events@.len() == i,
            forall|j: int|
                0 <= j < i ==> (#[trigger] events@[j]).deep_view() == (
                    expected[j].kind.name_spec(),
                    expected[j].channel,
                    expected[j].bytes,
                ),
        decreases n - i,
    {
        let message = &parsed[i];
        assert(expected[i as int] == parsed@[i as int]@);
        events.push((message.kind.name(), message.channel, message.bytes.clone()));
        i += 1;
    }
    assert(events.deep_view() =~= named_events(expected));
    events
}

/// An empty packet yields exactly one event: invalid, on no channel, with no
/// bytes.
pub proof fn lemma_empty_packet_is_invalid(sysex: Seq<u8>)
    ensures
        parse_events_spec(Seq::empty(), sysex) == seq![
            system_event(MidiKind::Invalid, Seq::empty()),
        ],
        parse_events_spec(Seq::empty(), sysex).len() == 1,
        parse_buffer_spec(Seq::empty(), sysex) == sysex,
{
}

/// Every packet yields at least one event, and never more than two.
pub proof fn lemma_parse_never_silent(bytes: Seq<u8>, sysex: Seq<u8>)
    ensures
        1 <= parse_events_spec(bytes, sysex).len() <= 2,
        named_events(parse_events_spec(bytes, sysex)).len() == parse_events_spec(bytes, sysex).len(),
{
}

/// A system message other than the SysEx start (a realtime or common
/// message) is reported alone, whatever the state of the SysEx buffer, and
/// leaves that buffer as it was: it neither enters nor interrupts a SysEx
/// message that is being reassembled.
pub proof fn lemma_system_message_leaves_sysex(bytes: Seq<u8>, sysex: Seq<u8>, other: Seq<u8>)
    requires
        bytes.len() > 0,
        bytes[0] > SYSEX_START,
    ensures
        parse_buffer_spec(bytes, sysex) == sysex,
        parse_events_spec(bytes, sysex).len() == 1,
        parse_events_spec(bytes, sysex)[0].bytes == bytes,
        parse_events_spec(bytes, sysex)[0].channel == NO_CHANNEL,
        parse_events_spec(bytes, sysex) == parse_events_spec(bytes, other),
{
}

/// A fragment that completes an open SysEx message is reported together with
/// the whole message: everything buffered so far followed by the fragment.
/// The buffer is empty afterwards.
pub proof fn lemma_sysex_completion(bytes: Seq<u8>, sysex: Seq<u8>)
    requires
        sysex.len() > 0,
        bytes.len() > 0,
        bytes[0] < SYSEX_START,
        continues_sysex(bytes),
        closes_sysex(bytes),
    ensures
        parse_events_spec(bytes, sysex) == seq![
            system_event(MidiKind::Sysex, bytes),
            system_event(MidiKind::SysexEnd, sysex + bytes),
        ],
        parse_buffer_spec(bytes, sysex) == Seq::<u8>::empty(),
{
}

} // verus!

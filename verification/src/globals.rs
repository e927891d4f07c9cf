//! The fixed vocabulary of port names, wildcards and device name prefixes.
use vstd::prelude::*;
use crate::text::same_text;

verus! {

/// Matches every destination device; also the name of the catch-all port.
pub const WILDCARD: &'static str = "*";

pub const PORT_NOTE_ON: &'static str = "noteon";

pub const PORT_NOTE_OFF: &'static str = "noteoff";

pub const PORT_AFTERTOUCH: &'static str = "AT";

pub const PORT_CC: &'static str = "CC";

pub const PORT_PROGRAM: &'static str = "program";

pub const PORT_PITCH: &'static str = "pitch";

pub const PORT_CHANNEL_AT: &'static str = "channelAT";

pub const PORT_REALTIME: &'static str = "RT";

pub const PORT_START: &'static str = "start";

pub const PORT_CONTINUE: &'static str = "continue";

pub const PORT_STOP: &'static str = "stop";

pub const PORT_COMMON: &'static str = "CM";

pub const PORT_SYSEX: &'static str = "sysex";

pub const PORT_UNKNOWN: &'static str = "unknown";

/// Prefix of the id of a device bound to a hardware input.
pub const PREFIX_INPUT: &'static str = "Mdash In - ";

/// Prefix of the id of a device bound to a hardware output.
pub const PREFIX_OUTPUT: &'static str = "Mdash Out - ";

/// Prefix of the client through which a virtual cable listens.
pub const PREFIX_I: &'static str = "Mdash In - ";

/// Prefix of the client through which a virtual cable sends.
pub const PREFIX_O: &'static str = "Mdash Out - ";

/// Prefix of the virtual input port of a virtual cable.
pub const PREFIX_VI: &'static str = "Mdash VIn - ";

/// Prefix of the virtual output port of a virtual cable.
pub const PREFIX_VO: &'static str = "Mdash VOut - ";

/// Separator between the name of an output port and the number of the port
/// among the ports of that name.
pub const SUFFIX_SEPARATOR: &'static str = "#";

/// Whether a name is the wildcard.
pub open spec fn is_wildcard_spec(name: Seq<char>) -> bool {
    name == WILDCARD@
}

/// Whether a name is the wildcard.
pub fn is_wildcard(name: &str) -> (wild: bool)
    ensures
        wild == is_wildcard_spec(name@),
{
    same_text(name, WILDCARD)
}

} // verus!

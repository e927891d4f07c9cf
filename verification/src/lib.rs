//! A routing graph for MIDI messages.
//!
//! Devices are registered in a [`hub::Hub`] under their ids and wired by
//! connectors from a port of one device to a port of another. A message that
//! is dispatched travels along every connector that carries it; the device at
//! the end of a connector transforms the message, and what it emits travels
//! on from its output ports, depth first.
//!
//! The graph knows its devices through the [`device::Device`] trait alone.
//! The devices of this crate are the [`mapper::Mapper`], which filters and
//! rewrites channel messages, the [`splitter::Splitter`], which sorts
//! messages by what the [`parser`] finds them to be, the
//! [`monitor::Monitor`], the [`trigger::Trigger`] and the [`delay::Delay`].
//!
//! Every function is verified against its contract. The contracts are stated
//! over mathematical values: a text is a sequence of characters, a message a
//! sequence of bytes, a graph the sequence of its device ids and the
//! sequence of its connectors.
pub mod text;
pub mod globals;
pub mod parser;
pub mod device;
pub mod monitor;
pub mod trigger;
pub mod mapper;
pub mod splitter;
pub mod delay;
pub mod hub;
pub mod pattern;
pub mod naming;
pub mod project;

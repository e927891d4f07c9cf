//! The contract between the routing graph and its processing nodes.
use vstd::prelude::*;
use crate::mapper::Rule;

verus! {

/// A value of a device's property bag.
#[derive(Debug)]
pub enum Datum {
    Flag(bool),
    Unsigned(u64),
    Signed(i64),
    Text(String),
    Bytes(Vec<u8>),
    Rule(Rule),
}

/// The persisted form of a device: its id, its class, and the properties
/// that its class keeps, by key.
#[derive(Debug)]
pub struct Record {
    pub id: String,
    pub class: String,
    pub fields: Vec<(String, Datum)>,
}

/// Why an operation on a device or on the graph failed.
#[derive(Debug)]
pub enum DeviceError {
    /// A named port could not be found when a device was initialised.
    ResourceNotFound(String),
    /// A device id or a connector is already present.
    Duplicate(String),
    /// No device or connector of that name is present.
    NotFound(String),
    /// A device's state could not be written or read back.
    Serialization(String),
    /// A device failed while processing.
    Fault(String),
}

/// A processing node of the routing graph.
///
/// The graph identifies a device by the id it reports when it is added, keeps
/// it until it is removed, and speaks to it only through these methods. It
/// assumes nothing about what an implementation does: whatever `process`
/// returns is routed on, and nothing else is expected of it than to return.
/// A device that must wait does not wait in `process`; it returns at once and
/// hands its result to the graph later, as a message of its own.
pub trait Device: Send + Sync {
    /// The id under which the device is registered.
    fn get_id(&self) -> &str;

    /// The name of the device's class.
    fn get_class(&self) -> &str;

    /// Releases what `init` acquired. Safe on a device that was never
    /// initialised or was destroyed before.
    fn destroy(&mut self);

    /// The persisted form of the device.
    fn serialize(&self) -> Result<Record, DeviceError>;

    /// Acquires the outside resource that the device stands for, if any.
    fn init(&mut self) -> Result<(), DeviceError>;

    /// Reads a property. A key that the class does not know reads as `None`.
    fn get_data(&mut self, key: String) -> Result<Option<Datum>, String>;

    /// Writes a property. A key that the class does not know is ignored.
    fn set_data(&mut self, key: String, data: Datum) -> Result<(), String>;

    /// Removes a property. A key that the class does not know is ignored.
    fn delete_data(&mut self, key: String) -> Result<(), String>;

    /// Transforms one message that arrived over a connector into zero or more
    /// messages, each addressed to one of the device's output ports.
    fn process(
        &mut self,
        bytes: &Vec<u8>,
        from: &str,
        to: &str,
        from_port: &str,
        to_port: &str,
    ) -> Vec<(String, Vec<u8>)>;
}

/// The deep view of a byte vector is its view.
pub proof fn lemma_bytes_deep_view(bytes: Vec<u8>)
    ensures
        bytes.deep_view() == bytes@,
{
    assert(bytes.deep_view() =~= bytes@);
}

/// The deep view of an output is its port name and its bytes.
pub proof fn lemma_output_deep_view(output: (String, Vec<u8>))
    ensures
        output.deep_view() == (output.0@, output.1@),
{
    lemma_bytes_deep_view(output.1);
}

/// One output of a device: `bytes`, addressed to the port named `port`.
pub fn output(port: &str, bytes: Vec<u8>) -> (out: (String, Vec<u8>))
    ensures
        out.0@ == port@,
        out.1@ == bytes@,
        out.deep_view() == (port@, bytes@),
{
    let out = (port.to_owned(), bytes);
    proof {
        lemma_output_deep_view(out);
    }
    out
}

} // verus!

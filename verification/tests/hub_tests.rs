use mdash::device::{Datum, Device, DeviceError, Record};
use mdash::hub::{Connector, Hub, MidiEvent};
use mdash::monitor::Monitor;
use mdash::trigger::Trigger;

struct MockDevice {
    id: String,
    bytes: Vec<u8>,
    class: String,
}

impl MockDevice {
    fn new(id: &str) -> Self {
        MockDevice { id: String::from(id), bytes: vec![], class: String::from("mock") }
    }
}

impl Device for MockDevice {
    fn get_id(&self) -> &str {
        &self.id
    }

    fn get_class(&self) -> &str {
        &self.class
    }

    fn process(
        &mut self,
        bytes: &Vec<u8>,
        _from: &str,
        _to: &str,
        _from_port: &str,
        _to_port: &str,
    ) -> Vec<(String, Vec<u8>)> {
        let mut result = vec![];
        let mut b = bytes.clone();
        b[0] = bytes[0] + 1;
        result.push(("*".to_string(), b.clone()));
        self.bytes = b;
        result
    }

    fn init(&mut self) -> Result<(), DeviceError> {
        Ok(())
    }

    fn destroy(&mut self) {}

    fn serialize(&self) -> Result<Record, DeviceError> {
        Ok(Record {
            id: self.id.clone(),
            class: self.class.clone(),
            fields: vec![("bytes".to_string(), Datum::Bytes(self.bytes.clone()))],
        })
    }

    fn get_data(&mut self, _key: String) -> Result<Option<Datum>, String> {
        Ok(None)
    }

    fn set_data(&mut self, _key: String, _data: Datum) -> Result<(), String> {
        Ok(())
    }

    fn delete_data(&mut self, _key: String) -> Result<(), String> {
        Ok(())
    }
}

fn mock_bytes(hub: &Hub, id: &str) -> Vec<u8> {
    let record = hub.serialize_device(id).unwrap();
    match &record.fields[0].1 {
        Datum::Bytes(bytes) => bytes.clone(),
        _ => panic!("Invalid record"),
    }
}

fn envelope(event: &MidiEvent) -> (u64, &str, &str, &str, &str, Vec<u8>) {
    (
        event.ts,
        event.from.as_str(),
        event.to.as_str(),
        event.from_port.as_str(),
        event.to_port.as_str(),
        event.bytes.clone(),
    )
}

#[test]
fn add_device() {
    let mut hub = Hub::new();
    hub.destroy();
    let d1: Box<dyn Device> = Box::new(MockDevice::new("1"));
    let d2: Box<dyn Device> = Box::new(MockDevice::new("1"));
    assert!(hub.add_device(d1));
    assert!(!hub.add_device(d2));
    assert!(hub.device_count() == 1);
}

#[test]
fn remove_device() {
    let mut hub = Hub::new();
    hub.destroy();
    let d1: Box<dyn Device> = Box::new(MockDevice::new("1"));
    let d2: Box<dyn Device> = Box::new(MockDevice::new("2"));
    assert!(hub.add_device(d1));
    assert!(hub.add_device(d2));
    assert!(hub.remove_device("1"));
    assert!(!hub.remove_device("1"));
    assert!(hub.device_count() == 1);
}

#[test]
fn connect() {
    let mut hub = Hub::new();
    hub.destroy();
    assert!(hub.connect("*", "*", "*", "*").is_some());
    assert!(hub.connect("*", "*", "*", "*").is_none());
}

#[test]
fn disconnect() {
    let mut hub = Hub::new();
    hub.destroy();
    hub.connect("*", "*", "*", "*");
    assert!(!hub.disconnect("*", "*", "*", "1"));
    assert!(hub.disconnect("*", "*", "*", "*"));
    assert!(!hub.disconnect("*", "*", "*", "*"));
}

#[test]
fn process() {
    let mut hub = Hub::new();
    hub.destroy();
    let d1: Box<dyn Device> = Box::new(MockDevice::new("1"));
    let d2: Box<dyn Device> = Box::new(MockDevice::new("2"));
    let d3: Box<dyn Device> = Box::new(MockDevice::new("3"));
    hub.add_device(d1);
    hub.add_device(d2);
    hub.add_device(d3);
    let bytes = vec![100, 100, 100];
    hub.connect("*", "1", "*", "*"); // connect non existing device to 1
    hub.connect("1", "2", "*", "*"); // connect 1 to 2
    hub.connect("2", "3", "*", "*"); // connect 2 to 3
    hub.process(0, &bytes, "*", "1", "*", "*");
    let b1 = mock_bytes(&hub, "1");
    let b2 = mock_bytes(&hub, "2");
    let b3 = mock_bytes(&hub, "3");
    assert_eq!(b1[0], 101);
    assert_eq!(b2[0], 102);
    assert_eq!(b3[0], 103);
    hub.process(0, &b3, "2", "3", "*", "*");
    let bb3 = mock_bytes(&hub, "3");
    assert_eq!(bb3[0], 104);
}

#[test]
fn process_publishes_every_hop_in_order() {
    let mut hub = Hub::new();
    hub.add_device(Box::new(MockDevice::new("1")));
    hub.add_device(Box::new(MockDevice::new("2")));
    hub.add_device(Box::new(MockDevice::new("3")));
    hub.connect("*", "1", "*", "*");
    hub.connect("1", "2", "*", "*");
    hub.connect("2", "3", "*", "*");
    let events = hub.process(7, &vec![100, 100, 100], "*", "1", "*", "*");
    assert_eq!(events.len(), 4);
    assert_eq!(envelope(&events[0]), (7, "*", "1", "*", "*", vec![100, 100, 100]));
    assert_eq!(envelope(&events[1]), (7, "1", "2", "*", "*", vec![101, 100, 100]));
    assert_eq!(envelope(&events[2]), (7, "2", "3", "*", "*", vec![102, 100, 100]));
    // Nothing leaves device 3: its output is recorded without a destination.
    assert_eq!(envelope(&events[3]), (7, "3", "", "*", "", vec![103, 100, 100]));
}

#[test]
fn process_is_depth_first() {
    // a feeds b and c; b feeds d. What b causes comes before c.
    let mut hub = Hub::new();
    for id in ["a", "b", "c", "d"] {
        hub.add_device(Box::new(MockDevice::new(id)));
    }
    hub.connect("in", "a", "*", "*");
    hub.connect("a", "b", "*", "*");
    hub.connect("a", "c", "*", "*");
    hub.connect("b", "d", "*", "*");
    let events = hub.process(1, &vec![0], "in", "*", "*", "*");
    let hops: Vec<(String, String)> =
        events.iter().map(|e| (e.from.clone(), e.to.clone())).collect();
    let expected: Vec<(String, String)> = [
        ("in", "*"),
        ("a", "b"),
        ("b", "d"),
        ("d", ""),
        ("a", "c"),
        ("c", ""),
    ]
    .iter()
    .map(|(f, t)| (f.to_string(), t.to_string()))
    .collect();
    assert_eq!(hops, expected);
    assert_eq!(mock_bytes(&hub, "a"), vec![1]);
    assert_eq!(mock_bytes(&hub, "b"), vec![2]);
    assert_eq!(mock_bytes(&hub, "d"), vec![3]);
    assert_eq!(mock_bytes(&hub, "c"), vec![2]);
}

#[test]
fn process_wildcard_destination_reaches_every_wired_device() {
    let mut hub = Hub::new();
    hub.add_device(Box::new(MockDevice::new("1")));
    hub.add_device(Box::new(MockDevice::new("2")));
    hub.add_device(Box::new(MockDevice::new("3")));
    hub.connect("in", "1", "*", "*");
    hub.connect("in", "2", "*", "*");
    hub.connect("in", "3", "*", "other");
    hub.process(0, &vec![10], "in", "*", "*", "*");
    assert_eq!(mock_bytes(&hub, "1"), vec![11]);
    assert_eq!(mock_bytes(&hub, "2"), vec![11]);
    // Ports are matched exactly: the third connector ends on another port.
    assert_eq!(mock_bytes(&hub, "3"), Vec::<u8>::new());
}

#[test]
fn process_named_destination_reaches_only_that_device() {
    let mut hub = Hub::new();
    hub.add_device(Box::new(MockDevice::new("1")));
    hub.add_device(Box::new(MockDevice::new("2")));
    hub.connect("in", "1", "*", "*");
    hub.connect("in", "2", "*", "*");
    hub.process(0, &vec![10], "in", "2", "*", "*");
    assert_eq!(mock_bytes(&hub, "1"), Vec::<u8>::new());
    assert_eq!(mock_bytes(&hub, "2"), vec![11]);
}

#[test]
fn process_wildcard_port_of_a_call_is_no_wildcard() {
    let mut hub = Hub::new();
    hub.add_device(Box::new(MockDevice::new("1")));
    hub.connect("in", "1", "a", "b");
    let events = hub.process(0, &vec![10], "in", "1", "*", "*");
    assert_eq!(events.len(), 1);
    assert_eq!(mock_bytes(&hub, "1"), Vec::<u8>::new());
    hub.process(0, &vec![10], "in", "1", "a", "b");
    assert_eq!(mock_bytes(&hub, "1"), vec![11]);
}

#[test]
fn process_without_connectors_publishes_the_envelope_only() {
    let mut hub = Hub::new();
    hub.add_device(Box::new(MockDevice::new("1")));
    let events = hub.process(3, &vec![1, 2], "a", "1", "p", "q");
    assert_eq!(events.len(), 1);
    assert_eq!(envelope(&events[0]), (3, "a", "1", "p", "q", vec![1, 2]));
    assert_eq!(mock_bytes(&hub, "1"), Vec::<u8>::new());
}

#[test]
fn process_passes_over_a_connector_to_a_removed_device() {
    let mut hub = Hub::new();
    hub.add_device(Box::new(MockDevice::new("1")));
    hub.add_device(Box::new(MockDevice::new("2")));
    hub.connect("in", "1", "*", "*");
    hub.connect("in", "2", "*", "*");
    assert!(hub.remove_device("1"));
    assert_eq!(hub.connector_count(), 2);
    let events = hub.process(0, &vec![10], "in", "*", "*", "*");
    assert_eq!(mock_bytes(&hub, "2"), vec![11]);
    assert_eq!(events.len(), 2);
}

#[test]
fn process_while_paused_does_nothing() {
    let mut hub = Hub::new();
    hub.add_device(Box::new(MockDevice::new("1")));
    hub.connect("in", "1", "*", "*");
    hub.set_paused(true);
    assert!(hub.is_paused());
    let events = hub.process(0, &vec![10], "in", "1", "*", "*");
    assert!(events.is_empty());
    assert_eq!(mock_bytes(&hub, "1"), Vec::<u8>::new());
    hub.set_paused(false);
    let events = hub.process(0, &vec![10], "in", "1", "*", "*");
    assert_eq!(events.len(), 2);
    assert_eq!(mock_bytes(&hub, "1"), vec![11]);
}

#[test]
fn process_within_stops_a_cycle_when_the_budget_is_spent() {
    let mut hub = Hub::new();
    hub.add_device(Box::new(MockDevice::new("1")));
    hub.add_device(Box::new(MockDevice::new("2")));
    hub.connect("in", "1", "*", "*");
    hub.connect("1", "2", "*", "*");
    hub.connect("2", "1", "*", "*");
    let outcome = hub.process_within(5, 0, &vec![0], "in", "1", "*", "*");
    assert_eq!(outcome.events.len(), 5);
    assert_eq!(outcome.pending.len(), 1);
    assert_eq!(outcome.pending[0].from, "1");
    assert_eq!(outcome.pending[0].to, "2");
    assert_eq!(outcome.pending[0].bytes, vec![5]);
    assert_eq!(mock_bytes(&hub, "1"), vec![5]);
    assert_eq!(mock_bytes(&hub, "2"), vec![4]);
}

#[test]
fn process_within_without_budget_delivers_nothing() {
    let mut hub = Hub::new();
    hub.add_device(Box::new(MockDevice::new("1")));
    hub.connect("in", "1", "*", "*");
    let outcome = hub.process_within(0, 9, &vec![0], "in", "1", "*", "*");
    assert!(outcome.events.is_empty());
    assert_eq!(outcome.pending.len(), 1);
    assert_eq!(envelope(&outcome.pending[0]), (9, "in", "1", "*", "*", vec![0]));
    assert_eq!(mock_bytes(&hub, "1"), Vec::<u8>::new());
}

#[test]
fn process_through_library_devices() {
    let mut hub = Hub::new();
    hub.add_device(Box::new(Monitor::new("tap")));
    hub.add_device(Box::new(Trigger::new("end")));
    hub.add_device(Box::new(MockDevice::new("probe")));
    hub.connect("in", "tap", "*", "*");
    hub.connect("tap", "end", "*", "*");
    hub.connect("tap", "probe", "*", "*");
    let events = hub.process(0, &vec![0x90, 1, 2], "in", "*", "*", "*");
    assert_eq!(mock_bytes(&hub, "probe"), vec![0x91, 1, 2]);
    // in->*, tap->end, tap->probe, and the probe's unwired output.
    assert_eq!(events.len(), 4);
    assert_eq!(envelope(&events[1]), (0, "tap", "end", "*", "*", vec![0x90, 1, 2]));
}

#[test]
fn add_device_keeps_the_first_of_two_with_one_id() {
    let mut hub = Hub::new();
    let mut first = MockDevice::new("1");
    first.bytes = vec![42];
    assert!(hub.add_device(Box::new(first)));
    assert!(!hub.add_device(Box::new(MockDevice::new("1"))));
    assert_eq!(hub.device_count(), 1);
    assert_eq!(mock_bytes(&hub, "1"), vec![42]);
    assert!(hub.has_device("1"));
    assert!(!hub.has_device("2"));
}

#[test]
fn register_uses_the_given_id() {
    let mut hub = Hub::new();
    assert!(hub.register("left", Box::new(MockDevice::new("1"))));
    assert!(!hub.register("left", Box::new(MockDevice::new("2"))));
    assert!(hub.has_device("left"));
    assert!(!hub.has_device("1"));
}

#[test]
fn remove_device_keeps_connectors() {
    let mut hub = Hub::new();
    hub.add_device(Box::new(MockDevice::new("1")));
    hub.connect("1", "2", "*", "*");
    assert!(hub.remove_device("1"));
    assert_eq!(hub.connector_count(), 1);
    assert_eq!(hub.device_count(), 0);
    assert!(!hub.remove_device("never"));
}

#[test]
fn connector_id_joins_the_four_names() {
    let connector = Connector::new("a", "b", "out", "in");
    assert_eq!(connector.id, "a::b::out::in");
    assert_eq!(connector.from, "a");
    assert_eq!(connector.to, "b");
    assert_eq!(connector.from_port, "out");
    assert_eq!(connector.to_port, "in");
}

#[test]
fn connect_returns_the_connector_and_keeps_order() {
    let mut hub = Hub::new();
    let made = hub.connect("a", "b", "x", "y").unwrap();
    assert_eq!(made.id, "a::b::x::y");
    hub.connect("c", "d", "x", "y");
    let connectors = hub.serialize_connectors().unwrap();
    assert_eq!(connectors.len(), 2);
    assert_eq!(connectors[0].id, "a::b::x::y");
    assert_eq!(connectors[1].id, "c::d::x::y");
    assert!(hub.disconnect("a", "b", "x", "y"));
    let connectors = hub.serialize_connectors().unwrap();
    assert_eq!(connectors.len(), 1);
    assert_eq!(connectors[0].id, "c::d::x::y");
}

#[test]
fn disconnect_of_a_tuple_never_connected_reports_not_found() {
    let mut hub = Hub::new();
    assert!(!hub.disconnect("a", "b", "c", "d"));
    hub.connect("a", "b", "c", "d");
    assert!(!hub.disconnect("a", "b", "c", "e"));
    assert!(!hub.disconnect("b", "a", "c", "d"));
    assert_eq!(hub.connector_count(), 1);
}

#[test]
fn destroy_empties_the_graph_and_keeps_the_pause() {
    let mut hub = Hub::new();
    hub.add_device(Box::new(MockDevice::new("1")));
    hub.connect("1", "2", "*", "*");
    hub.set_paused(true);
    hub.destroy();
    assert_eq!(hub.device_count(), 0);
    assert_eq!(hub.connector_count(), 0);
    assert!(hub.is_paused());
}

#[test]
fn reconnect_device_reports_an_unknown_device() {
    let mut hub = Hub::new();
    hub.add_device(Box::new(MockDevice::new("1")));
    assert!(hub.reconnect_device("1").is_ok());
    match hub.reconnect_device("2") {
        Err(DeviceError::NotFound(message)) => assert_eq!(message, "Device not found 2"),
        _ => panic!("expected NotFound"),
    }
}

#[test]
fn device_data_of_an_unknown_device_is_refused() {
    let mut hub = Hub::new();
    hub.add_device(Box::new(MockDevice::new("1")));
    assert_eq!(
        hub.set_device_data("2".to_string(), "k".to_string(), Datum::Flag(true)),
        Err("Failed to find device 2".to_string())
    );
    assert!(hub.set_device_data("1".to_string(), "k".to_string(), Datum::Flag(true)).is_ok());
    assert!(hub.get_device_data("2".to_string(), "k".to_string()).is_err());
    assert!(hub.get_device_data("1".to_string(), "k".to_string()).unwrap().is_none());
    assert!(hub.serialize_device("2").is_none());
    assert_eq!(hub.serialize_devices().unwrap().len(), 1);
}

#[test]
fn deliver_returns_what_the_devices_gave_back() {
    let mut hub = Hub::new();
    hub.add_device(Box::new(MockDevice::new("1")));
    hub.add_device(Box::new(Trigger::new("2")));
    hub.connect("in", "1", "*", "*");
    hub.connect("in", "gone", "*", "*");
    hub.connect("in", "2", "*", "*");
    hub.connect("1", "2", "*", "*");
    hub.connect("1", "3", "*", "*");
    let message = MidiEvent::new(4, &vec![7], "in", "*", "*", "*");
    let mut queue = Vec::new();
    let mut events = Vec::new();
    let visits = hub.deliver(&message, &mut queue, &mut events);
    assert_eq!(visits, vec![vec![("*".to_string(), vec![8u8])], vec![]]);
    assert_eq!(events.len(), 1);
    assert_eq!(envelope(&events[0]), (4, "in", "*", "*", "*", vec![7]));
    assert_eq!(queue.len(), 2);
    assert_eq!(envelope(&queue[0]), (4, "1", "2", "*", "*", vec![8]));
    assert_eq!(envelope(&queue[1]), (4, "1", "3", "*", "*", vec![8]));
}

#[test]
fn fan_out_records_outputs_that_no_connector_takes() {
    let mut hub = Hub::new();
    hub.connect("a", "b", "x", "in");
    hub.connect("a", "c", "x", "in");
    let outputs = vec![("x".to_string(), vec![1u8]), ("y".to_string(), vec![2u8])];
    let mut queue = Vec::new();
    let mut events = Vec::new();
    hub.fan_out(9, "a", &outputs, &mut queue, &mut events);
    assert_eq!(queue.len(), 2);
    assert_eq!(envelope(&queue[0]), (9, "a", "b", "x", "in", vec![1]));
    assert_eq!(envelope(&queue[1]), (9, "a", "c", "x", "in", vec![1]));
    assert_eq!(events.len(), 1);
    assert_eq!(envelope(&events[0]), (9, "a", "", "y", "", vec![2]));
}

use mdash::device::{Datum, Device, DeviceError, Record};
use mdash::hub::Hub;
use mdash::naming::{
    find_port, find_port_instance, input_id, last_occurrence, low_bytes, numbered_output_id,
    output_id, parse_instance, prefixed_port_pattern, split_device_id, valid_midi_ports,
    virtual_in_id, virtual_out_id, whole_port_pattern,
};
use mdash::pattern::first_match;
use mdash::project::{
    add_initialized, core_device, device_class, get_state, load_device, load_order, DeviceClass,
    State,
};
use mdash::text::{decimal, same_text, starts_with, strip_prefix};

struct Port {
    id: String,
    present: bool,
    open: bool,
    destroyed: u32,
    code: String,
}

impl Port {
    fn new(id: &str, present: bool) -> Self {
        Port { id: id.to_string(), present, open: false, destroyed: 0, code: String::new() }
    }
}

impl Device for Port {
    fn get_id(&self) -> &str {
        &self.id
    }

    fn get_class(&self) -> &str {
        "port"
    }

    fn destroy(&mut self) {
        self.open = false;
        self.destroyed += 1;
    }

    fn serialize(&self) -> Result<Record, DeviceError> {
        Ok(Record {
            id: self.id.clone(),
            class: "port".to_string(),
            fields: vec![
                ("open".to_string(), Datum::Flag(self.open)),
                ("destroyed".to_string(), Datum::Unsigned(self.destroyed as u64)),
                ("code".to_string(), Datum::Text(self.code.clone())),
            ],
        })
    }

    fn init(&mut self) -> Result<(), DeviceError> {
        if self.present {
            self.open = true;
            Ok(())
        } else {
            Err(DeviceError::ResourceNotFound(format!("Device port not found {}", self.id)))
        }
    }

    fn get_data(&mut self, _key: String) -> Result<Option<Datum>, String> {
        Ok(None)
    }

    fn set_data(&mut self, key: String, data: Datum) -> Result<(), String> {
        if key == "script" {
            match data {
                Datum::Text(code) => self.code = code,
                _ => return Err("Failed to set script".to_string()),
            }
        }
        Ok(())
    }

    fn delete_data(&mut self, _key: String) -> Result<(), String> {
        Ok(())
    }

    fn process(
        &mut self,
        _bytes: &Vec<u8>,
        _from: &str,
        _to: &str,
        _from_port: &str,
        _to_port: &str,
    ) -> Vec<(String, Vec<u8>)> {
        vec![]
    }
}

fn is_open(hub: &Hub, id: &str) -> bool {
    matches!(hub.serialize_device(id).unwrap().fields[0].1, Datum::Flag(true))
}

fn strings(names: &[&str]) -> Vec<String> {
    names.iter().map(|n| n.to_string()).collect()
}

#[test]
fn new_empty_project() {
    let mut hub = Hub::new();
    hub.add_device(Box::new(Port::new("1", true)));
    hub.connect("1", "2", "*", "*");
    mdash::project::new_empty_project(&mut hub).expect("");
    let devices = hub.serialize_devices().expect("");
    let connectors = hub.serialize_connectors().expect("");

    assert_eq!(devices.len(), 0);
    assert_eq!(connectors.len(), 0);
}

#[test]
fn new_devices_project() {
    let ports = valid_midi_ports(
        &strings(&["Keys", "Mdash Out - Synth", "Pads"]),
        &strings(&["Synth", "Mdash In - Keys"]),
    );
    assert_eq!(ports.inputs, strings(&["Keys", "Pads"]));
    assert_eq!(ports.outputs, strings(&["Synth"]));
    let mut hub = Hub::new();
    hub.add_device(Box::new(Port::new("old", true)));
    hub.connect("old", "older", "*", "*");
    let inputs: Vec<Port> = ports.inputs.iter().map(|n| Port::new(&input_id(n), true)).collect();
    let outputs: Vec<Port> =
        ports.outputs.iter().map(|n| Port::new(&output_id(n), true)).collect();
    mdash::project::new_devices_project(&mut hub, inputs, outputs).expect("");
    let devices = hub.serialize_devices().expect("");
    assert_eq!(devices.len(), ports.inputs.len() + ports.outputs.len());
    assert_eq!(devices[0].id, "Mdash In - Keys");
    assert_eq!(devices[1].id, "Mdash In - Pads");
    assert_eq!(devices[2].id, "Mdash Out - Synth");
    assert_eq!(hub.connector_count(), 0);
    assert!(is_open(&hub, "Mdash In - Keys"));
}

#[test]
fn new_devices_project_stops_at_the_first_port_that_fails() {
    let mut hub = Hub::new();
    let inputs = vec![Port::new("a", true), Port::new("b", false), Port::new("c", true)];
    let outputs = vec![Port::new("d", true)];
    let done = mdash::project::new_devices_project(&mut hub, inputs, outputs);
    assert!(matches!(done, Err(DeviceError::ResourceNotFound(_))));
    assert_eq!(hub.device_count(), 1);
    assert!(hub.has_device("a"));
}

#[test]
fn add_initialized_skips_a_second_device_of_one_id() {
    let mut hub = Hub::new();
    let devices = vec![Port::new("a", true), Port::new("a", true), Port::new("b", true)];
    add_initialized(&mut hub, devices).unwrap();
    assert_eq!(hub.device_count(), 2);
}

#[test]
fn set_hub_paused_sets_the_pause() {
    let mut hub = Hub::new();
    mdash::project::set_hub_paused(&mut hub, true).unwrap();
    assert!(hub.is_paused());
    mdash::project::set_hub_paused(&mut hub, false).unwrap();
    assert!(!hub.is_paused());
}

#[test]
fn get_state_gives_a_state() {
    assert_eq!(get_state(None), State {});
    assert_eq!(get_state(Some(State {})), State::default());
}

#[test]
fn device_class_names() {
    assert_eq!(device_class("input"), DeviceClass::Input);
    assert_eq!(device_class("output"), DeviceClass::Output);
    assert_eq!(device_class("virtual"), DeviceClass::Virtual);
    assert_eq!(device_class("monitor"), DeviceClass::Monitor);
    assert_eq!(device_class("split"), DeviceClass::Splitter);
    assert_eq!(device_class("map"), DeviceClass::Mapper);
    assert_eq!(device_class("delay"), DeviceClass::Delay);
    assert_eq!(device_class("trigger"), DeviceClass::Trigger);
    assert_eq!(device_class("note"), DeviceClass::Note);
    assert_eq!(device_class("script"), DeviceClass::Script);
    assert_eq!(device_class("Input"), DeviceClass::Unknown);
    assert_eq!(device_class(""), DeviceClass::Unknown);
}

#[test]
fn load_order_puts_virtual_cables_first() {
    let classes = vec![
        DeviceClass::Input,
        DeviceClass::Virtual,
        DeviceClass::Mapper,
        DeviceClass::Virtual,
        DeviceClass::Output,
    ];
    assert_eq!(load_order(&classes), vec![1, 3, 0, 2, 4]);
    assert_eq!(load_order(&vec![]), Vec::<usize>::new());
    assert_eq!(load_order(&vec![DeviceClass::Note, DeviceClass::Delay]), vec![0, 1]);
}

#[test]
fn core_device_makes_the_devices_of_the_graph() {
    for (class, name) in [
        (DeviceClass::Monitor, "monitor"),
        (DeviceClass::Splitter, "split"),
        (DeviceClass::Mapper, "map"),
        (DeviceClass::Delay, "delay"),
        (DeviceClass::Trigger, "trigger"),
    ] {
        let device = core_device(class, "x").unwrap();
        assert_eq!(device.get_id(), "x");
        assert_eq!(device.get_class(), name);
    }
    for class in [
        DeviceClass::Input,
        DeviceClass::Output,
        DeviceClass::Virtual,
        DeviceClass::Script,
        DeviceClass::Note,
        DeviceClass::Unknown,
    ] {
        assert!(core_device(class, "x").is_none());
    }
}

#[test]
fn load_device_by_class() {
    let mut hub = Hub::new();
    // An input that cannot be opened is kept, closed.
    let done = load_device(&mut hub, DeviceClass::Input, Box::new(Port::new("in", false)), None);
    assert_eq!(done.unwrap(), true);
    assert!(!is_open(&hub, "in"));
    assert!(matches!(
        hub.serialize_device("in").unwrap().fields[1].1,
        Datum::Unsigned(1)
    ));
    let done = load_device(&mut hub, DeviceClass::Output, Box::new(Port::new("out", true)), None);
    assert_eq!(done.unwrap(), true);
    assert!(is_open(&hub, "out"));
    // A virtual cable that cannot be opened fails the loading.
    let done = load_device(&mut hub, DeviceClass::Virtual, Box::new(Port::new("v", false)), None);
    assert!(matches!(done, Err(DeviceError::ResourceNotFound(_))));
    assert!(!hub.has_device("v"));
    // Notes and unknown classes are passed over.
    let done = load_device(&mut hub, DeviceClass::Note, Box::new(Port::new("n", true)), None);
    assert_eq!(done.unwrap(), false);
    let done = load_device(&mut hub, DeviceClass::Unknown, Box::new(Port::new("u", true)), None);
    assert_eq!(done.unwrap(), false);
    // A script takes its code, or no code.
    let done = load_device(
        &mut hub,
        DeviceClass::Script,
        Box::new(Port::new("s", true)),
        Some(Datum::Text("x = 1".to_string())),
    );
    assert_eq!(done.unwrap(), true);
    assert!(
        matches!(&hub.serialize_device("s").unwrap().fields[2].1, Datum::Text(c) if c == "x = 1")
    );
    // A mapper takes its rule and refuses anything else.
    let rule = mdash::mapper::Rule { in_channel: 3, ..mdash::mapper::Rule::open() };
    let mapper = core_device(DeviceClass::Mapper, "m").unwrap();
    assert_eq!(load_device(&mut hub, DeviceClass::Mapper, mapper, Some(Datum::Rule(rule))).unwrap(), true);
    assert!(matches!(
        hub.serialize_device("m").unwrap().fields[0].1,
        Datum::Rule(r) if r == rule
    ));
    let mapper = core_device(DeviceClass::Mapper, "m2").unwrap();
    let done = load_device(&mut hub, DeviceClass::Mapper, mapper, None);
    assert!(matches!(done, Err(DeviceError::Serialization(_))));
    assert!(!hub.has_device("m2"));
    let delay = core_device(DeviceClass::Delay, "d").unwrap();
    assert_eq!(load_device(&mut hub, DeviceClass::Delay, delay, Some(Datum::Unsigned(7))).unwrap(), true);
    assert!(matches!(hub.serialize_device("d").unwrap().fields[0].1, Datum::Unsigned(7)));
    // A second device of a registered id is not registered.
    let monitor = core_device(DeviceClass::Monitor, "d").unwrap();
    assert_eq!(load_device(&mut hub, DeviceClass::Monitor, monitor, None).unwrap(), false);
    assert_eq!(hub.device_count(), 5);
}

#[test]
fn device_ids() {
    assert_eq!(input_id("Keys"), "Mdash In - Keys");
    assert_eq!(input_id("Mdash In - Keys"), "Mdash In - Keys");
    assert_eq!(output_id("Synth"), "Mdash Out - Synth");
    assert_eq!(output_id("Mdash Out - Synth"), "Mdash Out - Synth");
    assert_eq!(virtual_in_id("cable"), "Mdash In - cable");
    assert_eq!(virtual_out_id("cable"), "Mdash Out - cable");
}

#[test]
fn valid_midi_ports_leaves_out_the_graphs_own() {
    let ports = valid_midi_ports(
        &strings(&["A", "Mdash Out - A", "Mdash VOut - v", "Mdash In - B", "Mdash VIn - v"]),
        &strings(&["B", "Mdash In - B", "Mdash VIn - v", "Mdash Out - A", "Mdash VOut - v"]),
    );
    assert_eq!(ports.inputs, strings(&["A", "Mdash In - B", "Mdash VIn - v"]));
    assert_eq!(ports.outputs, strings(&["B", "Mdash Out - A", "Mdash VOut - v"]));
}

#[test]
fn find_port_by_name_and_instance() {
    let names = strings(&["a", "b", "a", "c", "a"]);
    assert_eq!(find_port(&names, "a"), Some(0));
    assert_eq!(find_port(&names, "c"), Some(3));
    assert_eq!(find_port(&names, "d"), None);
    assert_eq!(find_port_instance(&names, "a", 1), Some(0));
    assert_eq!(find_port_instance(&names, "a", 2), Some(2));
    assert_eq!(find_port_instance(&names, "a", 3), Some(4));
    assert_eq!(find_port_instance(&names, "a", 4), None);
    assert_eq!(find_port_instance(&names, "a", 0), None);
    assert_eq!(find_port_instance(&vec![], "a", 1), None);
}

#[test]
fn first_match_finds_the_virtual_port() {
    let names = strings(&["Midi Through", "Mdash VOut - 128:0 cable", "Mdash VOut - cable 2"]);
    let pattern = prefixed_port_pattern("Mdash VOut - ", "cable");
    assert_eq!(pattern, "^Mdash VOut - .*cable.*");
    assert_eq!(first_match(&pattern, &names), Ok(Some(1)));
    assert_eq!(first_match(&prefixed_port_pattern("Mdash VIn - ", "cable"), &names), Ok(None));
    assert_eq!(first_match(&whole_port_pattern("Midi Through"), &names), Ok(Some(0)));
    assert_eq!(whole_port_pattern("x"), "^x$");
    assert_eq!(first_match(&whole_port_pattern("Midi"), &names), Ok(None));
    // An id that is no regular expression.
    assert_eq!(first_match(&whole_port_pattern("("), &names), Err(()));
    assert_eq!(first_match(&whole_port_pattern("("), &vec![]), Ok(None));
}

#[test]
fn low_bytes_cuts_numbers() {
    assert_eq!(low_bytes(&vec![0, 255, 256, 257, u64::MAX]), vec![0, 255, 0, 1, 255]);
}

#[test]
fn text_helpers() {
    assert!(same_text("abc", "abc"));
    assert!(!same_text("abc", "abd"));
    assert!(!same_text("abc", "ab"));
    assert!(same_text("", ""));
    assert!(same_text("héllo", "héllo"));
    assert!(starts_with("Mdash In - x", "Mdash In - "));
    assert!(starts_with("x", ""));
    assert!(!starts_with("Mdash", "Mdash In - "));
    assert!(starts_with("éa", "é"));
    assert_eq!(strip_prefix("Mdash In - Keys", "Mdash In - "), Some("Keys"));
    assert_eq!(strip_prefix("éab", "é"), Some("ab"));
    assert_eq!(strip_prefix("Keys", "Mdash In - "), None);
    assert_eq!(decimal(0), "0");
    assert_eq!(decimal(9), "9");
    assert_eq!(decimal(10), "10");
    assert_eq!(decimal(16), "16");
    assert_eq!(decimal(65535), "65535");
}

#[test]
fn parse_instance_reads_numbers() {
    assert_eq!(parse_instance("0"), Some(0));
    assert_eq!(parse_instance("7"), Some(7));
    assert_eq!(parse_instance("012"), Some(12));
    assert_eq!(parse_instance("+12"), Some(12));
    assert_eq!(parse_instance(""), None);
    assert_eq!(parse_instance("+"), None);
    assert_eq!(parse_instance("-1"), None);
    assert_eq!(parse_instance("1a"), None);
    assert_eq!(parse_instance("a1"), None);
    assert_eq!(parse_instance(" 1"), None);
    assert_eq!(parse_instance("++1"), None);
    assert_eq!(parse_instance(&usize::MAX.to_string()), Some(usize::MAX));
    assert_eq!(parse_instance("18446744073709551616"), None);
    assert_eq!(parse_instance("99999999999999999999999"), None);
    for text in ["0", "5", "+5", "x", "", "123456", "12 "] {
        assert_eq!(parse_instance(text), text.parse::<usize>().ok());
    }
}

#[test]
fn last_occurrence_finds_the_last() {
    assert_eq!(last_occurrence("a#b#c", "#"), Some(3));
    assert_eq!(last_occurrence("abc", "#"), None);
    assert_eq!(last_occurrence("#", "#"), Some(0));
    assert_eq!(last_occurrence("", "#"), None);
    assert_eq!(last_occurrence("a::b::c", "::"), Some(4));
    assert_eq!(last_occurrence("aaa", "aa"), Some(1));
    assert_eq!(last_occurrence("é#é", "#"), Some(1));
}

#[test]
fn split_device_id_gives_name_and_number() {
    assert_eq!(split_device_id("Synth#2", "#"), ("Synth", 2));
    assert_eq!(split_device_id("Synth", "#"), ("Synth", 1));
    assert_eq!(split_device_id("Synth#x", "#"), ("Synth#x", 1));
    assert_eq!(split_device_id("Syn#th#10", "#"), ("Syn#th", 10));
    assert_eq!(split_device_id("Synth#", "#"), ("Synth#", 1));
    assert_eq!(split_device_id("Synth#3#", "#"), ("Synth#3#", 1));
}

#[test]
fn numbered_output_id_adds_prefix_and_number() {
    assert_eq!(numbered_output_id("Synth", "#"), "Mdash Out - Synth#1");
    assert_eq!(numbered_output_id("Synth#2", "#"), "Mdash Out - Synth#2");
    assert_eq!(numbered_output_id("Mdash Out - Synth#2", "#"), "Mdash Out - Synth#2");
    assert_eq!(numbered_output_id("Mdash Out - Synth", "#"), "Mdash Out - Synth#1");
    assert_eq!(numbered_output_id("Synth#a", "#"), "Mdash Out - Synth#a#1");
    assert_eq!(mdash::globals::SUFFIX_SEPARATOR, "#");
}

#[test]
fn add_initialized_without_devices_changes_nothing() {
    let mut hub = Hub::new();
    hub.add_device(Box::new(Port::new("kept", true)));
    assert!(add_initialized(&mut hub, Vec::<Port>::new()).is_ok());
    assert_eq!(hub.device_count(), 1);
    let mut empty = Hub::new();
    assert_eq!(empty.serialize_devices().unwrap().len(), 0);
    assert!(empty.add_device(Box::new(Port::new("first", true))));
}

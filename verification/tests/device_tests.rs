use mdash::delay::Delay;
use mdash::device::{Datum, Device};
use mdash::mapper::{map_linear, map_linear_wide, Mapper, Rule};
use mdash::monitor::Monitor;
use mdash::splitter::Splitter;
use mdash::trigger::Trigger;

fn open_rule() -> Rule {
    Rule::open()
}

fn mapper_with(rule: Rule) -> Mapper {
    let mut mapper = Mapper::new("m");
    mapper.set_data("rule".to_string(), Datum::Rule(rule)).unwrap();
    mapper
}

fn run(device: &mut dyn Device, bytes: Vec<u8>) -> Vec<(String, Vec<u8>)> {
    device.process(&bytes, "src", "dst", "out", "in")
}

fn out(port: &str, bytes: Vec<u8>) -> (String, Vec<u8>) {
    (port.to_string(), bytes)
}

#[test]
fn mapper_new_lets_everything_through() {
    let mut mapper = Mapper::new("m");
    assert_eq!(mapper.get_id(), "m");
    assert_eq!(mapper.get_class(), "map");
    assert_eq!(mapper.rule, open_rule());
    assert_eq!(mapper.rule.in_channel, -1);
    assert_eq!(mapper.rule.out_data2_max, -1);
    assert!(!mapper.rule.pull_data1);
    assert_eq!(run(&mut mapper, vec![0x92, 60, 100]), vec![out("*", vec![0x92, 60, 100])]);
}

#[test]
fn mapper_rewrites_channel_and_drops_other_channels() {
    let mut mapper = mapper_with(Rule { in_channel: 2, out_channel: 5, ..open_rule() });
    assert_eq!(run(&mut mapper, vec![0x92, 60, 100]), vec![out("*", vec![0x95, 60, 100])]);
    assert_eq!(run(&mut mapper, vec![0x93, 60, 100]), vec![]);
}

#[test]
fn mapper_pulls_data1_from_data2() {
    let mut mapper = mapper_with(Rule {
        out_data1_min: 0,
        out_data1_max: 127,
        pull_data1: true,
        ..open_rule()
    });
    assert_eq!(run(&mut mapper, vec![0xB0, 10, 77]), vec![out("*", vec![0xB0, 77, 77])]);
    assert_eq!(run(&mut mapper, vec![0xB0, 99, 77]), vec![out("*", vec![0xB0, 77, 77])]);
    assert_eq!(run(&mut mapper, vec![0xB0, 99, 0]), vec![out("*", vec![0xB0, 0, 0])]);
}

#[test]
fn mapper_scales_into_the_output_range() {
    let mut mapper = mapper_with(Rule { out_data2_min: 10, out_data2_max: 20, ..open_rule() });
    // 10 + 127 * 10 / 127 = 20, 10 + 64 * 10 / 127 = 15, 10 + 0 = 10.
    assert_eq!(run(&mut mapper, vec![0x90, 1, 127]), vec![out("*", vec![0x90, 1, 20])]);
    assert_eq!(run(&mut mapper, vec![0x90, 1, 64]), vec![out("*", vec![0x90, 1, 15])]);
    assert_eq!(run(&mut mapper, vec![0x90, 1, 0]), vec![out("*", vec![0x90, 1, 10])]);
}

#[test]
fn mapper_range_with_one_bound_set() {
    // Only the lower bound: the upper is raised to it, the range is a point.
    let mut mapper = mapper_with(Rule { out_data1_min: 40, ..open_rule() });
    assert_eq!(run(&mut mapper, vec![0x90, 100, 5]), vec![out("*", vec![0x90, 40, 5])]);
    // Only the upper bound: the lower is 0.
    let mut mapper = mapper_with(Rule { out_data1_max: 127, ..open_rule() });
    assert_eq!(run(&mut mapper, vec![0x90, 100, 5]), vec![out("*", vec![0x90, 100, 5])]);
}

#[test]
fn mapper_swaps_data_bytes() {
    let mut mapper = mapper_with(Rule { pull_data1: true, pull_data2: true, ..open_rule() });
    assert_eq!(run(&mut mapper, vec![0x90, 11, 22]), vec![out("*", vec![0x90, 22, 11])]);
}

#[test]
fn mapper_filters_by_type_and_data() {
    let rule = Rule {
        in_type: 9,
        in_data1_min: 10,
        in_data1_max: 20,
        in_data2_min: 30,
        in_data2_max: 40,
        ..open_rule()
    };
    let mut mapper = mapper_with(rule);
    assert_eq!(run(&mut mapper, vec![0x90, 10, 40]).len(), 1);
    assert_eq!(run(&mut mapper, vec![0x90, 20, 30]).len(), 1);
    assert_eq!(run(&mut mapper, vec![0x80, 15, 35]).len(), 0);
    assert_eq!(run(&mut mapper, vec![0x90, 9, 35]).len(), 0);
    assert_eq!(run(&mut mapper, vec![0x90, 21, 35]).len(), 0);
    assert_eq!(run(&mut mapper, vec![0x90, 15, 29]).len(), 0);
    assert_eq!(run(&mut mapper, vec![0x90, 15, 41]).len(), 0);
    // A data filter applies only where the byte is there.
    assert_eq!(run(&mut mapper, vec![0x90]), vec![out("*", vec![0x90, 0, 0])]);
    assert_eq!(run(&mut mapper, vec![0x90, 15]), vec![out("*", vec![0x90, 15, 0])]);
}

#[test]
fn mapper_drops_messages_of_no_or_more_than_three_bytes() {
    let mut mapper = Mapper::new("m");
    assert_eq!(run(&mut mapper, vec![]), vec![]);
    assert_eq!(run(&mut mapper, vec![0x90, 1, 2, 3]), vec![]);
}

#[test]
fn mapper_single_data_byte_types() {
    let mut mapper = Mapper::new("m");
    assert_eq!(run(&mut mapper, vec![0xC3, 7, 9]), vec![out("*", vec![0xC3, 7])]);
    assert_eq!(run(&mut mapper, vec![0xD3, 7]), vec![out("*", vec![0xD3, 7])]);
    let mut mapper = mapper_with(Rule { out_type: 0xC, ..open_rule() });
    assert_eq!(run(&mut mapper, vec![0x93, 7, 9]), vec![out("*", vec![0xC3, 7])]);
    let mut mapper = mapper_with(Rule { out_type: 0xB, ..open_rule() });
    assert_eq!(run(&mut mapper, vec![0xC3, 7]), vec![out("*", vec![0xB3, 7, 0])]);
}

#[test]
fn mapper_set_data_ignores_other_keys_and_refuses_other_values() {
    let mut mapper = Mapper::new("m");
    let rule = Rule { in_channel: 4, ..open_rule() };
    assert!(mapper.set_data("other".to_string(), Datum::Rule(rule)).is_ok());
    assert_eq!(mapper.rule, open_rule());
    assert!(mapper.set_data("rule".to_string(), Datum::Unsigned(4)).is_err());
    assert_eq!(mapper.rule, open_rule());
    assert!(mapper.set_data("rule".to_string(), Datum::Rule(rule)).is_ok());
    assert_eq!(mapper.rule, rule);
    assert!(mapper.get_data("rule".to_string()).unwrap().is_none());
    assert!(mapper.delete_data("rule".to_string()).is_ok());
    assert_eq!(mapper.rule, rule);
    let record = mapper.serialize().unwrap();
    assert_eq!(record.id, "m");
    assert_eq!(record.class, "map");
    assert_eq!(record.fields.len(), 1);
    assert_eq!(record.fields[0].0, "rule");
    assert!(matches!(record.fields[0].1, Datum::Rule(r) if r == rule));
}

#[test]
fn map_linear_exact_values() {
    assert_eq!(map_linear(0, 0, 127), 0);
    assert_eq!(map_linear(127, 0, 127), 127);
    assert_eq!(map_linear(64, 10, 20), 15);
    assert_eq!(map_linear(1, 0, 100), 0);
    assert_eq!(map_linear(100, 50, 50), 50);
    assert_eq!(map_linear_wide(255, 0, i32::MAX), 255 * (i32::MAX as i64) / 127);
    // Rounded down, below zero too.
    assert_eq!(map_linear_wide(-1, 0, 100), -1);
    assert_eq!(map_linear_wide(-127, 0, 100), -100);
}

#[test]
fn rule_default_is_all_zero() {
    let rule = Rule::default();
    assert_eq!(rule.in_channel, 0);
    assert_eq!(rule.out_data2_max, 0);
    assert!(!rule.pull_data2);
}

#[test]
fn monitor_passes_its_input_on() {
    let mut monitor = Monitor::new("tap");
    assert_eq!(monitor.get_id(), "tap");
    assert_eq!(monitor.get_class(), "monitor");
    assert_eq!(run(&mut monitor, vec![1, 2, 3, 4, 5]), vec![out("*", vec![1, 2, 3, 4, 5])]);
    assert_eq!(run(&mut monitor, vec![]), vec![out("*", vec![])]);
    assert!(monitor.init().is_ok());
    monitor.destroy();
    monitor.destroy();
    let record = monitor.serialize().unwrap();
    assert_eq!(record.id, "tap");
    assert_eq!(record.class, "monitor");
    assert!(record.fields.is_empty());
}

#[test]
fn trigger_emits_nothing() {
    let mut trigger = Trigger::new("end");
    assert_eq!(trigger.get_class(), "trigger");
    assert_eq!(run(&mut trigger, vec![0x90, 1, 2]), vec![]);
    assert!(trigger.set_data("any".to_string(), Datum::Flag(true)).is_ok());
    assert!(trigger.get_data("any".to_string()).unwrap().is_none());
}

#[test]
fn delay_notes_what_to_send_later() {
    let mut delay = Delay::new("d");
    assert_eq!(delay.get_class(), "delay");
    assert_eq!(delay.delay, 1000);
    assert_eq!(run(&mut delay, vec![0x90, 1, 2]), vec![]);
    delay.set_data("delay".to_string(), Datum::Unsigned(250)).unwrap();
    assert_eq!(run(&mut delay, vec![0x80, 1, 0]), vec![]);
    let noted = delay.take_deferred();
    assert_eq!(noted.len(), 2);
    assert_eq!(noted[0].delay, 1000);
    assert_eq!(noted[0].message.ts, 0);
    assert_eq!(noted[0].message.from, "d");
    assert_eq!(noted[0].message.to, "*");
    assert_eq!(noted[0].message.from_port, "*");
    assert_eq!(noted[0].message.to_port, "*");
    assert_eq!(noted[0].message.bytes, vec![0x90, 1, 2]);
    assert_eq!(noted[1].delay, 250);
    assert_eq!(noted[1].message.bytes, vec![0x80, 1, 0]);
    assert!(delay.take_deferred().is_empty());
}

#[test]
fn delay_set_data() {
    let mut delay = Delay::new("d");
    assert!(delay.set_data("other".to_string(), Datum::Unsigned(5)).is_ok());
    assert_eq!(delay.delay, 1000);
    assert!(delay.set_data("delay".to_string(), Datum::Text("5".to_string())).is_err());
    assert!(delay.set_data("delay".to_string(), Datum::Signed(-5)).is_err());
    assert_eq!(delay.delay, 1000);
    assert!(delay.set_data("delay".to_string(), Datum::Signed(5)).is_ok());
    assert_eq!(delay.delay, 5);
    assert!(delay.set_data("delay".to_string(), Datum::Unsigned(0)).is_ok());
    assert_eq!(delay.delay, 0);
    let record = delay.serialize().unwrap();
    assert_eq!(record.fields[0].0, "delay");
    assert!(matches!(record.fields[0].1, Datum::Unsigned(0)));
}

#[test]
fn splitter_note_on_leaves_on_three_ports() {
    let mut splitter = Splitter::new("s");
    assert_eq!(splitter.get_class(), "split");
    let bytes = vec![0x92, 60, 100];
    assert_eq!(
        run(&mut splitter, bytes.clone()),
        vec![out("*", bytes.clone()), out("noteon", bytes.clone()), out("3", bytes.clone())]
    );
}

#[test]
fn splitter_ports_by_kind() {
    let table: [(u8, &str); 7] = [
        (0x80, "noteoff"),
        (0x90, "noteon"),
        (0xA0, "AT"),
        (0xB0, "CC"),
        (0xC0, "program"),
        (0xD0, "channelAT"),
        (0xE0, "pitch"),
    ];
    for (status, port) in table {
        let mut splitter = Splitter::new("s");
        let outputs = run(&mut splitter, vec![status | 0x0F, 1, 2]);
        assert_eq!(outputs.len(), 3);
        assert_eq!(outputs[0].0, "*");
        assert_eq!(outputs[1].0, port);
        assert_eq!(outputs[2].0, "16");
    }
    let table: [(u8, &str); 11] = [
        (0xF1, "CM"),
        (0xF2, "CM"),
        (0xF3, "CM"),
        (0xF6, "CM"),
        (0xF7, "unknown"),
        (0xF8, "RT"),
        (0xFE, "RT"),
        (0xFF, "RT"),
        (0xF4, "unknown"),
        (0x10, "unknown"),
        (0xF0, "sysex"),
    ];
    for (status, port) in table {
        let mut splitter = Splitter::new("s");
        let outputs = run(&mut splitter, vec![status]);
        assert_eq!(outputs.len(), 2);
        assert_eq!(outputs[0], out("*", vec![status]));
        assert_eq!(outputs[1], out(port, vec![status]));
    }
}

#[test]
fn splitter_transport_has_ports_of_its_own() {
    for (status, port) in [(0xFAu8, "start"), (0xFB, "continue"), (0xFC, "stop")] {
        let mut splitter = Splitter::new("s");
        assert_eq!(
            run(&mut splitter, vec![status]),
            vec![out("*", vec![status]), out("RT", vec![status]), out(port, vec![status])]
        );
    }
}

#[test]
fn splitter_channel_ports_count_from_one() {
    for channel in 0u8..16 {
        let mut splitter = Splitter::new("s");
        let outputs = run(&mut splitter, vec![0x90 | channel, 1, 2]);
        assert_eq!(outputs[2].0, (channel as u32 + 1).to_string());
    }
}

#[test]
fn splitter_empty_packet_is_invalid() {
    let mut splitter = Splitter::new("s");
    assert_eq!(run(&mut splitter, vec![]), vec![out("*", vec![]), out("unknown", vec![])]);
}

#[test]
fn splitter_reassembles_sysex_for_each_source_apart() {
    let mut splitter = Splitter::new("s");
    let a = splitter.process(&vec![0xF0, 1], "a", "s", "p", "*");
    assert_eq!(a, vec![out("*", vec![0xF0, 1]), out("sysex", vec![0xF0, 1])]);
    splitter.process(&vec![0xF0, 9], "b", "s", "p", "*");
    // The same device on another port is another source.
    splitter.process(&vec![0xF0, 5], "a", "s", "q", "*");
    let a = splitter.process(&vec![2, 0xF7], "a", "s", "p", "*");
    assert_eq!(
        a,
        vec![
            out("*", vec![2, 0xF7]),
            out("sysex", vec![2, 0xF7]),
            out("*", vec![0xF0, 1, 2, 0xF7]),
            out("unknown", vec![0xF0, 1, 2, 0xF7]),
        ]
    );
    let b = splitter.process(&vec![8, 0xF7], "b", "s", "p", "*");
    assert_eq!(b[2], out("*", vec![0xF0, 9, 8, 0xF7]));
    let q = splitter.process(&vec![6, 0xF7], "a", "s", "q", "*");
    assert_eq!(q[2], out("*", vec![0xF0, 5, 6, 0xF7]));
    // Sources are pairs, not joined names: ("ab", "c") is not ("a", "bc").
    splitter.process(&vec![0xF0, 1], "ab", "s", "c", "*");
    let other = splitter.process(&vec![0x90, 1, 2], "a", "s", "bc", "*");
    assert_eq!(other[1].0, "noteon");
    assert_eq!(splitter.sysex.len(), 5);
}

//! Setting a graph up: from nothing, from the ports that the machine offers,
//! or from the devices and connectors of a saved project.
use vstd::prelude::*;
use crate::delay::Delay;
use crate::device::{Datum, Device, DeviceError};
use crate::hub::{Hub, HubView};
use crate::mapper::Mapper;
use crate::monitor::Monitor;
use crate::splitter::Splitter;
use crate::text::same_text;
use crate::trigger::Trigger;

verus! {

/// The state that the application keeps beside its settings: none so far.
#[derive(Clone, Copy, Debug, PartialEq, Eq, Structural)]
pub struct State {}

impl Default for State {
    fn default() -> (state: State)
        ensures
            state == (State {  }),
    {
        State {  }
    }
}

/// The application's state: the one it holds, or a fresh one where it holds
/// none yet.
pub fn get_state(held: Option<State>) -> (state: State)
    ensures
        state == (State {  }),
{
    match held {
        Some(state) => state,
        None => State::default(),
    }
}

/// Empties the graph for a project without devices.
pub fn new_empty_project(hub: &mut Hub) -> (done: Result<(), DeviceError>)
    ensures
        done is Ok,
        final(hub).wf(),
        final(hub)@ == (HubView { paused: old(hub)@.paused, ..HubView::empty() }),
        final(hub).registry().len() == 0,
{
    hub.destroy();
    Ok(())
}

/// Pauses or resumes the graph.
pub fn set_hub_paused(hub: &mut Hub, paused: bool) -> (done: Result<(), DeviceError>)
    ensures
        done is Ok,
        final(hub)@ == (HubView { paused, ..old(hub)@ }),
        final(hub).registry() == old(hub).registry(),
{
    hub.set_paused(paused);
    Ok(())
}

/// Whether a graph came from `before` to `after` by offering devices of the
/// given ids, one after the other: of all `total` devices where `complete`,
/// of fewer where not.
pub open spec fn filled(
    before: HubView,
    after: HubView,
    ids: Seq<Seq<char>>,
    total: nat,
    complete: bool,
) -> bool {
    &&& after == before.offer_all(ids)
    &&& complete ==> ids.len() == total
    &&& !complete ==> ids.len() < total
}

/// Initialises each of the given devices and registers it, in order, until
/// one fails to initialise. A device whose id is registered already is
/// initialised and dropped.
///
/// The graph is left as it is after the devices before the one that failed
/// were offered, each under the id that it reports; where none fails, all
/// were offered and the result is `Ok`. Without devices there is nothing to
/// fail.
pub fn add_initialized<D: Device + 'static>(hub: &mut Hub, devices: Vec<D>) -> (done: Result<
    (),
    DeviceError,
>)
    requires
        old(hub).wf(),
    ensures
        exists|ids: Seq<Seq<char>>| #[trigger]
            filled(old(hub)@, final(hub)@, ids, devices@.len(), done is Ok),
        devices@.len() == 0 ==> done is Ok && final(hub)@ == old(hub)@,
        final(hub).wf(),
        final(hub)@.connectors == old(hub)@.connectors,
        final(hub)@.paused == old(hub)@.paused,
        old(hub)@.devices.len() <= final(hub)@.devices.len() <= old(hub)@.devices.len()
            + devices@.len(),
        final(hub)@.devices.take(old(hub)@.devices.len() as int) == old(hub)@.devices,
        final(hub).registry().take(old(hub).registry().len() as int) == old(hub).registry(),
{
    let ghost total = devices@.len();
    let mut rest = devices;
    assert(rest@.len() == total);
    let ghost first = hub@.devices;
    let ghost mut ids: Seq<Seq<char>> = Seq::empty();
    assert(first.take(first.len() as int) =~= first);
    assert(hub.registry().take(hub.registry().len() as int) =~= hub.registry());
    while rest.len() > 0
        invariant
            total == devices@.len(),
            ids.len() == total - rest@.len(),
            hub@ == old(hub)@.offer_all(ids),
            hub.wf(),
            hub@.connectors == old(hub)@.connectors,
            hub@.paused == old(hub)@.paused,
            first == old(hub)@.devices,
            rest@.len() <= total,
            first.len() <= hub@.devices.len() <= first.len() + (total - rest@.len()),
            hub@.devices.take(first.len() as int) == first,
            hub.registry().len() >= old(hub).registry().len(),
            hub.registry().take(old(hub).registry().len() as int) == old(hub).registry(),
        decreases rest@.len(),
    {
        let ghost before = hub@.devices;
        let ghost slots = hub.registry();
        let ghost state = hub@;
        let mut device = rest.remove(0);
        match device.init() {
            Ok(_) => {},
            Err(e) => {
                let failed: Result<(), DeviceError> = Err(e);
                assert(filled(old(hub)@, hub@, ids, devices@.len(), failed is Ok));
                return failed;
            },
        }
        let added = hub.add_device(Box::new(device));
        proof {
            let id = choose|id: Seq<char>| #[trigger] state.offered(id, added, hub@);
            let done = ids;
            ids = done.push(id);
            assert(ids.drop_last() =~= done);
        }
        assert(hub@.devices.take(first.len() as int) =~= before.take(first.len() as int));
        assert(hub.registry().take(old(hub).registry().len() as int) =~= slots.take(
            old(hub).registry().len() as int,
        ));
    }
    let done: Result<(), DeviceError> = Ok(());
    assert(filled(old(hub)@, hub@, ids, devices@.len(), done is Ok));
    done
}

/// Starts a project from the ports that the machine offers: empties the
/// graph, then initialises and registers a device for every input port and
/// for every output port, until one fails to initialise.
pub fn new_devices_project<I: Device + 'static, O: Device + 'static>(
    hub: &mut Hub,
    inputs: Vec<I>,
    outputs: Vec<O>,
) -> (done: Result<(), DeviceError>)
    ensures
        final(hub).wf(),
        final(hub)@.connectors.len() == 0,
        final(hub)@.paused == old(hub)@.paused,
        final(hub)@.devices.len() <= inputs@.len() + outputs@.len(),
{
    hub.destroy();
    match add_initialized(hub, inputs) {
        Ok(_) => {},
        Err(e) => {
            return Err(e);
        },
    }
    add_initialized(hub, outputs)
}

pub const CLASS_INPUT: &'static str = "input";

pub const CLASS_OUTPUT: &'static str = "output";

pub const CLASS_VIRTUAL: &'static str = "virtual";

pub const CLASS_NOTE: &'static str = "note";

pub const CLASS_SCRIPT: &'static str = "script";

/// Key of the property under which a script device keeps its code.
pub const KEY_SCRIPT: &'static str = "script";

/// The classes of devices that a project may hold.
#[derive(Clone, Copy, Debug, PartialEq, Eq, Structural)]
pub enum DeviceClass {
    Input,
    Output,
    Virtual,
    Monitor,
    Splitter,
    Mapper,
    Delay,
    Trigger,
    Note,
    Script,
    Unknown,
}

/// The class that a class name stands for.
pub open spec fn device_class_spec(name: Seq<char>) -> DeviceClass {
    if name == CLASS_INPUT@ {
        DeviceClass::Input
    } else if name == CLASS_OUTPUT@ {
        DeviceClass::Output
    } else if name == CLASS_VIRTUAL@ {
        DeviceClass::Virtual
    } else if name == crate::monitor::CLASS_MONITOR@ {
        DeviceClass::Monitor
    } else if name == crate::splitter::CLASS_SPLITTER@ {
        DeviceClass::Splitter
    } else if name == crate::mapper::CLASS_MAPPER@ {
        DeviceClass::Mapper
    } else if name == crate::delay::CLASS_DELAY@ {
        DeviceClass::Delay
    } else if name == crate::trigger::CLASS_TRIGGER@ {
        DeviceClass::Trigger
    } else if name == CLASS_NOTE@ {
        DeviceClass::Note
    } else if name == CLASS_SCRIPT@ {
        DeviceClass::Script
    } else {
        DeviceClass::Unknown
    }
}

/// The class that a class name stands for.
pub fn device_class(name: &str) -> (class: DeviceClass)
    ensures
        class == device_class_spec(name@),
{
    if same_text(name, CLASS_INPUT) {
        DeviceClass::Input
    } else if same_text(name, CLASS_OUTPUT) {
        DeviceClass::Output
    } else if same_text(name, CLASS_VIRTUAL) {
        DeviceClass::Virtual
    } else if same_text(name, crate::monitor::CLASS_MONITOR) {
        DeviceClass::Monitor
    } else if same_text(name, crate::splitter::CLASS_SPLITTER) {
        DeviceClass::Splitter
    } else if same_text(name, crate::mapper::CLASS_MAPPER) {
        DeviceClass::Mapper
    } else if same_text(name, crate::delay::CLASS_DELAY) {
        DeviceClass::Delay
    } else if same_text(name, crate::trigger::CLASS_TRIGGER) {
        DeviceClass::Trigger
    } else if same_text(name, CLASS_NOTE) {
        DeviceClass::Note
    } else if same_text(name, CLASS_SCRIPT) {
        DeviceClass::Script
    } else {
        DeviceClass::Unknown
    }
}

/// The places of the devices of `classes` that are virtual cables where
/// `virtual_ones`, of all others where not, in rising order.
pub open spec fn places_of(classes: Seq<DeviceClass>, virtual_ones: bool) -> Seq<usize>
    decreases classes.len(),
{
    if classes.len() == 0 {
        Seq::empty()
    } else {
        let before = places_of(classes.drop_last(), virtual_ones);
        if (classes.last() == DeviceClass::Virtual) == virtual_ones {
            before.push((classes.len() - 1) as usize)
        } else {
            before
        }
    }
}

/// The order in which the devices of a project are set up: the virtual
/// cables first, then all others, each group in the order of the project.
pub open spec fn load_order_spec(classes: Seq<DeviceClass>) -> Seq<usize> {
    places_of(classes, true) + places_of(classes, false)
}

fn places(classes: &Vec<DeviceClass>, virtual_ones: bool, order: &mut Vec<usize>)
    ensures
        final(order)@ == old(order)@ + places_of(classes@, virtual_ones),
{
    let n = classes.len();
    let mut i: usize = 0;
    assert(classes@.take(0) =~= Seq::empty());
    assert(order@ =~= old(order)@ + Seq::empty());
    while i < n
        invariant
            n == classes@.len(),
            i <= n,
            order@ == old(order)@ + places_of(classes@.take(i as int), virtual_ones),
        decreases n - i,
    {
        assert(classes@.take(i + 1).drop_last() =~= classes@.take(i as int));
        assert(classes@.take(i + 1).last() == classes@[i as int]);
        let is_virtual = match classes[i] {
            DeviceClass::Virtual => true,
            _ => false,
        };
        if is_virtual == virtual_ones {
            let ghost before = order@;
            order.push(i);
            assert(order@ =~= old(order)@ + places_of(classes@.take(i + 1), virtual_ones));
        }
        i += 1;
    }
    assert(classes@.take(n as int) =~= classes@);
}

/// The order in which the devices of a project are set up, as places in the
/// project's list of devices.
pub fn load_order(classes: &Vec<DeviceClass>) -> (order: Vec<usize>)
    ensures
        order@ == load_order_spec(classes@),
{
    let mut order: Vec<usize> = Vec::new();
    places(classes, true, &mut order);
    places(classes, false, &mut order);
    order
}

/// A new device of one of the classes that need nothing outside the graph:
/// monitor, splitter, mapper, delay and trigger. Nothing for any other
/// class.
pub fn core_device(class: DeviceClass, id: &str) -> (device: Option<Box<dyn Device>>)
    ensures
        device is Some <==> (class == DeviceClass::Monitor || class == DeviceClass::Splitter
            || class == DeviceClass::Mapper || class == DeviceClass::Delay || class
            == DeviceClass::Trigger),
{
    match class {
        DeviceClass::Monitor => Some(Box::new(Monitor::new(id))),
        DeviceClass::Splitter => Some(Box::new(Splitter::new(id))),
        DeviceClass::Mapper => Some(Box::new(Mapper::new(id))),
        DeviceClass::Delay => Some(Box::new(Delay::new(id))),
        DeviceClass::Trigger => Some(Box::new(Trigger::new(id))),
        _ => None,
    }
}

/// The key of the property that a device of the given class takes from its
/// saved form when a project is loaded, where it takes one.
pub open spec fn loaded_key_spec(class: DeviceClass) -> Option<Seq<char>> {
    match class {
        DeviceClass::Mapper => Some(crate::mapper::KEY_RULE@),
        DeviceClass::Delay => Some(crate::delay::KEY_DELAY@),
        DeviceClass::Script => Some(KEY_SCRIPT@),
        _ => None,
    }
}

/// The key of the property that a device of the given class takes from its
/// saved form when a project is loaded, where it takes one.
pub fn loaded_key(class: DeviceClass) -> (key: Option<&'static str>)
    ensures
        match key {
            Some(k) => loaded_key_spec(class) == Some(k@),
            None => loaded_key_spec(class) is None,
        },
{
    match class {
        DeviceClass::Mapper => Some(crate::mapper::KEY_RULE),
        DeviceClass::Delay => Some(crate::delay::KEY_DELAY),
        DeviceClass::Script => Some(KEY_SCRIPT),
        _ => None,
    }
}

/// Whether a project holds devices of the class at all: notes and devices of
/// unknown classes are passed over when a project is loaded.
pub open spec fn is_loaded(class: DeviceClass) -> bool {
    class != DeviceClass::Note && class != DeviceClass::Unknown
}

/// Whether the loading of a device of the class cannot fail: the class
/// neither takes a property nor gives up where the device cannot be
/// initialised.
pub open spec fn never_fails(class: DeviceClass) -> bool {
    class == DeviceClass::Input || class == DeviceClass::Output || class == DeviceClass::Monitor
        || class == DeviceClass::Splitter || class == DeviceClass::Trigger || !is_loaded(class)
}

/// Whether the loading of a device of the class can fail in one way only:
/// the device refuses its property.
pub open spec fn fails_by_property(class: DeviceClass) -> bool {
    class == DeviceClass::Mapper || class == DeviceClass::Delay
}

/// Sets one device of a saved project up and registers it, as its class asks:
///
/// - an input or output is initialised and registered; where it cannot be
///   initialised it is destroyed and registered all the same, to be
///   reconnected later;
/// - a virtual cable is initialised and registered, and the loading fails
///   where it cannot be initialised;
/// - a script is initialised, given its code and registered, and the loading
///   fails where either step does;
/// - a mapper or a delay is given its property and registered, and the
///   loading fails where the property is refused;
/// - a monitor, splitter or trigger is registered;
/// - a note or a device of an unknown class is dropped.
///
/// `data` is the property named by [`loaded_key`], for the classes that
/// take one. Returns whether the device was registered: the outcome of
/// offering a device of the id that the device reports, as
/// [`HubView::offered`] says.
pub fn load_device(hub: &mut Hub, class: DeviceClass, device: Box<dyn Device>, data: Option<Datum>) -> (done:
    Result<bool, DeviceError>)
    requires
        old(hub).wf(),
    ensures
        final(hub).wf(),
        final(hub)@.connectors == old(hub)@.connectors,
        final(hub)@.paused == old(hub)@.paused,
        old(hub)@.devices.len() <= final(hub)@.devices.len() <= old(hub)@.devices.len() + 1,
        final(hub)@.devices.take(old(hub)@.devices.len() as int) == old(hub)@.devices,
        final(hub).registry().take(old(hub).registry().len() as int) == old(hub).registry(),
        done matches Ok(true) ==> final(hub)@.devices.len() == old(hub)@.devices.len() + 1,
        !(done matches Ok(true)) ==> final(hub)@ == old(hub)@,
        !is_loaded(class) ==> done == Ok::<bool, DeviceError>(false),
        never_fails(class) ==> done is Ok,
        fails_by_property(class) ==> done is Ok || done matches Err(DeviceError::Serialization(_)),
        is_loaded(class) ==> (done matches Ok(added) ==> exists|id: Seq<char>| #[trigger]
            old(hub)@.offered(id, added, final(hub)@)),
{
    let mut device = device;
    assert(hub@.devices.take(hub@.devices.len() as int) =~= hub@.devices);
    assert(hub.registry().take(hub.registry().len() as int) =~= hub.registry());
    match class {
        DeviceClass::Note => {
            return Ok(false);
        },
        DeviceClass::Unknown => {
            return Ok(false);
        },
        DeviceClass::Input | DeviceClass::Output => {
            match device.init() {
                Ok(_) => {},
                Err(_) => {
                    device.destroy();
                },
            }
        },
        DeviceClass::Virtual => {
            match device.init() {
                Ok(_) => {},
                Err(e) => {
                    return Err(e);
                },
            }
        },
        DeviceClass::Script => {
            match device.init() {
                Ok(_) => {},
                Err(e) => {
                    return Err(e);
                },
            }
        },
        _ => {},
    }
    match loaded_key(class) {
        Some(key) => {
            let value = match data {
                Some(value) => value,
                None => Datum::Text(String::new()),
            };
            match device.set_data(key.to_owned(), value) {
                Ok(_) => {},
                Err(message) => {
                    return Err(DeviceError::Serialization(message));
                },
            }
        },
        None => {},
    }
    let ghost before = hub@.devices;
    let ghost slots = hub.registry();
    let added = hub.add_device(device);
    assert(hub@.devices.take(before.len() as int) =~= before);
    assert(hub.registry().take(slots.len() as int) =~= slots);
    let done: Result<bool, DeviceError> = Ok(added);
    proof {
        let id = choose|id: Seq<char>| #[trigger] old(hub)@.offered(id, added, hub@);
        assert(old(hub)@.offered(id, added, hub@));
        assert(done matches Ok(a) && old(hub)@.offered(id, a, hub@));
    }
    done
}

} // verus!

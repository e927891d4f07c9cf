//! The routing graph: a registry of devices, a set of connectors between
//! their ports, and the dispatch of messages along the connectors.
use vstd::prelude::*;
use crate::device::{Datum, Device, DeviceError, Record};
use crate::globals::is_wildcard;
use crate::globals::is_wildcard_spec;
use crate::text::same_text;

verus! {

/// Separator between the four parts of a connector's id.
pub const ID_SEPARATOR: &'static str = "::";

/// Start of the message with which an operation refuses an unknown device.
pub const MSG_NO_DEVICE: &'static str = "Failed to find device ";

/// Start of the message with which a reconnection refuses an unknown device.
pub const MSG_NOT_FOUND: &'static str = "Device not found ";

/// A message in flight, or the record of one, as a mathematical value.
pub struct EnvelopeView {
    pub ts: u64,
    pub from: Seq<char>,
    pub to: Seq<char>,
    pub from_port: Seq<char>,
    pub to_port: Seq<char>,
    pub bytes: Seq<u8>,
}

/// A message together with its routing envelope: when it was sent, from
/// which port of which device, and to which port of which device.
///
/// The graph publishes one for every dispatch, for whoever watches the
/// traffic, and keeps the messages that wait to be dispatched in this form.
#[derive(Debug)]
pub struct MidiEvent {
    pub ts: u64,
    pub from: String,
    pub to: String,
    pub from_port: String,
    pub to_port: String,
    pub bytes: Vec<u8>,
}

impl View for MidiEvent {
    type V = EnvelopeView;

    open spec fn view(&self) -> EnvelopeView {
        EnvelopeView {
            ts: self.ts,
            from: self.from@,
            to: self.to@,
            from_port: self.from_port@,
            to_port: self.to_port@,
            bytes: self.bytes@,
        }
    }
}

impl DeepView for MidiEvent {
    type V = EnvelopeView;

    open spec fn deep_view(&self) -> EnvelopeView {
        self@
    }
}

impl MidiEvent {
    pub fn new(ts: u64, bytes: &Vec<u8>, from: &str, to: &str, from_port: &str, to_port: &str) -> (event:
        Self)
        ensures
            event@ == (EnvelopeView {
                ts,
                from: from@,
                to: to@,
                from_port: from_port@,
                to_port: to_port@,
                bytes: bytes@,
            }),
    {
        MidiEvent {
            ts,
            from: from.to_owned(),
            to: to.to_owned(),
            from_port: from_port.to_owned(),
            to_port: to_port.to_owned(),
            bytes: bytes.clone(),
        }
    }
}

/// A connector as a mathematical value.
pub struct LinkView {
    pub id: Seq<char>,
    pub from: Seq<char>,
    pub to: Seq<char>,
    pub from_port: Seq<char>,
    pub to_port: Seq<char>,
}

/// The id of the connector between the given ports: the four names, joined
/// by the separator.
pub open spec fn link_id(
    from: Seq<char>,
    to: Seq<char>,
    from_port: Seq<char>,
    to_port: Seq<char>,
) -> Seq<char> {
    from + ID_SEPARATOR@ + to + ID_SEPARATOR@ + from_port + ID_SEPARATOR@ + to_port
}

/// The connector between the given ports.
pub open spec fn link(
    from: Seq<char>,
    to: Seq<char>,
    from_port: Seq<char>,
    to_port: Seq<char>,
) -> LinkView {
    LinkView { id: link_id(from, to, from_port, to_port), from, to, from_port, to_port }
}

impl LinkView {
    /// Whether the id is the one that the four names give.
    pub open spec fn wf(self) -> bool {
        self.id == link_id(self.from, self.to, self.from_port, self.to_port)
    }

    /// Whether the connector joins exactly the given ports.
    pub open spec fn joins(
        self,
        from: Seq<char>,
        to: Seq<char>,
        from_port: Seq<char>,
        to_port: Seq<char>,
    ) -> bool {
        self.from == from && self.to == to && self.from_port == from_port && self.to_port
            == to_port
    }

    /// Whether a message with the given envelope travels along the
    /// connector: source and both ports are those of the connector, and the
    /// destination is the connector's or the wildcard.
    pub open spec fn carries(self, message: EnvelopeView) -> bool {
        &&& self.from == message.from
        &&& is_wildcard_spec(message.to) || self.to == message.to
        &&& self.from_port == message.from_port
        &&& self.to_port == message.to_port
    }

    /// Whether the connector leaves the given port of the given device.
    pub open spec fn leaves(self, device: Seq<char>, port: Seq<char>) -> bool {
        self.from == device && self.from_port == port
    }
}

/// A directed connection from one port of one device to one port of another.
/// It names the devices by id and holds neither of them.
#[derive(Debug)]
pub struct Connector {
    pub id: String,
    pub from: String,
    pub to: String,
    pub from_port: String,
    pub to_port: String,
}

impl View for Connector {
    type V = LinkView;

    open spec fn view(&self) -> LinkView {
        LinkView {
            id: self.id@,
            from: self.from@,
            to: self.to@,
            from_port: self.from_port@,
            to_port: self.to_port@,
        }
    }
}

impl DeepView for Connector {
    type V = LinkView;

    open spec fn deep_view(&self) -> LinkView {
        self@
    }
}

impl Clone for Connector {
    fn clone(&self) -> (copy: Self)
        ensures
            copy@ == self@,
    {
        Connector {
            id: self.id.clone(),
            from: self.from.clone(),
            to: self.to.clone(),
            from_port: self.from_port.clone(),
            to_port: self.to_port.clone(),
        }
    }
}

impl Default for Connector {
    fn default() -> (connector: Self)
        ensures
            connector@ == (LinkView {
                id: Seq::empty(),
                from: Seq::empty(),
                to: Seq::empty(),
                from_port: Seq::empty(),
                to_port: Seq::empty(),
            }),
    {
        Connector {
            id: String::new(),
            from: String::new(),
            to: String::new(),
            from_port: String::new(),
            to_port: String::new(),
        }
    }
}

impl Connector {
    pub fn new(from: &str, to: &str, from_port: &str, to_port: &str) -> (connector: Self)
        ensures
            connector@ == link(from@, to@, from_port@, to_port@),
    {
        let id = from.to_owned().concat(ID_SEPARATOR).concat(to).concat(ID_SEPARATOR).concat(
            from_port,
        ).concat(ID_SEPARATOR).concat(to_port);
        Connector {
            id,
            from: from.to_owned(),
            to: to.to_owned(),
            from_port: from_port.to_owned(),
            to_port: to_port.to_owned(),
        }
    }

    /// Whether the connector joins exactly the given ports.
    pub fn joins(&self, from: &str, to: &str, from_port: &str, to_port: &str) -> (joins: bool)
        ensures
            joins == self@.joins(from@, to@, from_port@, to_port@),
    {
        same_text(self.from.as_str(), from) && same_text(self.to.as_str(), to) && same_text(
            self.from_port.as_str(),
            from_port,
        ) && same_text(self.to_port.as_str(), to_port)
    }

    /// Whether a message with the given envelope travels along the connector.
    pub fn carries(&self, message: &MidiEvent) -> (carries: bool)
        ensures
            carries == self@.carries(message@),
    {
        same_text(self.from.as_str(), message.from.as_str()) && (is_wildcard(message.to.as_str())
            || same_text(self.to.as_str(), message.to.as_str())) && same_text(
            self.from_port.as_str(),
            message.from_port.as_str(),
        ) && same_text(self.to_port.as_str(), message.to_port.as_str())
    }

    /// Whether the connector leaves the given port of the given device.
    pub fn leaves(&self, device: &str, port: &str) -> (leaves: bool)
        ensures
            leaves == self@.leaves(device@, port@),
    {
        same_text(self.from.as_str(), device) && same_text(self.from_port.as_str(), port)
    }
}

/// Whether `i` is the place of the first of `names` that equals `name`.
pub open spec fn is_first(names: Seq<Seq<char>>, name: Seq<char>, i: int) -> bool {
    &&& 0 <= i < names.len()
    &&& names[i] == name
    &&& forall|j: int| 0 <= j < i ==> names[j] != name
}

/// Whether `i` is the place of the first connector that joins the given
/// ports.
pub open spec fn is_first_link(
    links: Seq<LinkView>,
    from: Seq<char>,
    to: Seq<char>,
    from_port: Seq<char>,
    to_port: Seq<char>,
    i: int,
) -> bool {
    &&& 0 <= i < links.len()
    &&& links[i].joins(from, to, from_port, to_port)
    &&& forall|j: int| 0 <= j < i ==> !(#[trigger] links[j]).joins(from, to, from_port, to_port)
}

/// The state of a routing graph as far as routing depends on it: the ids of
/// its devices in the order in which they were added, its connectors in the
/// order in which they were made, and whether it is paused.
pub struct HubView {
    pub devices: Seq<Seq<char>>,
    pub connectors: Seq<LinkView>,
    pub paused: bool,
}

impl HubView {
    /// The graph without devices and connectors, running.
    pub open spec fn empty() -> HubView {
        HubView { devices: Seq::empty(), connectors: Seq::empty(), paused: false }
    }

    /// No id occurs twice among the devices and none among the connectors,
    /// and every connector carries the id that its four names give.
    pub open spec fn wf(self) -> bool {
        &&& forall|i: int, j: int|
            0 <= i < j < self.devices.len() ==> self.devices[i] != self.devices[j]
        &&& forall|i: int, j: int|
            0 <= i < j < self.connectors.len() ==> (#[trigger] self.connectors[i]).id != (
            #[trigger] self.connectors[j]).id
        &&& forall|i: int| 0 <= i < self.connectors.len() ==> (#[trigger] self.connectors[i]).wf()
    }

    /// Whether a device of the given id is registered.
    pub open spec fn has_device(self, id: Seq<char>) -> bool {
        exists|i: int| 0 <= i < self.devices.len() && self.devices[i] == id
    }

    /// The place of the device of the given id.
    pub open spec fn device_index(self, id: Seq<char>) -> int {
        choose|i: int| is_first(self.devices, id, i)
    }

    /// The graph after a device of the given id was offered: added at the
    /// end where the id is new, else as before.
    pub open spec fn add_device(self, id: Seq<char>) -> HubView {
        if self.has_device(id) {
            self
        } else {
            HubView { devices: self.devices.push(id), ..self }
        }
    }

    /// Whether `after` and `added` are what offering a device of the given
    /// id to this graph gives: the device was added exactly where the id was
    /// new, and the graph is the one after the offer.
    pub open spec fn offered(self, id: Seq<char>, added: bool, after: HubView) -> bool {
        added == !self.has_device(id) && after == self.add_device(id)
    }

    /// The graph after devices of the given ids were offered, one after the
    /// other.
    pub open spec fn offer_all(self, ids: Seq<Seq<char>>) -> HubView
        decreases ids.len(),
    {
        if ids.len() == 0 {
            self
        } else {
            self.offer_all(ids.drop_last()).add_device(ids.last())
        }
    }

    /// The graph after the device of the given id was removed: without it
    /// where it was there, else as before.
    pub open spec fn remove_device(self, id: Seq<char>) -> HubView {
        if self.has_device(id) {
            HubView { devices: self.devices.remove(self.device_index(id)), ..self }
        } else {
            self
        }
    }

    /// Whether a connector of the given id is present.
    pub open spec fn has_link_id(self, id: Seq<char>) -> bool {
        exists|i: int| 0 <= i < self.connectors.len() && (#[trigger] self.connectors[i]).id == id
    }

    /// Whether a connector joins exactly the given ports.
    pub open spec fn has_link(
        self,
        from: Seq<char>,
        to: Seq<char>,
        from_port: Seq<char>,
        to_port: Seq<char>,
    ) -> bool {
        exists|i: int|
            0 <= i < self.connectors.len() && (#[trigger] self.connectors[i]).joins(
                from,
                to,
                from_port,
                to_port,
            )
    }

    /// The place of the first connector that joins the given ports.
    pub open spec fn link_index(
        self,
        from: Seq<char>,
        to: Seq<char>,
        from_port: Seq<char>,
        to_port: Seq<char>,
    ) -> int {
        choose|i: int| is_first_link(self.connectors, from, to, from_port, to_port, i)
    }

    /// The graph after a connector between the given ports was asked for:
    /// added at the end where no connector has its id, else as before.
    pub open spec fn connect(
        self,
        from: Seq<char>,
        to: Seq<char>,
        from_port: Seq<char>,
        to_port: Seq<char>,
    ) -> HubView {
        if self.has_link_id(link_id(from, to, from_port, to_port)) {
            self
        } else {
            HubView { connectors: self.connectors.push(link(from, to, from_port, to_port)), ..self }
        }
    }

    /// The graph after the connector between the given ports was taken out:
    /// without the first such connector where there is one, else as before.
    pub open spec fn disconnect(
        self,
        from: Seq<char>,
        to: Seq<char>,
        from_port: Seq<char>,
        to_port: Seq<char>,
    ) -> HubView {
        if self.has_link(from, to, from_port, to_port) {
            HubView {
                connectors: self.connectors.remove(self.link_index(from, to, from_port, to_port)),
                ..self
            }
        } else {
            self
        }
    }
}

impl HubView {
    /// Offering a device keeps a valid graph valid.
    pub proof fn lemma_add_device_wf(self, id: Seq<char>)
        requires
            self.wf(),
        ensures
            self.add_device(id).wf(),
    {
        if !self.has_device(id) {
            let after = self.add_device(id);
            assert forall|i: int, j: int| 0 <= i < j < after.devices.len() implies after.devices[i]
                != after.devices[j] by {
                if j == self.devices.len() {
                    assert(self.devices[i] != id);
                }
            }
        }
    }

    /// Removing a device keeps a valid graph valid.
    pub proof fn lemma_remove_device_wf(self, id: Seq<char>)
        requires
            self.wf(),
        ensures
            self.remove_device(id).wf(),
    {
        if self.has_device(id) {
            let k = self.device_index(id);
            let w = choose|i: int| 0 <= i < self.devices.len() && self.devices[i] == id;
            lemma_first_exists(self.devices, id, w);
            let after = self.remove_device(id);
            assert forall|i: int, j: int| 0 <= i < j < after.devices.len() implies after.devices[i]
                != after.devices[j] by {
                let a = if i < k {
                    i
                } else {
                    i + 1
                };
                let b = if j < k {
                    j
                } else {
                    j + 1
                };
                assert(after.devices[i] == self.devices[a]);
                assert(after.devices[j] == self.devices[b]);
            }
        }
    }

    /// Asking for a connector keeps a valid graph valid.
    pub proof fn lemma_connect_wf(
        self,
        from: Seq<char>,
        to: Seq<char>,
        from_port: Seq<char>,
        to_port: Seq<char>,
    )
        requires
            self.wf(),
        ensures
            self.connect(from, to, from_port, to_port).wf(),
    {
        let id = link_id(from, to, from_port, to_port);
        if !self.has_link_id(id) {
            let after = self.connect(from, to, from_port, to_port);
            assert forall|i: int, j: int| 0 <= i < j < after.connectors.len() implies (
            #[trigger] after.connectors[i]).id != (#[trigger] after.connectors[j]).id by {
                assert(after.connectors[i] == self.connectors[i]);
                if j == self.connectors.len() {
                    assert(self.connectors[i].id != id);
                } else {
                    assert(after.connectors[j] == self.connectors[j]);
                }
            }
            assert forall|i: int| 0 <= i < after.connectors.len() implies (
            #[trigger] after.connectors[i]).wf() by {
                if i < self.connectors.len() {
                    assert(after.connectors[i] == self.connectors[i]);
                }
            }
        }
    }

    /// Taking a connector out keeps a valid graph valid.
    pub proof fn lemma_disconnect_wf(
        self,
        from: Seq<char>,
        to: Seq<char>,
        from_port: Seq<char>,
        to_port: Seq<char>,
    )
        requires
            self.wf(),
        ensures
            self.disconnect(from, to, from_port, to_port).wf(),
    {
        if self.has_link(from, to, from_port, to_port) {
            let k = self.link_index(from, to, from_port, to_port);
            let w = choose|i: int|
                0 <= i < self.connectors.len() && (#[trigger] self.connectors[i]).joins(
                    from,
                    to,
                    from_port,
                    to_port,
                );
            lemma_first_link_exists(self.connectors, from, to, from_port, to_port, w);
            let after = self.disconnect(from, to, from_port, to_port);
            assert forall|i: int| 0 <= i < after.connectors.len() implies (
            #[trigger] after.connectors[i]).wf() by {
                let a = if i < k {
                    i
                } else {
                    i + 1
                };
                assert(after.connectors[i] == self.connectors[a]);
            }
            assert forall|i: int, j: int| 0 <= i < j < after.connectors.len() implies (
            #[trigger] after.connectors[i]).id != (#[trigger] after.connectors[j]).id by {
                let a = if i < k {
                    i
                } else {
                    i + 1
                };
                let b = if j < k {
                    j
                } else {
                    j + 1
                };
                assert(after.connectors[i] == self.connectors[a]);
                assert(after.connectors[j] == self.connectors[b]);
            }
        }
    }
}

impl HubView {
    /// Once a device was offered, its id is registered, and offering a
    /// device of the same id again changes nothing.
    pub proof fn lemma_add_device_twice(self, id: Seq<char>)
        ensures
            self.add_device(id).has_device(id),
            self.add_device(id).add_device(id) == self.add_device(id),
            self.has_device(id) ==> self.add_device(id) == self,
    {
        if !self.has_device(id) {
            let after = self.add_device(id);
            assert(after.devices[self.devices.len() as int] == id);
        }
    }

    /// Once a device was removed, its id is not registered any more, and
    /// removing it again changes nothing.
    pub proof fn lemma_remove_device_twice(self, id: Seq<char>)
        requires
            self.wf(),
        ensures
            !self.remove_device(id).has_device(id),
            self.remove_device(id).remove_device(id) == self.remove_device(id),
            !self.has_device(id) ==> self.remove_device(id) == self,
    {
        if self.has_device(id) {
            let k = self.device_index(id);
            let w = choose|i: int| 0 <= i < self.devices.len() && self.devices[i] == id;
            lemma_first_exists(self.devices, id, w);
            let after = self.remove_device(id);
            assert forall|i: int| 0 <= i < after.devices.len() implies after.devices[i] != id by {
                let a = if i < k {
                    i
                } else {
                    i + 1
                };
                assert(after.devices[i] == self.devices[a]);
            }
        }
    }

    /// Once a connector was asked for, one of its id is present, and asking
    /// for it again changes nothing.
    pub proof fn lemma_connect_twice(
        self,
        from: Seq<char>,
        to: Seq<char>,
        from_port: Seq<char>,
        to_port: Seq<char>,
    )
        ensures
            self.connect(from, to, from_port, to_port).has_link_id(
                link_id(from, to, from_port, to_port),
            ),
            self.connect(from, to, from_port, to_port).connect(from, to, from_port, to_port)
                == self.connect(from, to, from_port, to_port),
    {
        let id = link_id(from, to, from_port, to_port);
        if !self.has_link_id(id) {
            let after = self.connect(from, to, from_port, to_port);
            assert(after.connectors[self.connectors.len() as int].id == id);
        }
    }

    /// Once the connector between given ports was taken out, none joins
    /// these ports any more, and taking it out again changes nothing; taking
    /// out a connector that is not there changes nothing either.
    pub proof fn lemma_disconnect_twice(
        self,
        from: Seq<char>,
        to: Seq<char>,
        from_port: Seq<char>,
        to_port: Seq<char>,
    )
        requires
            self.wf(),
        ensures
            !self.disconnect(from, to, from_port, to_port).has_link(from, to, from_port, to_port),
            self.disconnect(from, to, from_port, to_port).disconnect(from, to, from_port, to_port)
                == self.disconnect(from, to, from_port, to_port),
            !self.has_link(from, to, from_port, to_port) ==> self.disconnect(
                from,
                to,
                from_port,
                to_port,
            ) == self,
    {
        if self.has_link(from, to, from_port, to_port) {
            let w = choose|i: int|
                0 <= i < self.connectors.len() && (#[trigger] self.connectors[i]).joins(
                    from,
                    to,
                    from_port,
                    to_port,
                );
            lemma_first_link_exists(self.connectors, from, to, from_port, to_port, w);
            let k = self.link_index(from, to, from_port, to_port);
            assert(self.connectors[k].wf());
            let after = self.disconnect(from, to, from_port, to_port);
            assert forall|i: int| 0 <= i < after.connectors.len() implies !(
            #[trigger] after.connectors[i]).joins(from, to, from_port, to_port) by {
                let a = if i < k {
                    i
                } else {
                    i + 1
                };
                assert(after.connectors[i] == self.connectors[a]);
                assert(self.connectors[a].wf());
                if self.connectors[a].joins(from, to, from_port, to_port) {
                    assert(self.connectors[a].id == self.connectors[k].id);
                }
            }
        }
    }

    /// A connector that was never made cannot be taken out: where no
    /// connector has the id of the given ports, none joins them. And a
    /// connector that was just made can.
    pub proof fn lemma_disconnect_needs_connect(
        self,
        from: Seq<char>,
        to: Seq<char>,
        from_port: Seq<char>,
        to_port: Seq<char>,
    )
        requires
            self.wf(),
        ensures
            !self.has_link_id(link_id(from, to, from_port, to_port)) ==> !self.has_link(
                from,
                to,
                from_port,
                to_port,
            ),
            !self.has_link_id(link_id(from, to, from_port, to_port)) ==> self.connect(
                from,
                to,
                from_port,
                to_port,
            ).has_link(from, to, from_port, to_port),
            !HubView::empty().has_link(from, to, from_port, to_port),
    {
        let id = link_id(from, to, from_port, to_port);
        if self.has_link(from, to, from_port, to_port) {
            let w = choose|i: int|
                0 <= i < self.connectors.len() && (#[trigger] self.connectors[i]).joins(
                    from,
                    to,
                    from_port,
                    to_port,
                );
            assert(self.connectors[w].wf());
            assert(self.connectors[w].id == id);
        }
        if !self.has_link_id(id) {
            let after = self.connect(from, to, from_port, to_port);
            assert(after.connectors[self.connectors.len() as int].joins(
                from,
                to,
                from_port,
                to_port,
            ));
        }
    }
}

/// Where a name occurs at all, it has a first place.
pub proof fn lemma_first_exists(names: Seq<Seq<char>>, name: Seq<char>, w: int)
    requires
        0 <= w < names.len(),
        names[w] == name,
    ensures
        is_first(names, name, choose|k: int| is_first(names, name, k)),
    decreases w,
{
    if exists|j: int| 0 <= j < w && names[j] == name {
        let j = choose|j: int| 0 <= j < w && names[j] == name;
        lemma_first_exists(names, name, j);
    } else {
        assert(is_first(names, name, w));
    }
}

/// Where a connector joins given ports at all, there is a first that does.
pub proof fn lemma_first_link_exists(
    links: Seq<LinkView>,
    from: Seq<char>,
    to: Seq<char>,
    from_port: Seq<char>,
    to_port: Seq<char>,
    w: int,
)
    requires
        0 <= w < links.len(),
        links[w].joins(from, to, from_port, to_port),
    ensures
        is_first_link(
            links,
            from,
            to,
            from_port,
            to_port,
            choose|k: int| is_first_link(links, from, to, from_port, to_port, k),
        ),
    decreases w,
{
    if exists|j: int| 0 <= j < w && (#[trigger] links[j]).joins(from, to, from_port, to_port) {
        let j = choose|j: int|
            0 <= j < w && (#[trigger] links[j]).joins(from, to, from_port, to_port);
        lemma_first_link_exists(links, from, to, from_port, to_port, j);
    } else {
        assert(is_first_link(links, from, to, from_port, to_port, w));
    }
}

/// A registered device with the id under which it was registered.
pub struct Slot<D: ?Sized> {
    id: String,
    device: Box<D>,
}

/// The routing graph. It owns its devices; its connectors name devices by id
/// only, and may name one that is not, or no longer, registered.
pub struct Hub {
    slots: Vec<Slot<dyn Device>>,
    connectors: Vec<Connector>,
    paused: bool,
}

impl View for Hub {
    type V = HubView;

    closed spec fn view(&self) -> HubView {
        HubView {
            devices: Seq::new(self.slots@.len(), |i: int| self.slots@[i].id@),
            connectors: self.connectors.deep_view(),
            paused: self.paused,
        }
    }
}

impl Hub {
    /// The validity of a graph: that of its state.
    pub open spec fn wf(&self) -> bool {
        self@.wf()
    }

    /// The registry itself: every device as it stands, with its id, in the
    /// order of the ids in the state. Two graphs with equal registries hold
    /// devices in equal states.
    pub closed spec fn registry(&self) -> Seq<Slot<dyn Device>> {
        self.slots@
    }

    /// A graph without devices and connectors, running.
    pub fn new() -> (hub: Self)
        ensures
            hub.wf(),
            hub@ == HubView::empty(),
            hub.registry().len() == 0,
    {
        let hub = Hub { slots: Vec::new(), connectors: Vec::new(), paused: false };
        assert(hub@.devices =~= Seq::empty());
        assert(hub@.connectors =~= Seq::empty());
        hub
    }

    /// Whether the graph is paused.
    pub fn is_paused(&self) -> (paused: bool)
        ensures
            paused == self@.paused,
    {
        self.paused
    }

    /// The number of registered devices.
    pub fn device_count(&self) -> (count: usize)
        ensures
            count == self@.devices.len(),
    {
        self.slots.len()
    }

    /// The number of connectors.
    pub fn connector_count(&self) -> (count: usize)
        ensures
            count == self@.connectors.len(),
    {
        self.connectors.len()
    }

    /// Pauses or resumes the graph.
    pub fn set_paused(&mut self, paused: bool)
        ensures
            final(self)@ == (HubView { paused, ..old(self)@ }),
            final(self).registry() == old(self).registry(),
    {
        self.paused = paused;
        assert(self@.devices =~= old(self)@.devices);
    }

    /// The place of the device of the given id.
    fn find(&self, id: &str) -> (place: Option<usize>)
        ensures
            match place {
                Some(i) => is_first(self@.devices, id@, i as int),
                None => !self@.has_device(id@),
            },
    {
        let n = self.slots.len();
        let mut i: usize = 0;
        while i < n
            invariant
                n == self.slots@.len(),
                i <= n,
                forall|j: int| 0 <= j < i ==> self@.devices[j] != id@,
            decreases n - i,
        {
            if same_text(self.slots[i].id.as_str(), id) {
                return Some(i);
            }
            i += 1;
        }
        None
    }

    /// Whether a device of the given id is registered.
    pub fn has_device(&self, id: &str) -> (found: bool)
        ensures
            found == self@.has_device(id@),
    {
        self.find(id).is_some()
    }

    /// Registers a device under the given id, unless a device of that id is
    /// registered already: then the graph stays as it is, the registered
    /// device stays in place and the offered one is dropped.
    pub fn register(&mut self, id: &str, device: Box<dyn Device>) -> (added: bool)
        requires
            old(self).wf(),
        ensures
            final(self).wf(),
            added == !old(self)@.has_device(id@),
            final(self)@ == old(self)@.add_device(id@),
            added ==> final(self).registry().len() > 0 && final(self).registry().drop_last() == old(self).registry(),
            !added ==> final(self).registry() == old(self).registry(),
    {
        if self.has_device(id) {
            return false;
        }
        let slot = Slot { id: id.to_owned(), device };
        self.slots.push(slot);
        assert(self@.devices =~= old(self)@.devices.push(id@));
        assert(self.registry().drop_last() =~= old(self).registry());
        proof {
            old(self)@.lemma_add_device_wf(id@);
        }
        true
    }

    /// Registers a device under the id that it reports, unless a device of
    /// that id is registered already: then the graph stays as it is, the
    /// registered device stays in place and the offered one is dropped.
    ///
    /// Whatever id the device reports, the outcome is that of offering a
    /// device of that id, as [`HubView::offered`] says; a device offered to
    /// a graph without devices is always added.
    pub fn add_device(&mut self, device: Box<dyn Device>) -> (added: bool)
        requires
            old(self).wf(),
        ensures
            final(self).wf(),
            final(self)@.connectors == old(self)@.connectors,
            final(self)@.paused == old(self)@.paused,
            !added ==> final(self)@ == old(self)@ && final(self).registry() == old(self).registry(),
            added ==> final(self)@.devices.len() == old(self)@.devices.len() + 1,
            added ==> !old(self)@.has_device(final(self)@.devices.last()),
            added ==> final(self)@ == old(self)@.add_device(final(self)@.devices.last()),
            added ==> final(self).registry().len() > 0 && final(self).registry().drop_last() == old(self).registry(),
            exists|id: Seq<char>| #[trigger] old(self)@.offered(id, added, final(self)@),
    {
        let id = device.get_id().to_owned();
        let added = self.register(id.as_str(), device);
        assert(old(self)@.offered(id@, added, self@));
        added
    }

    /// Destroys the device of the given id and takes it out of the registry.
    /// Connectors that name it stay.
    pub fn remove_device(&mut self, id: &str) -> (removed: bool)
        requires
            old(self).wf(),
        ensures
            final(self).wf(),
            removed == old(self)@.has_device(id@),
            final(self)@ == old(self)@.remove_device(id@),
            !removed ==> final(self).registry() == old(self).registry(),
    {
        match self.find(id) {
            Some(i) => {
                proof {
                    lemma_first_unique(self@.devices, id@, i as int);
                }
                self.slots[i].device.destroy();
                assert(self@.devices =~= old(self)@.devices);
                self.slots.remove(i);
                assert(self@.devices =~= old(self)@.devices.remove(i as int));
                proof {
                    old(self)@.lemma_remove_device_wf(id@);
                }
                true
            },
            None => false,
        }
    }

    /// Destroys every device and empties the graph of devices and
    /// connectors. Whether the graph is paused stays as it is.
    pub fn destroy(&mut self)
        ensures
            final(self).wf(),
            final(self)@ == (HubView { paused: old(self)@.paused, ..HubView::empty() }),
            final(self).registry().len() == 0,
    {
        let n = self.slots.len();
        let mut i: usize = 0;
        while i < n
            invariant
                n == self.slots@.len(),
                i <= n,
                self.paused == old(self).paused,
            decreases n - i,
        {
            self.slots[i].device.destroy();
            i += 1;
        }
        self.slots.clear();
        self.connectors.clear();
        assert(self@.devices =~= Seq::empty());
        assert(self@.connectors =~= Seq::empty());
    }

    /// The place of the first connector that joins the given ports.
    fn find_link(&self, from: &str, to: &str, from_port: &str, to_port: &str) -> (place: Option<
        usize,
    >)
        ensures
            match place {
                Some(i) => is_first_link(
                    self@.connectors,
                    from@,
                    to@,
                    from_port@,
                    to_port@,
                    i as int,
                ),
                None => !self@.has_link(from@, to@, from_port@, to_port@),
            },
    {
        let n = self.connectors.len();
        let mut i: usize = 0;
        while i < n
            invariant
                n == self.connectors@.len(),
                n == self@.connectors.len(),
                i <= n,
                forall|j: int|
                    0 <= j < i ==> !(#[trigger] self@.connectors[j]).joins(
                        from@,
                        to@,
                        from_port@,
                        to_port@,
                    ),
            decreases n - i,
        {
            if self.connectors[i].joins(from, to, from_port, to_port) {
                return Some(i);
            }
            i += 1;
        }
        None
    }

    /// Whether a connector of the given id is present.
    fn has_link_id(&self, id: &str) -> (found: bool)
        ensures
            found == self@.has_link_id(id@),
    {
        let n = self.connectors.len();
        let mut i: usize = 0;
        while i < n
            invariant
                n == self.connectors@.len(),
                n == self@.connectors.len(),
                i <= n,
                forall|j: int| 0 <= j < i ==> (#[trigger] self@.connectors[j]).id != id@,
            decreases n - i,
        {
            if same_text(self.connectors[i].id.as_str(), id) {
                assert(self@.connectors[i as int].id == id@);
                return true;
            }
            i += 1;
        }
        false
    }

    /// Adds a connector between the given ports and returns it, unless one
    /// of the same id is present: then the graph stays as it is and nothing
    /// is returned.
    pub fn connect(&mut self, from: &str, to: &str, from_port: &str, to_port: &str) -> (made:
        Option<Connector>)
        requires
            old(self).wf(),
        ensures
            final(self).wf(),
            made is Some <==> !old(self)@.has_link_id(link_id(from@, to@, from_port@, to_port@)),
            made matches Some(c) ==> c@ == link(from@, to@, from_port@, to_port@),
            final(self)@ == old(self)@.connect(from@, to@, from_port@, to_port@),
            final(self).registry() == old(self).registry(),
    {
        let connector = Connector::new(from, to, from_port, to_port);
        if self.has_link_id(connector.id.as_str()) {
            return None;
        }
        self.connectors.push(connector.clone());
        assert(self@.connectors =~= old(self)@.connectors.push(
            link(from@, to@, from_port@, to_port@),
        ));
        assert(self@.devices =~= old(self)@.devices);
        proof {
            old(self)@.lemma_connect_wf(from@, to@, from_port@, to_port@);
        }
        Some(connector)
    }

    /// Takes the connector between the given ports out of the graph.
    pub fn disconnect(&mut self, from: &str, to: &str, from_port: &str, to_port: &str) -> (removed:
        bool)
        requires
            old(self).wf(),
        ensures
            final(self).wf(),
            removed == old(self)@.has_link(from@, to@, from_port@, to_port@),
            final(self)@ == old(self)@.disconnect(from@, to@, from_port@, to_port@),
            final(self).registry() == old(self).registry(),
    {
        match self.find_link(from, to, from_port, to_port) {
            Some(i) => {
                proof {
                    lemma_first_link_unique(
                        self@.connectors,
                        from@,
                        to@,
                        from_port@,
                        to_port@,
                        i as int,
                    );
                }
                self.connectors.remove(i);
                assert(self@.connectors =~= old(self)@.connectors.remove(i as int));
                assert(self@.devices =~= old(self)@.devices);
                proof {
                    old(self)@.lemma_disconnect_wf(from@, to@, from_port@, to_port@);
                }
                true
            },
            None => false,
        }
    }

    /// Destroys the device of the given id and initialises it again, in
    /// place. Fails with `NotFound` where no such device is registered, and
    /// with the device's own error where its initialisation fails.
    pub fn reconnect_device(&mut self, id: &str) -> (done: Result<(), DeviceError>)
        requires
            old(self).wf(),
        ensures
            final(self).wf(),
            final(self)@ == old(self)@,
            !old(self)@.has_device(id@) ==> final(self).registry() == old(self).registry(),
            !old(self)@.has_device(id@) ==> (done matches Err(DeviceError::NotFound(m)) && m@
                == MSG_NOT_FOUND@ + id@),
    {
        match self.find(id) {
            Some(i) => {
                self.slots[i].device.destroy();
                let done = self.slots[i].device.init();
                assert(self@.devices =~= old(self)@.devices);
                done
            },
            None => Err(DeviceError::NotFound(MSG_NOT_FOUND.to_owned().concat(id))),
        }
    }

    /// Writes a property of the device of the given id. Fails where no such
    /// device is registered, and with the device's own message where the
    /// device refuses.
    pub fn set_device_data(&mut self, id: String, key: String, data: Datum) -> (done: Result<
        (),
        String,
    >)
        requires
            old(self).wf(),
        ensures
            final(self).wf(),
            final(self)@ == old(self)@,
            !old(self)@.has_device(id@) ==> final(self).registry() == old(self).registry(),
            !old(self)@.has_device(id@) ==> (done matches Err(m) && m@ == MSG_NO_DEVICE@ + id@),
    {
        match self.find(id.as_str()) {
            Some(i) => {
                let done = self.slots[i].device.set_data(key, data);
                assert(self@.devices =~= old(self)@.devices);
                done
            },
            None => Err(MSG_NO_DEVICE.to_owned().concat(id.as_str())),
        }
    }

    /// Reads a property of the device of the given id. Fails where no such
    /// device is registered, and with the device's own message where the
    /// device refuses.
    pub fn get_device_data(&mut self, id: String, key: String) -> (data: Result<
        Option<Datum>,
        String,
    >)
        requires
            old(self).wf(),
        ensures
            final(self).wf(),
            final(self)@ == old(self)@,
            !old(self)@.has_device(id@) ==> final(self).registry() == old(self).registry(),
            !old(self)@.has_device(id@) ==> (data matches Err(m) && m@ == MSG_NO_DEVICE@ + id@),
    {
        match self.find(id.as_str()) {
            Some(i) => {
                let data = self.slots[i].device.get_data(key);
                assert(self@.devices =~= old(self)@.devices);
                data
            },
            None => Err(MSG_NO_DEVICE.to_owned().concat(id.as_str())),
        }
    }

    /// The persisted form of the device of the given id; nothing where no
    /// such device is registered or the device cannot give one.
    pub fn serialize_device(&self, id: &str) -> (record: Option<Record>)
        ensures
            !self@.has_device(id@) ==> record is None,
    {
        match self.find(id) {
            Some(i) => match self.slots[i].device.serialize() {
                Ok(record) => Some(record),
                Err(_) => None,
            },
            None => None,
        }
    }

    /// The persisted forms of all devices, in the order of the registry, or
    /// the error of the first device that cannot give one. A graph without
    /// devices gives the empty list.
    pub fn serialize_devices(&self) -> (records: Result<Vec<Record>, DeviceError>)
        ensures
            records matches Ok(r) ==> r@.len() == self@.devices.len(),
            self@.devices.len() == 0 ==> records is Ok,
    {
        let mut records: Vec<Record> = Vec::new();
        let n = self.slots.len();
        let mut i: usize = 0;
        while i < n
            invariant
                n == self.slots@.len(),
                i <= n,
                records@.len() == i,
            decreases n - i,
        {
            match self.slots[i].device.serialize() {
                Ok(record) => {
                    records.push(record);
                },
                Err(e) => {
                    return Err(e);
                },
            }
            i += 1;
        }
        Ok(records)
    }

    /// Copies of all connectors, in the order in which they were made.
    pub fn serialize_connectors(&self) -> (copies: Result<Vec<Connector>, DeviceError>)
        ensures
            copies matches Ok(c) && c.deep_view() == self@.connectors,
    {
        let mut copies: Vec<Connector> = Vec::new();
        let n = self.connectors.len();
        let mut i: usize = 0;
        while i < n
            invariant
                n == self.connectors@.len(),
                i <= n,
                copies@.len() == i,
                forall|j: int| 0 <= j < i ==> (#[trigger] copies@[j])@ == self.connectors@[j]@,
            decreases n - i,
        {
            copies.push(self.connectors[i].clone());
            i += 1;
        }
        assert(copies.deep_view() =~= self@.connectors);
        Ok(copies)
    }
}

/// The message that travels along a connector when `bytes` leave its source
/// port at time `ts`.
pub open spec fn along(link: LinkView, ts: u64, bytes: Seq<u8>) -> EnvelopeView {
    EnvelopeView {
        ts,
        from: link.from,
        to: link.to,
        from_port: link.from_port,
        to_port: link.to_port,
        bytes,
    }
}

/// The record of an output that left a port from which no connector leads:
/// it names the device and the port, and no destination.
pub open spec fn unwired(ts: u64, device: Seq<char>, port: Seq<char>, bytes: Seq<u8>) -> EnvelopeView {
    EnvelopeView {
        ts,
        from: device,
        to: Seq::empty(),
        from_port: port,
        to_port: Seq::empty(),
        bytes,
    }
}

/// The messages that an output of `bytes` on port `port` of `device` sends
/// on: one along each connector that leaves that port, in the order of the
/// connectors.
pub open spec fn forwards(
    links: Seq<LinkView>,
    ts: u64,
    device: Seq<char>,
    port: Seq<char>,
    bytes: Seq<u8>,
) -> Seq<EnvelopeView>
    decreases links.len(),
{
    if links.len() == 0 {
        Seq::empty()
    } else {
        let before = forwards(links.drop_last(), ts, device, port, bytes);
        if links.last().leaves(device, port) {
            before.push(along(links.last(), ts, bytes))
        } else {
            before
        }
    }
}

/// What becomes of the outputs of a device: the messages to dispatch next,
/// and the records to publish for outputs that no connector takes.
pub struct FanOut {
    pub queued: Seq<EnvelopeView>,
    pub events: Seq<EnvelopeView>,
}

/// What becomes of one output of a device: it is sent on along every
/// connector that leaves its port, or recorded where there is none.
pub open spec fn fan_out_one(
    links: Seq<LinkView>,
    ts: u64,
    device: Seq<char>,
    output: (Seq<char>, Seq<u8>),
) -> FanOut {
    let sent = forwards(links, ts, device, output.0, output.1);
    if sent.len() == 0 {
        FanOut { queued: Seq::empty(), events: seq![unwired(ts, device, output.0, output.1)] }
    } else {
        FanOut { queued: sent, events: Seq::empty() }
    }
}

/// What becomes of the outputs of a device, output by output.
pub open spec fn fan_out(
    links: Seq<LinkView>,
    ts: u64,
    device: Seq<char>,
    outputs: Seq<(Seq<char>, Seq<u8>)>,
) -> FanOut
    decreases outputs.len(),
{
    if outputs.len() == 0 {
        FanOut { queued: Seq::empty(), events: Seq::empty() }
    } else {
        let before = fan_out(links, ts, device, outputs.drop_last());
        let last = fan_out_one(links, ts, device, outputs.last());
        FanOut { queued: before.queued + last.queued, events: before.events + last.events }
    }
}

impl HubView {
    /// Whether the connector at place `j` hands a message to a device: it
    /// carries the message and its destination is registered.
    pub open spec fn hits(self, message: EnvelopeView, j: int) -> bool {
        self.connectors[j].carries(message) && self.has_device(self.connectors[j].to)
    }

    /// How many of the first `j` connectors hand a message to a device.
    pub open spec fn hit_count(self, message: EnvelopeView, j: int) -> nat
        decreases j,
    {
        if j <= 0 {
            0
        } else if self.hits(message, j - 1) {
            self.hit_count(message, j - 1) + 1
        } else {
            self.hit_count(message, j - 1)
        }
    }

    /// What the delivery of a message along the first `j` connectors sends
    /// on and records, where `visits` holds what each device that received
    /// the message gave back, in the order of the visits: the outputs of the
    /// device at the end of each connector that hands it the message, fanned
    /// out from that device.
    pub open spec fn relay(
        self,
        message: EnvelopeView,
        visits: Seq<Seq<(Seq<char>, Seq<u8>)>>,
        j: int,
    ) -> FanOut
        decreases j,
    {
        if j <= 0 {
            FanOut { queued: Seq::empty(), events: Seq::empty() }
        } else {
            let before = self.relay(message, visits, j - 1);
            if self.hits(message, j - 1) {
                let out = fan_out(
                    self.connectors,
                    message.ts,
                    self.connectors[j - 1].to,
                    visits[self.hit_count(message, j - 1) as int],
                );
                FanOut { queued: before.queued + out.queued, events: before.events + out.events }
            } else {
                before
            }
        }
    }

    /// What the delivery of a message sends on and records: the message's
    /// own envelope first, then what its way along all connectors gives.
    pub open spec fn delivery(
        self,
        message: EnvelopeView,
        visits: Seq<Seq<(Seq<char>, Seq<u8>)>>,
    ) -> FanOut {
        let sent = self.relay(message, visits, self.connectors.len() as int);
        FanOut { queued: sent.queued, events: seq![message] + sent.events }
    }

    /// What the way along the first `j` connectors gives depends on the
    /// visits made along them only.
    pub proof fn lemma_relay_reads_made_visits(
        self,
        message: EnvelopeView,
        visits: Seq<Seq<(Seq<char>, Seq<u8>)>>,
        more: Seq<Seq<(Seq<char>, Seq<u8>)>>,
        j: int,
    )
        requires
            self.hit_count(message, j) <= visits.len(),
        ensures
            self.relay(message, visits + more, j) == self.relay(message, visits, j),
        decreases j,
    {
        if j > 0 {
            self.lemma_relay_reads_made_visits(message, visits, more, j - 1);
            if self.hits(message, j - 1) {
                let k = self.hit_count(message, j - 1) as int;
                assert((visits + more)[k] == visits[k]);
            }
        }
    }
}

/// How far a dispatch has come: the records published so far, and the
/// messages that wait, the next one last.
pub struct Progress {
    pub events: Seq<EnvelopeView>,
    pub stack: Seq<EnvelopeView>,
}

impl HubView {
    /// A dispatch after the delivery of the message that was next, where
    /// `visits` holds what the devices gave back in that delivery: the
    /// delivery's records are published, and what it sends on waits before
    /// everything that waited already, in the order in which it was sent.
    pub open spec fn step(self, at: Progress, visits: Seq<Seq<(Seq<char>, Seq<u8>)>>) -> Progress {
        let done = self.delivery(at.stack.last(), visits);
        Progress {
            events: at.events + done.events,
            stack: at.stack.drop_last() + done.queued.reverse(),
        }
    }

    /// A dispatch of the message `first` after as many deliveries as `log`
    /// has entries, where each entry holds what the devices gave back in one
    /// delivery.
    pub open spec fn progress(
        self,
        first: EnvelopeView,
        log: Seq<Seq<Seq<(Seq<char>, Seq<u8>)>>>,
    ) -> Progress
        decreases log.len(),
    {
        if log.len() == 0 {
            Progress { events: Seq::empty(), stack: seq![first] }
        } else {
            self.step(self.progress(first, log.drop_last()), log.last())
        }
    }

    /// Whether every delivery of `log` took a message that waited and
    /// visited the devices that the message reached.
    pub open spec fn follows(
        self,
        first: EnvelopeView,
        log: Seq<Seq<Seq<(Seq<char>, Seq<u8>)>>>,
    ) -> bool {
        &&& forall|k: int|
            0 <= k < log.len() ==> (#[trigger] self.progress(first, log.take(k))).stack.len() > 0
        &&& forall|k: int|
            0 <= k < log.len() ==> (#[trigger] log[k]).len() == self.hit_count(
                self.progress(first, log.take(k)).stack.last(),
                self.connectors.len() as int,
            )
    }

    /// A record of a dispatch with one more delivery is a record of a
    /// dispatch, and the dispatch has come one step further.
    pub proof fn lemma_log_grows(
        self,
        first: EnvelopeView,
        done: Seq<Seq<Seq<(Seq<char>, Seq<u8>)>>>,
        visits: Seq<Seq<(Seq<char>, Seq<u8>)>>,
    )
        requires
            self.follows(first, done),
            self.progress(first, done).stack.len() > 0,
            visits.len() == self.hit_count(
                self.progress(first, done).stack.last(),
                self.connectors.len() as int,
            ),
        ensures
            self.follows(first, done.push(visits)),
            self.progress(first, done.push(visits)) == self.step(
                self.progress(first, done),
                visits,
            ),
    {
        let log = done.push(visits);
        assert(log.drop_last() =~= done);
        assert(log.take(done.len() as int) =~= done);
        assert forall|k: int| 0 <= k < log.len() implies (#[trigger] self.progress(
            first,
            log.take(k),
        )).stack.len() > 0 by {
            if k < done.len() {
                assert(log.take(k) =~= done.take(k));
            }
        }
        assert forall|k: int| 0 <= k < log.len() implies (#[trigger] log[k]).len()
            == self.hit_count(
            self.progress(first, log.take(k)).stack.last(),
            self.connectors.len() as int,
        ) by {
            if k < done.len() {
                assert(log.take(k) =~= done.take(k));
                assert(log[k] == done[k]);
            }
        }
    }

    /// Whether `log` is the record of a dispatch of `first` within `budget`
    /// deliveries that published `events` and left `pending` waiting: every
    /// delivery but the first took a message that waited, every delivery
    /// visited the devices that its message reached, the dispatch went on
    /// while a message waited and the budget lasted, and `events` and
    /// `pending` are what it had come to when it stopped.
    pub open spec fn explains(
        self,
        first: EnvelopeView,
        budget: nat,
        log: Seq<Seq<Seq<(Seq<char>, Seq<u8>)>>>,
        events: Seq<EnvelopeView>,
        pending: Seq<EnvelopeView>,
    ) -> bool {
        &&& log.len() <= budget
        &&& self.follows(first, log)
        &&& self.progress(first, log).stack.len() == 0 || log.len() == budget
        &&& events == self.progress(first, log).events
        &&& pending == self.progress(first, log).stack.reverse()
    }
}

impl HubView {
    /// Whether a message reaches the device at place `i`: a connector
    /// carries the message to that device's id.
    pub open spec fn reaches(self, message: EnvelopeView, i: int) -> bool {
        exists|j: int|
            0 <= j < self.connectors.len() && (#[trigger] self.connectors[j]).carries(message)
                && self.connectors[j].to == self.devices[i]
    }

    /// Whether a message reaches any registered device.
    pub open spec fn delivers(self, message: EnvelopeView) -> bool {
        exists|i: int| 0 <= i < self.devices.len() && self.reaches(message, i)
    }
}

impl Hub {
    /// Sends the outputs of the device `device` on: each output travels
    /// along every connector that leaves its port and joins `queue` once for
    /// each, and an output on a port that no connector leaves is recorded
    /// in `events`.
    pub fn fan_out(
        &self,
        ts: u64,
        device: &str,
        outputs: &Vec<(String, Vec<u8>)>,
        queue: &mut Vec<MidiEvent>,
        events: &mut Vec<MidiEvent>,
    )
        ensures
            final(queue).deep_view() == old(queue).deep_view() + fan_out(
                self@.connectors,
                ts,
                device@,
                outputs.deep_view(),
            ).queued,
            final(events).deep_view() == old(events).deep_view() + fan_out(
                self@.connectors,
                ts,
                device@,
                outputs.deep_view(),
            ).events,
    {
        let ghost links = self@.connectors;
        let ghost all = outputs.deep_view();
        let n = outputs.len();
        let m = self.connectors.len();
        let mut k: usize = 0;
        assert(all.take(0) =~= Seq::empty());
        assert(queue.deep_view() =~= old(queue).deep_view() + Seq::empty());
        assert(events.deep_view() =~= old(events).deep_view() + Seq::empty());
        while k < n
            invariant
                n == outputs@.len(),
                m == self.connectors@.len(),
                links == self@.connectors,
                all == outputs.deep_view(),
                k <= n,
                queue.deep_view() == old(queue).deep_view() + fan_out(
                    links,
                    ts,
                    device@,
                    all.take(k as int),
                ).queued,
                events.deep_view() == old(events).deep_view() + fan_out(
                    links,
                    ts,
                    device@,
                    all.take(k as int),
                ).events,
            decreases n - k,
        {
            let port = outputs[k].0.as_str();
            let bytes = &outputs[k].1;
            proof {
                crate::device::lemma_output_deep_view(outputs@[k as int]);
                assert(all[k as int] == (port@, bytes@));
                assert(all.take(k + 1).drop_last() =~= all.take(k as int));
                assert(all.take(k + 1).last() == all[k as int]);
            }
            let ghost queue_before = queue.deep_view();
            let ghost events_before = events.deep_view();
            let mut wired = false;
            let mut j: usize = 0;
            assert(links.take(0) =~= Seq::empty());
            assert(queue.deep_view() =~= queue_before + Seq::empty());
            while j < m
                invariant
                    m == self.connectors@.len(),
                    links == self@.connectors,
                    j <= m,
                    queue.deep_view() == queue_before + forwards(
                        links.take(j as int),
                        ts,
                        device@,
                        port@,
                        bytes@,
                    ),
                    wired == (forwards(links.take(j as int), ts, device@, port@, bytes@).len() > 0),
                    events.deep_view() == events_before,
                decreases m - j,
            {
                let connector = &self.connectors[j];
                proof {
                    assert(links[j as int] == connector@);
                    assert(links.take(j + 1).drop_last() =~= links.take(j as int));
                    assert(links.take(j + 1).last() == links[j as int]);
                }
                if connector.leaves(device, port) {
                    wired = true;
                    let ghost sent = queue.deep_view();
                    queue.push(
                        MidiEvent::new(
                            ts,
                            bytes,
                            connector.from.as_str(),
                            connector.to.as_str(),
                            connector.from_port.as_str(),
                            connector.to_port.as_str(),
                        ),
                    );
                    assert(queue.deep_view() =~= sent.push(along(connector@, ts, bytes@)));
                    assert(queue.deep_view() =~= queue_before + forwards(
                        links.take(j + 1),
                        ts,
                        device@,
                        port@,
                        bytes@,
                    ));
                }
                j += 1;
            }
            assert(links.take(m as int) =~= links);
            if !wired {
                events.push(MidiEvent::new(ts, bytes, device, "", port, ""));
                proof {
                    reveal_strlit("");
                    assert(""@ =~= Seq::<char>::empty());
                }
                assert(events.deep_view() =~= events_before.push(
                    unwired(ts, device@, port@, bytes@),
                ));
            }
            proof {
                let before = fan_out(links, ts, device@, all.take(k as int));
                let last = fan_out_one(links, ts, device@, all[k as int]);
                assert(queue.deep_view() =~= old(queue).deep_view() + (before.queued
                    + last.queued));
                assert(events.deep_view() =~= old(events).deep_view() + (before.events
                    + last.events));
            }
            k += 1;
        }
        assert(all.take(n as int) =~= all);
    }

    /// Delivers one message: publishes its envelope, hands it to the device
    /// at the end of every connector that carries it, in the order of the
    /// connectors, and sends each device's outputs on as `fan_out` says. A
    /// connector whose destination is not registered is passed over.
    ///
    /// Returns what each device gave back, in the order of the visits. The
    /// records added to `events` and the messages added to `queue` are those
    /// of [`HubView::delivery`] for these outputs. Whatever the devices do,
    /// the graph's state stays as it is, and a device that the message does
    /// not reach is left as it was.
    pub fn deliver(
        &mut self,
        message: &MidiEvent,
        queue: &mut Vec<MidiEvent>,
        events: &mut Vec<MidiEvent>,
    ) -> (visits: Vec<Vec<(String, Vec<u8>)>>)
        requires
            old(self).wf(),
        ensures
            final(self).wf(),
            final(self)@ == old(self)@,
            final(self).registry().len() == old(self).registry().len(),
            forall|i: int|
                0 <= i < old(self)@.devices.len() && !old(self)@.reaches(message@, i) ==> final(self).registry()[i] == old(self).registry()[i],
            visits.deep_view().len() == old(self)@.hit_count(
                message@,
                old(self)@.connectors.len() as int,
            ),
            final(events).deep_view() == old(events).deep_view() + old(self)@.delivery(
                message@,
                visits.deep_view(),
            ).events,
            final(queue).deep_view() == old(queue).deep_view() + old(self)@.delivery(
                message@,
                visits.deep_view(),
            ).queued,
            !old(self)@.delivers(message@) ==> visits@.len() == 0 && final(events).deep_view()
                == old(events).deep_view().push(message@) && final(queue).deep_view() == old(queue).deep_view() && final(self).registry() == old(self).registry(),
    {
        let ghost state = self@;
        let ghost events_before = events.deep_view();
        let ghost queue_before = queue.deep_view();
        let mut visits: Vec<Vec<(String, Vec<u8>)>> = Vec::new();
        events.push(
            MidiEvent::new(
                message.ts,
                &message.bytes,
                message.from.as_str(),
                message.to.as_str(),
                message.from_port.as_str(),
                message.to_port.as_str(),
            ),
        );
        assert(events.deep_view() =~= events_before + (seq![message@] + Seq::empty()));
        assert(queue.deep_view() =~= queue_before + Seq::empty());
        assert(visits.deep_view() =~= Seq::empty());
        let m = self.connectors.len();
        let mut j: usize = 0;
        while j < m
            invariant
                m == self.connectors@.len(),
                m == state.connectors.len(),
                state == old(self)@,
                self@ == state,
                state.wf(),
                j <= m,
                self.slots@.len() == old(self).slots@.len(),
                forall|i: int|
                    0 <= i < state.devices.len() && (forall|h: int|
                        0 <= h < j ==> !((#[trigger] state.connectors[h]).carries(message@)
                            && state.connectors[h].to == state.devices[i]))
                        ==> self.slots@[i] == old(self).slots@[i],
                visits.deep_view().len() == state.hit_count(message@, j as int),
                visits.deep_view().len() == visits@.len(),
                events.deep_view() == events_before + (seq![message@] + state.relay(
                    message@,
                    visits.deep_view(),
                    j as int,
                ).events),
                queue.deep_view() == queue_before + state.relay(
                    message@,
                    visits.deep_view(),
                    j as int,
                ).queued,
                (forall|h: int| 0 <= h < j ==> !state.hits(message@, h)) ==> visits@.len() == 0
                    && events.deep_view() == events_before.push(message@) && queue.deep_view()
                    == queue_before,
            decreases m - j,
        {
            let ghost slots_before = self.slots@;
            let ghost events_mid = events.deep_view();
            let ghost queue_mid = queue.deep_view();
            let ghost visits_mid = visits.deep_view();
            let ghost sent = state.relay(message@, visits_mid, j as int);
            assert(state.connectors[j as int] == self.connectors@[j as int]@);
            let place = if self.connectors[j].carries(message) {
                self.find(self.connectors[j].to.as_str())
            } else {
                None
            };
            match place {
                Some(k) => {
                    assert(state.hits(message@, j as int));
                    let outputs = self.slots[k].device.process(
                        &message.bytes,
                        message.from.as_str(),
                        message.to.as_str(),
                        message.from_port.as_str(),
                        message.to_port.as_str(),
                    );
                    assert(self@.devices =~= state.devices);
                    assert(forall|i: int|
                        0 <= i < state.devices.len() && i != k ==> self.slots@[i]
                            == slots_before[i]);
                    self.fan_out(message.ts, self.slots[k].id.as_str(), &outputs, queue, events);
                    let ghost given = outputs.deep_view();
                    visits.push(outputs);
                    proof {
                        let out = fan_out(
                            state.connectors,
                            message@.ts,
                            state.connectors[j as int].to,
                            given,
                        );
                        assert(visits.deep_view() =~= visits_mid + seq![given]);
                        state.lemma_relay_reads_made_visits(
                            message@,
                            visits_mid,
                            seq![given],
                            j as int,
                        );
                        assert(visits.deep_view()[state.hit_count(message@, j as int) as int]
                            == given);
                        assert(events.deep_view() =~= events_before + (seq![message@] + (
                        sent.events + out.events)));
                        assert(queue.deep_view() =~= queue_before + (sent.queued + out.queued));
                    }
                },
                None => {
                    assert(!state.hits(message@, j as int));
                },
            }
            j += 1;
        }
        proof {
            assert forall|i: int|
                0 <= i < state.devices.len() && !state.reaches(message@, i) implies self.slots@[i]
                == old(self).slots@[i] by {
                assert forall|h: int| 0 <= h < m implies !((#[trigger] state.connectors[h]).carries(
                    message@,
                ) && state.connectors[h].to == state.devices[i]) by {}
            }
            if !state.delivers(message@) {
                assert forall|h: int| 0 <= h < m implies !state.hits(message@, h) by {
                    if state.hits(message@, h) {
                        let i = choose|i: int|
                            0 <= i < state.devices.len() && state.devices[i]
                                == state.connectors[h].to;
                        assert(state.reaches(message@, i));
                    }
                }
                assert forall|i: int| 0 <= i < state.devices.len() implies self.slots@[i] == old(self).slots@[i] by {
                    assert(!state.reaches(message@, i));
                }
                assert(self.registry() =~= old(self).registry());
            }
        }
        visits
    }
}

/// The envelope of a dispatch call.
pub open spec fn envelope(
    ts: u64,
    bytes: Seq<u8>,
    from: Seq<char>,
    to: Seq<char>,
    from_port: Seq<char>,
    to_port: Seq<char>,
) -> EnvelopeView {
    EnvelopeView { ts, from, to, from_port, to_port, bytes }
}

/// What a dispatch did: the records it published, in order, and the
/// messages that were still waiting when its budget ran out, the next one
/// first. A dispatch that ran to its end leaves none waiting.
#[derive(Debug)]
pub struct Dispatched {
    pub events: Vec<MidiEvent>,
    pub pending: Vec<MidiEvent>,
}

/// Moves the messages of `queue` onto `stack`, the last one first, so that
/// the first of the queue comes to lie on top.
pub fn stack_up(queue: Vec<MidiEvent>, stack: &mut Vec<MidiEvent>)
    ensures
        final(stack).deep_view() == old(stack).deep_view() + queue.deep_view().reverse(),
{
    let mut queue = queue;
    let ghost all = queue.deep_view();
    assert(stack.deep_view() =~= old(stack).deep_view() + all.subrange(
        all.len() as int,
        all.len() as int,
    ).reverse());
    while queue.len() > 0
        invariant
            queue.deep_view() == all.take(queue@.len() as int),
            queue@.len() <= all.len(),
            stack.deep_view() == old(stack).deep_view() + all.subrange(
                queue@.len() as int,
                all.len() as int,
            ).reverse(),
        decreases queue@.len(),
    {
        let ghost n = queue@.len() as int;
        let ghost stacked = stack.deep_view();
        let ghost waiting = queue.deep_view();
        match queue.pop() {
            Some(message) => {
                assert(message@ == waiting[n - 1]);
                stack.push(message);
                assert(queue.deep_view() =~= all.take(n - 1));
                assert(stack.deep_view() =~= stacked.push(all[n - 1]));
                assert(all.subrange(n - 1, all.len() as int).reverse() =~= all.subrange(
                    n,
                    all.len() as int,
                ).reverse().push(all[n - 1]));
                assert(stack.deep_view() =~= old(stack).deep_view() + all.subrange(
                    n - 1,
                    all.len() as int,
                ).reverse());
            },
            None => {},
        }
    }
    assert(all.subrange(0, all.len() as int) =~= all);
}

impl Hub {
    /// Dispatches a message through the graph, delivering at most `budget`
    /// messages.
    ///
    /// A paused graph does nothing. Else the message is delivered as
    /// [`Hub::deliver`] says, then every message that the delivery sent on
    /// is dispatched in the same way, depth first: what a message causes is
    /// dispatched in full before the message that waited beside it. Nothing
    /// guards against connectors that form a cycle: on such a graph the
    /// dispatch goes on until the budget is used up, and reports the
    /// messages it did not deliver.
    ///
    /// What is published and what is left waiting is what
    /// [`HubView::progress`] gives for the outputs that the devices gave
    /// back, delivery by delivery.
    pub fn process_within(
        &mut self,
        budget: usize,
        ts: u64,
        bytes: &Vec<u8>,
        from: &str,
        to: &str,
        from_port: &str,
        to_port: &str,
    ) -> (outcome: Dispatched)
        requires
            old(self).wf(),
        ensures
            final(self).wf(),
            final(self)@ == old(self)@,
            final(self).registry().len() == old(self).registry().len(),
            old(self)@.paused ==> final(self).registry() == old(self).registry()
                && outcome.events@.len() == 0 && outcome.pending@.len() == 0,
            !old(self)@.paused ==> exists|log: Seq<Seq<Seq<(Seq<char>, Seq<u8>)>>>|
                #[trigger] old(self)@.explains(
                    envelope(ts, bytes@, from@, to@, from_port@, to_port@),
                    budget as nat,
                    log,
                    outcome.events.deep_view(),
                    outcome.pending.deep_view(),
                ),
            !old(self)@.paused && budget == 0 ==> final(self).registry() == old(self).registry()
                && outcome.events@.len() == 0 && outcome.pending.deep_view() == seq![
                envelope(ts, bytes@, from@, to@, from_port@, to_port@),
            ],
            !old(self)@.paused && budget > 0 ==> outcome.events@.len() >= 1
                && outcome.events.deep_view()[0] == envelope(
                ts,
                bytes@,
                from@,
                to@,
                from_port@,
                to_port@,
            ),
            !old(self)@.paused && budget > 0 && !old(self)@.delivers(
                envelope(ts, bytes@, from@, to@, from_port@, to_port@),
            ) ==> final(self).registry() == old(self).registry() && outcome.events.deep_view()
                == seq![envelope(ts, bytes@, from@, to@, from_port@, to_port@)]
                && outcome.pending@.len() == 0,
    {
        let ghost first = envelope(ts, bytes@, from@, to@, from_port@, to_port@);
        let ghost state = self@;
        let mut events: Vec<MidiEvent> = Vec::new();
        let mut pending: Vec<MidiEvent> = Vec::new();
        if self.paused {
            return Dispatched { events, pending };
        }
        let mut stack: Vec<MidiEvent> = Vec::new();
        stack.push(MidiEvent::new(ts, bytes, from, to, from_port, to_port));
        let ghost mut log: Seq<Seq<Seq<(Seq<char>, Seq<u8>)>>> = Seq::empty();
        assert(stack.deep_view() =~= seq![first]);
        assert(events.deep_view() =~= Seq::empty());
        let mut left: usize = budget;
        while stack.len() > 0 && left > 0
            invariant
                state == old(self)@,
                self@ == state,
                state.wf(),
                self.registry().len() == old(self).registry().len(),
                left <= budget,
                log.len() == budget - left,
                stack.deep_view().len() == stack@.len(),
                events.deep_view().len() == events@.len(),
                events.deep_view() == state.progress(first, log).events,
                stack.deep_view() == state.progress(first, log).stack,
                state.follows(first, log),
                log.len() == 0 ==> self.registry() == old(self).registry(),
                log.len() >= 1 ==> events.deep_view().len() >= 1 && events.deep_view()[0] == first,
                log.len() >= 1 && !state.delivers(first) ==> self.registry() == old(self).registry() && events.deep_view() == seq![first] && stack@.len() == 0,
            decreases left,
        {
            let ghost published = events.deep_view();
            let ghost waiting = stack.deep_view();
            let ghost done = log;
            match stack.pop() {
                Some(next) => {
                    assert(next@ == waiting.last());
                    assert(stack.deep_view() =~= waiting.drop_last());
                    let mut queue: Vec<MidiEvent> = Vec::new();
                    assert(queue.deep_view() =~= Seq::empty());
                    let visits = self.deliver(&next, &mut queue, &mut events);
                    let ghost sent = state.delivery(next@, visits.deep_view());
                    assert(queue.deep_view() =~= sent.queued);
                    stack_up(queue, &mut stack);
                    proof {
                        log = done.push(visits.deep_view());
                        state.lemma_log_grows(first, done, visits.deep_view());
                        if done.len() == 0 {
                            assert(waiting =~= seq![first]);
                            assert(published =~= Seq::<EnvelopeView>::empty());
                            assert(events.deep_view()[0] == sent.events[0]);
                            if !state.delivers(first) {
                                assert(events.deep_view() =~= seq![first]);
                                assert(stack.deep_view() =~= Seq::<EnvelopeView>::empty());
                            }
                        } else {
                            assert(events.deep_view()[0] == published[0]);
                        }
                    }
                },
                None => {},
            }
            left -= 1;
        }
        let ghost stopped = stack.deep_view();
        assert(pending.deep_view() =~= Seq::empty());
        stack_up(stack, &mut pending);
        proof {
            assert(pending.deep_view() =~= stopped.reverse());
            assert(state.explains(first, budget as nat, log, events.deep_view(), pending.deep_view()));
            if budget == 0 {
                assert(pending.deep_view() =~= seq![first]);
            }
        }
        let outcome = Dispatched { events, pending };
        assert(old(self)@.explains(
            envelope(ts, bytes@, from@, to@, from_port@, to_port@),
            budget as nat,
            log,
            outcome.events.deep_view(),
            outcome.pending.deep_view(),
        ));
        outcome
    }

    /// Dispatches a message through the graph and returns the records that
    /// the dispatch published, in order.
    ///
    /// This is [`Hub::process_within`] with the largest budget there is.
    pub fn process(
        &mut self,
        ts: u64,
        bytes: &Vec<u8>,
        from: &str,
        to: &str,
        from_port: &str,
        to_port: &str,
    ) -> (events: Vec<MidiEvent>)
        requires
            old(self).wf(),
        ensures
            final(self).wf(),
            final(self)@ == old(self)@,
            final(self).registry().len() == old(self).registry().len(),
            old(self)@.paused ==> final(self).registry() == old(self).registry() && events@.len()
                == 0,
            !old(self)@.paused ==> exists|
                log: Seq<Seq<Seq<(Seq<char>, Seq<u8>)>>>,
                pending: Seq<EnvelopeView>,
            |
                #[trigger] old(self)@.explains(
                    envelope(ts, bytes@, from@, to@, from_port@, to_port@),
                    usize::MAX as nat,
                    log,
                    events.deep_view(),
                    pending,
                ),
            !old(self)@.paused ==> events@.len() >= 1 && events.deep_view()[0] == envelope(
                ts,
                bytes@,
                from@,
                to@,
                from_port@,
                to_port@,
            ),
            !old(self)@.paused && !old(self)@.delivers(
                envelope(ts, bytes@, from@, to@, from_port@, to_port@),
            ) ==> final(self).registry() == old(self).registry() && events.deep_view() == seq![
                envelope(ts, bytes@, from@, to@, from_port@, to_port@),
            ],
    {
        let outcome = self.process_within(usize::MAX, ts, bytes, from, to, from_port, to_port);
        outcome.events
    }
}

/// The first place of a name is the place that `choose` finds for it.
pub proof fn lemma_first_unique(names: Seq<Seq<char>>, name: Seq<char>, i: int)
    requires
        is_first(names, name, i),
    ensures
        (choose|k: int| is_first(names, name, k)) == i,
{
    let k = choose|k: int| is_first(names, name, k);
    if k < i {
        assert(names[k] != name);
    }
    if i < k {
        assert(names[i] != name);
    }
}

/// The first place of a connector between given ports is the place that
/// `choose` finds for it.
pub proof fn lemma_first_link_unique(
    links: Seq<LinkView>,
    from: Seq<char>,
    to: Seq<char>,
    from_port: Seq<char>,
    to_port: Seq<char>,
    i: int,
)
    requires
        is_first_link(links, from, to, from_port, to_port, i),
    ensures
        (choose|k: int| is_first_link(links, from, to, from_port, to_port, k)) == i,
{
    let k = choose|k: int| is_first_link(links, from, to, from_port, to_port, k);
    if k < i {
        assert(!links[k].joins(from, to, from_port, to_port));
    }
    if i < k {
        assert(!links[i].joins(from, to, from_port, to_port));
    }
}

} // verus!

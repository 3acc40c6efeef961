use vstd::prelude::*;

use crate::bytes::{copy_range, le16};
use crate::control::Speed;
use crate::descriptors::{
    lemma_interface_first_descriptor, lemma_interfaces_sorted_and_complete,
    config_descriptor_len, device_descriptor_len, group_views, interface_descriptors_from,
    interface_groups, validate_config_descriptor, validate_device_descriptor, Configuration,
    DeviceDescriptor, InterfaceGroup,
};
use crate::paths::{file_name, pairs_map, path_file_name, DevicePaths};
use crate::text::{decimal, text, zero_padded, zero_padded_decimal};

verus! {

/// The value of a device-tree property, as the walk reads it.
#[derive(Debug)]
pub enum PropVal {
    String(String),
    Bytes(Vec<u8>),
    Integer(i64),
    Boolean,
    /// A property of another type; the text names the type.
    Unknown(String),
}

/// The view of a `PropVal`.
pub enum PropValView {
    String(Seq<char>),
    Bytes(Seq<u8>),
    Integer(i64),
    Boolean,
    Unknown(Seq<char>),
}

impl View for PropVal {
    type V = PropValView;

    open spec fn view(&self) -> PropValView {
        match self {
            PropVal::String(s) => PropValView::String(s@),
            PropVal::Bytes(b) => PropValView::Bytes(b@),
            PropVal::Integer(i) => PropValView::Integer(*i),
            PropVal::Boolean => PropValView::Boolean,
            PropVal::Unknown(t) => PropValView::Unknown(t@),
        }
    }
}

impl PropVal {
    /// A copy of the value.
    pub fn duplicate(&self) -> (r: PropVal)
        ensures
            r@ == self@,
    {
        match self {
            PropVal::String(s) => PropVal::String(s.clone()),
            PropVal::Bytes(b) => {
                let c = copy_range(b.as_slice(), 0, b.len());
                assert(c@ =~= b@);
                PropVal::Bytes(c)
            },
            PropVal::Integer(i) => PropVal::Integer(*i),
            PropVal::Boolean => PropVal::Boolean,
            PropVal::Unknown(t) => PropVal::Unknown(t.clone()),
        }
    }
}

/// The view of an optional property value.
pub open spec fn opt_prop_view(v: Option<PropVal>) -> Option<PropValView> {
    match v {
        Some(p) => Some(p@),
        None => None,
    }
}

fn duplicate_opt(v: Option<&PropVal>) -> (r: Option<PropVal>)
    ensures
        opt_prop_view(r) == match v {
            Some(p) => Some(p@),
            None => None::<PropValView>,
        },
{
    match v {
        Some(p) => Some(p.duplicate()),
        None => None,
    }
}

/// One node of the device tree, in the order of the walk, with what the
/// enumeration reads of it.
pub struct DevNode {
    /// The devfs path of the node.
    pub path: String,
    /// The depth of the node in the tree.
    pub depth: u32,
    /// The name of the driver bound to the node, if any.
    pub driver_name: Option<String>,
    /// The properties of the node, in the order in which they were read.
    pub props: Vec<(String, PropVal)>,
    /// The paths of the links of the node's minor nodes, in the order in which they were read.
    pub links: Vec<String>,
    /// The error that stopped the reading of the minor nodes and their links, if one did.
    pub links_error: Option<String>,
}

/// The value of the property `name`: the last one of that name that was read.
pub open spec fn prop_lookup(props: Seq<(String, PropVal)>, name: Seq<char>) -> Option<PropValView>
    decreases props.len(),
{
    if props.len() == 0 {
        None
    } else if props.last().0@ == name {
        Some(props.last().1@)
    } else {
        prop_lookup(props.drop_last(), name)
    }
}

/// Looks up the property `name`.
pub fn find_prop<'a>(props: &'a Vec<(String, PropVal)>, name: &String) -> (r: Option<&'a PropVal>)
    ensures
        match r {
            Some(p) => prop_lookup(props@, name@) == Some(p@),
            None => prop_lookup(props@, name@) is None,
        },
{
    let mut i: usize = props.len();
    assert(props@.take(i as int) =~= props@);
    while i > 0
        invariant
            i <= props@.len(),
            prop_lookup(props@, name@) == prop_lookup(props@.take(i as int), name@),
        decreases i,
    {
        let ghost t = props@.take(i as int);
        assert(t.drop_last() =~= props@.take(i - 1));
        assert(t.last() == props@[i - 1]);
        if props[i - 1].0 == *name {
            return Some(&props[i - 1].1);
        }
        i = i - 1;
    }
    None
}

/// A hub on the way from the root hub to the node being walked.
#[derive(Clone, Copy, Debug, PartialEq, Eq, Structural)]
pub struct Hub {
    pub depth: u32,
    pub port: u8,
}

/// The hubs that are still ancestors of a node at `depth`: those deeper than
/// or as deep as it come off the top of the stack.
pub open spec fn pop_hubs(hubs: Seq<Hub>, depth: u32) -> Seq<Hub>
    decreases hubs.len(),
{
    if hubs.len() > 0 && hubs.last().depth >= depth {
        pop_hubs(hubs.drop_last(), depth)
    } else {
        hubs
    }
}

/// The ports of a sequence of hubs.
pub open spec fn hub_ports(hubs: Seq<Hub>) -> Seq<u8> {
    hubs.map_values(|h: Hub| h.port)
}

/// The devfs path of a device node, and the links of its minor nodes.
#[derive(Clone, Debug)]
pub struct DevfsPath {
    pub path: String,
    pub device_paths: DevicePaths,
}

/// The view of a `DevfsPath`.
pub struct DevfsPathView {
    pub path: Seq<char>,
    pub device_paths: Map<Seq<char>, Seq<char>>,
}

impl View for DevfsPath {
    type V = DevfsPathView;

    open spec fn view(&self) -> DevfsPathView {
        DevfsPathView { path: self.path@, device_paths: self.device_paths@ }
    }
}

/// What the enumeration reports of a USB interface.
#[derive(Clone, Debug)]
pub struct InterfaceInfo {
    pub interface_number: u8,
    pub class: u8,
    pub subclass: u8,
    pub protocol: u8,
    pub interface_string: Option<String>,
}

/// The view of an `InterfaceInfo`.
pub struct InterfaceInfoView {
    pub interface_number: u8,
    pub class: u8,
    pub subclass: u8,
    pub protocol: u8,
    pub interface_string: Option<Seq<char>>,
}

impl View for InterfaceInfo {
    type V = InterfaceInfoView;

    open spec fn view(&self) -> InterfaceInfoView {
        InterfaceInfoView {
            interface_number: self.interface_number,
            class: self.class,
            subclass: self.subclass,
            protocol: self.protocol,
            interface_string: match self.interface_string {
                Some(s) => Some(s@),
                None => None,
            },
        }
    }
}

/// The views of a sequence of interface infos.
pub open spec fn interface_info_views(v: Seq<InterfaceInfo>) -> Seq<InterfaceInfoView> {
    v.map_values(|i: InterfaceInfo| i@)
}

/// The interface info of an interface group: its number, and the class,
/// subclass and protocol of its first alternate setting.
pub open spec fn interface_info_of(g: (u8, Seq<Seq<u8>>)) -> InterfaceInfoView {
    InterfaceInfoView {
        interface_number: g.0,
        class: g.1[0][5],
        subclass: g.1[0][6],
        protocol: g.1[0][7],
        interface_string: None,
    }
}

/// The interfaces that the configuration descriptors `cfg` describe.
pub open spec fn config_interfaces(cfg: Seq<u8>) -> Seq<InterfaceInfoView> {
    let total = config_descriptor_len(cfg)->0;
    interface_groups(interface_descriptors_from(cfg.take(total as int), 0), 256).map_values(
        |g: (u8, Seq<Seq<u8>>)| interface_info_of(g),
    )
}

/// Lists the interfaces of the configuration at the start of `cfg`.
pub fn interfaces_of_config(cfg: &[u8]) -> (r: Vec<InterfaceInfo>)
    requires
        config_descriptor_len(cfg@) is Some,
    ensures
        interface_info_views(r@) == config_interfaces(cfg@),
{
    let c = Configuration::new(cfg);
    let groups = c.interfaces();
    let ghost gv = group_views(groups@);
    let mut r: Vec<InterfaceInfo> = Vec::new();
    let mut i: usize = 0;
    while i < groups.len()
        invariant
            i <= groups@.len(),
            gv == group_views(groups@),
            interface_info_views(r@) == gv.take(i as int).map_values(
                |g: (u8, Seq<Seq<u8>>)| interface_info_of(g),
            ),
        decreases groups@.len() - i,
    {
        let g: &InterfaceGroup = &groups[i];
        let alt = g.first_alt_setting();
        let info = InterfaceInfo {
            interface_number: g.interface_number(),
            class: alt.class(),
            subclass: alt.subclass(),
            protocol: alt.protocol(),
            interface_string: None,
        };
        let ghost prev = r@;
        let ghost iv = info@;
        r.push(info);
        assert(gv[i as int] == g@);
        assert(interface_info_of(gv[i as int]) == iv);
        assert(interface_info_views(r@) =~= interface_info_views(prev).push(iv));
        assert(gv.take(i + 1).map_values(|g: (u8, Seq<Seq<u8>>)| interface_info_of(g))
            =~= gv.take(i as int).map_values(|g: (u8, Seq<Seq<u8>>)| interface_info_of(g)).push(
            interface_info_of(gv[i as int]),
        ));
        assert(interface_info_views(r@) =~= gv.take(i + 1).map_values(
            |g: (u8, Seq<Seq<u8>>)| interface_info_of(g),
        ));
        i = i + 1;
    }
    assert(gv.take(groups@.len() as int) =~= gv);
    r
}

/// What the enumeration reports of a USB device.
#[derive(Clone, Debug)]
pub struct DeviceInfo {
    pub path: DevfsPath,
    pub bus_id: String,
    pub device_address: u8,
    pub port_chain: Vec<u8>,
    pub vendor_id: u16,
    pub product_id: u16,
    pub device_version: u16,
    pub class: u8,
    pub subclass: u8,
    pub protocol: u8,
    pub max_packet_size_0: u8,
    pub speed: Option<Speed>,
    pub manufacturer_string: Option<String>,
    pub product_string: Option<String>,
    pub serial_number: Option<String>,
    pub interfaces: Vec<InterfaceInfo>,
}

/// The view of a `DeviceInfo`.
pub struct DeviceInfoView {
    pub path: DevfsPathView,
    pub bus_id: Seq<char>,
    pub device_address: u8,
    pub port_chain: Seq<u8>,
    pub vendor_id: u16,
    pub product_id: u16,
    pub device_version: u16,
    pub class: u8,
    pub subclass: u8,
    pub protocol: u8,
    pub max_packet_size_0: u8,
    pub speed: Option<Speed>,
    pub manufacturer_string: Option<Seq<char>>,
    pub product_string: Option<Seq<char>>,
    pub serial_number: Option<Seq<char>>,
    pub interfaces: Seq<InterfaceInfoView>,
}

/// The view of an optional string.
pub open spec fn opt_text(s: Option<String>) -> Option<Seq<char>> {
    match s {
        Some(t) => Some(t@),
        None => None,
    }
}

impl View for DeviceInfo {
    type V = DeviceInfoView;

    open spec fn view(&self) -> DeviceInfoView {
        DeviceInfoView {
            path: self.path@,
            bus_id: self.bus_id@,
            device_address: self.device_address,
            port_chain: self.port_chain@,
            vendor_id: self.vendor_id,
            product_id: self.product_id,
            device_version: self.device_version,
            class: self.class,
            subclass: self.subclass,
            protocol: self.protocol,
            max_packet_size_0: self.max_packet_size_0,
            speed: self.speed,
            manufacturer_string: opt_text(self.manufacturer_string),
            product_string: opt_text(self.product_string),
            serial_number: opt_text(self.serial_number),
            interfaces: interface_info_views(self.interfaces@),
        }
    }
}

/// The views of a sequence of device infos.
pub open spec fn device_info_views(v: Seq<DeviceInfo>) -> Seq<DeviceInfoView> {
    v.map_values(|d: DeviceInfo| d@)
}


/// Why the walk over the device tree stopped; each names the devfs path of
/// the node at which it stopped.
#[derive(Debug)]
#[allow(inconsistent_fields)]
pub enum EnumerationError {
    /// `reg` is there but is not an integer.
    UnexpectedReg { path: String, value: PropVal },
    /// `assigned-address` is missing, not an integer, or not below 255.
    BadAssignedAddress { path: String, value: Option<PropVal> },
    /// `usb-vendor-name` is there but is not a string.
    BadVendorName { path: String, value: PropVal },
    /// `usb-product-name` is there but is not a string.
    BadProductName { path: String, value: PropVal },
    /// `usb-serialno` is there but is not a string.
    BadSerialNumber { path: String, value: PropVal },
    /// A device comes before any root hub.
    NoRootPort { path: String },
    /// `usb-dev-descriptor` does not hold a valid device descriptor.
    InvalidDeviceDescriptor { path: String },
    /// `usb-raw-cfg-descriptors` does not hold a valid configuration descriptor.
    BadConfig { path: String, config: Vec<u8> },
    /// `usb-raw-cfg-descriptors` is missing or does not hold bytes.
    BadConfigDescriptors { path: String, value: Option<PropVal> },
    /// A link of a minor node has no file name.
    BadLinkPath { path: String, link: String },
    /// Reading the minor nodes or their links failed.
    DeviceTree { path: String, message: String },
}

/// The view of an `EnumerationError`.
#[allow(inconsistent_fields)]
pub enum EnumerationErrorView {
    UnexpectedReg { path: Seq<char>, value: PropValView },
    BadAssignedAddress { path: Seq<char>, value: Option<PropValView> },
    BadVendorName { path: Seq<char>, value: PropValView },
    BadProductName { path: Seq<char>, value: PropValView },
    BadSerialNumber { path: Seq<char>, value: PropValView },
    NoRootPort { path: Seq<char> },
    InvalidDeviceDescriptor { path: Seq<char> },
    BadConfig { path: Seq<char>, config: Seq<u8> },
    BadConfigDescriptors { path: Seq<char>, value: Option<PropValView> },
    BadLinkPath { path: Seq<char>, link: Seq<char> },
    DeviceTree { path: Seq<char>, message: Seq<char> },
}

impl View for EnumerationError {
    type V = EnumerationErrorView;

    open spec fn view(&self) -> EnumerationErrorView {
        match self {
            EnumerationError::UnexpectedReg { path, value } => EnumerationErrorView::UnexpectedReg {
                path: path@,
                value: value@,
            },
            EnumerationError::BadAssignedAddress { path, value } =>
                EnumerationErrorView::BadAssignedAddress { path: path@, value: opt_prop_view(*value) },
            EnumerationError::BadVendorName { path, value } => EnumerationErrorView::BadVendorName {
                path: path@,
                value: value@,
            },
            EnumerationError::BadProductName { path, value } =>
                EnumerationErrorView::BadProductName { path: path@, value: value@ },
            EnumerationError::BadSerialNumber { path, value } =>
                EnumerationErrorView::BadSerialNumber { path: path@, value: value@ },
            EnumerationError::NoRootPort { path } => EnumerationErrorView::NoRootPort { path: path@ },
            EnumerationError::InvalidDeviceDescriptor { path } =>
                EnumerationErrorView::InvalidDeviceDescriptor { path: path@ },
            EnumerationError::BadConfig { path, config } => EnumerationErrorView::BadConfig {
                path: path@,
                config: config@,
            },
            EnumerationError::BadConfigDescriptors { path, value } =>
                EnumerationErrorView::BadConfigDescriptors {
                    path: path@,
                    value: opt_prop_view(*value),
                },
            EnumerationError::BadLinkPath { path, link } => EnumerationErrorView::BadLinkPath {
                path: path@,
                link: link@,
            },
            EnumerationError::DeviceTree { path, message } => EnumerationErrorView::DeviceTree {
                path: path@,
                message: message@,
            },
        }
    }
}

/// The address `assigned-address` gives: an integer below 255, truncated to a byte.
pub open spec fn assigned_address(v: Option<PropValView>) -> Option<u8> {
    match v {
        Some(PropValView::Integer(x)) => if x < 255 {
            Some(x as u8)
        } else {
            None
        },
        _ => None,
    }
}

/// An optional string property: absent, or a string; any other value is refused.
pub open spec fn optional_text_prop(v: Option<PropValView>) -> Result<Option<Seq<char>>, PropValView> {
    match v {
        None => Ok(None),
        Some(PropValView::String(s)) => Ok(Some(s)),
        Some(o) => Err(o),
    }
}

fn optional_text(v: Option<&PropVal>) -> (r: Result<Option<String>, PropVal>)
    ensures
        match optional_text_prop(
            match v {
                Some(p) => Some(p@),
                None => None::<PropValView>,
            },
        ) {
            Ok(t) => r matches Ok(s) && opt_text(s) == t,
            Err(o) => r matches Err(e) && e@ == o,
        },
{
    match v {
        None => Ok(None),
        Some(PropVal::String(s)) => Ok(Some(s.clone())),
        Some(o) => Err(o.duplicate()),
    }
}

/// The names and paths of the links, in order; or the first link without a file name.
pub open spec fn link_entries(links: Seq<String>) -> Result<Seq<(Seq<char>, Seq<char>)>, Seq<char>>
    decreases links.len(),
{
    if links.len() == 0 {
        Ok(Seq::empty())
    } else {
        match link_entries(links.drop_last()) {
            Err(bad) => Err(bad),
            Ok(prev) => match path_file_name(links.last()@) {
                Some(name) => Ok(prev.push((name, links.last()@))),
                None => Err(links.last()@),
            },
        }
    }
}

/// The device paths of a node: each link's file name mapped to the link's path.
pub open spec fn node_paths(n: DevNode) -> Result<Map<Seq<char>, Seq<char>>, EnumerationErrorView> {
    match link_entries(n.links@) {
        Err(bad) => Err(EnumerationErrorView::BadLinkPath { path: n.path@, link: bad }),
        Ok(pairs) => match n.links_error {
            Some(m) => Err(EnumerationErrorView::DeviceTree { path: n.path@, message: m@ }),
            None => Ok(pairs_map(pairs)),
        },
    }
}

fn collect_links(node: &DevNode) -> (r: Result<DevicePaths, EnumerationError>)
    ensures
        match r {
            Ok(p) => node_paths(*node) == Ok::<_, EnumerationErrorView>(p@),
            Err(e) => node_paths(*node) == Err::<Map<Seq<char>, Seq<char>>, _>(e@),
        },
{
    let mut paths = DevicePaths::new();
    let ghost mut pairs: Seq<(Seq<char>, Seq<char>)> = Seq::empty();
    let mut i: usize = 0;
    while i < node.links.len()
        invariant
            i <= node.links@.len(),
            link_entries(node.links@.take(i as int)) == Ok::<_, Seq<char>>(pairs),
            paths@ == pairs_map(pairs),
        decreases node.links@.len() - i,
    {
        let link = &node.links[i];
        let ghost t = node.links@.take(i + 1);
        assert(t.drop_last() =~= node.links@.take(i as int));
        assert(t.last() == node.links@[i as int]);
        match file_name(link) {
            Some(name) => {
                let ghost old_pairs = pairs;
                proof {
                    pairs = pairs.push((name@, link@));
                    assert(pairs.drop_last() =~= old_pairs);
                }
                paths.insert(name, link.clone());
            },
            None => {
                proof {
                    lemma_link_entries_prefix_err(node.links@, i + 1);
                }
                return Err(EnumerationError::BadLinkPath { path: node.path.clone(), link: link.clone() });
            },
        }
        i = i + 1;
    }
    assert(node.links@.take(node.links@.len() as int) =~= node.links@);
    match &node.links_error {
        Some(m) => Err(EnumerationError::DeviceTree { path: node.path.clone(), message: m.clone() }),
        None => Ok(paths),
    }
}

/// An error among the first links stays the error of all of them.
proof fn lemma_link_entries_prefix_err(links: Seq<String>, k: int)
    requires
        0 <= k <= links.len(),
        link_entries(links.take(k)) is Err,
    ensures
        link_entries(links) == link_entries(links.take(k)),
    decreases links.len() - k,
{
    if k < links.len() {
        let t = links.take(k + 1);
        assert(t.drop_last() =~= links.take(k));
        lemma_link_entries_prefix_err(links, k + 1);
    } else {
        assert(links.take(k) =~= links);
    }
}

/// The bus id of the `bus`-th root hub: its number in decimal, at least three digits.
pub open spec fn bus_id_text(bus: nat) -> Seq<char> {
    zero_padded(decimal(bus), 3)
}

/// Whether the node is bound to the hub driver.
pub open spec fn is_hub_driver(driver: Option<String>) -> bool {
    match driver {
        Some(d) => d@ == "hubd"@,
        None => false,
    }
}

/// Where the walk stands: how many root hubs it has met (less one), the hubs
/// between the current root hub and the node, and the devices found.
pub struct WalkState {
    pub bus: Option<nat>,
    pub hubs: Seq<Hub>,
    pub devices: Seq<DeviceInfoView>,
}

/// The record of a device node whose properties all passed.
pub open spec fn device_record(
    n: DevNode,
    bus: nat,
    ports: Seq<u8>,
    desc: Seq<u8>,
    address: u8,
    vendor: Seq<char>,
    product: Option<Seq<char>>,
    serial: Option<Seq<char>>,
    cfg: Seq<u8>,
    paths: Map<Seq<char>, Seq<char>>,
) -> DeviceInfoView {
    DeviceInfoView {
        path: DevfsPathView { path: n.path@, device_paths: paths },
        bus_id: bus_id_text(bus),
        device_address: address,
        port_chain: ports,
        vendor_id: le16(desc, 8) as u16,
        product_id: le16(desc, 10) as u16,
        device_version: le16(desc, 12) as u16,
        class: desc[4],
        subclass: desc[5],
        protocol: desc[6],
        max_packet_size_0: desc[7],
        speed: None,
        manufacturer_string: Some(vendor),
        product_string: product,
        serial_number: serial,
        interfaces: config_interfaces(cfg),
    }
}

/// What a node that is neither a root hub nor a hub does to the walk, once
/// the hubs that are not its ancestors are gone from `st` and its port is `port`.
pub open spec fn device_step(st: WalkState, n: DevNode, port: u8) -> Result<
    WalkState,
    EnumerationErrorView,
> {
    let props = n.props@;
    let path = n.path@;
    match prop_lookup(props, "usb-dev-descriptor"@) {
        Some(PropValView::Bytes(desc)) => {
            let aa = prop_lookup(props, "assigned-address"@);
            match assigned_address(aa) {
                None => Err(EnumerationErrorView::BadAssignedAddress { path, value: aa }),
                Some(address) => match prop_lookup(props, "usb-vendor-name"@) {
                    None => Ok(st),
                    Some(PropValView::String(vendor)) => match optional_text_prop(
                        prop_lookup(props, "usb-product-name"@),
                    ) {
                        Err(v) => Err(EnumerationErrorView::BadProductName { path, value: v }),
                        Ok(product) => match optional_text_prop(
                            prop_lookup(props, "usb-serialno"@),
                        ) {
                            Err(v) => Err(EnumerationErrorView::BadSerialNumber { path, value: v }),
                            Ok(serial) => match st.bus {
                                None => Err(EnumerationErrorView::NoRootPort { path }),
                                Some(bus) => if device_descriptor_len(desc) is None {
                                    Err(EnumerationErrorView::InvalidDeviceDescriptor { path })
                                } else {
                                    let cfgv = prop_lookup(props, "usb-raw-cfg-descriptors"@);
                                    match cfgv {
                                        Some(PropValView::Bytes(cfg)) => if config_descriptor_len(
                                            cfg,
                                        ) is None {
                                            Err(EnumerationErrorView::BadConfig { path, config: cfg })
                                        } else {
                                            match node_paths(n) {
                                                Err(e) => Err(e),
                                                Ok(paths) => Ok(
                                                    WalkState {
                                                        bus: st.bus,
                                                        hubs: st.hubs,
                                                        devices: st.devices.push(
                                                            device_record(
                                                                n,
                                                                bus,
                                                                hub_ports(st.hubs).push(port),
                                                                desc,
                                                                address,
                                                                vendor,
                                                                product,
                                                                serial,
                                                                cfg,
                                                                paths,
                                                            ),
                                                        ),
                                                    },
                                                ),
                                            }
                                        },
                                        _ => Err(
                                            EnumerationErrorView::BadConfigDescriptors {
                                                path,
                                                value: cfgv,
                                            },
                                        ),
                                    }
                                },
                            },
                        },
                    },
                    Some(v) => Err(EnumerationErrorView::BadVendorName { path, value: v }),
                },
            }
        },
        _ => Ok(st),
    }
}

/// What one node does to the walk. A root hub starts a new bus and forgets
/// the hubs; a node without `reg` changes nothing; a hub is pushed on the
/// stack of hubs; any other node may be a device.
pub open spec fn walk_step(st: WalkState, n: DevNode) -> Result<WalkState, EnumerationErrorView> {
    let props = n.props@;
    if prop_lookup(props, "root-hub"@) == Some(PropValView::Boolean) {
        Ok(
            WalkState {
                bus: Some(
                    match st.bus {
                        Some(b) => b + 1,
                        None => 0,
                    },
                ),
                hubs: Seq::empty(),
                devices: st.devices,
            },
        )
    } else {
        match prop_lookup(props, "reg"@) {
            None => Ok(st),
            Some(PropValView::Integer(p)) => {
                let hubs = pop_hubs(st.hubs, n.depth);
                if is_hub_driver(n.driver_name) {
                    Ok(
                        WalkState {
                            bus: st.bus,
                            hubs: hubs.push(Hub { depth: n.depth, port: p as u8 }),
                            devices: st.devices,
                        },
                    )
                } else {
                    device_step(WalkState { bus: st.bus, hubs, devices: st.devices }, n, p as u8)
                }
            },
            Some(v) => Err(EnumerationErrorView::UnexpectedReg { path: n.path@, value: v }),
        }
    }
}

/// The state before any node.
pub open spec fn walk_start() -> WalkState {
    WalkState { bus: None, hubs: Seq::empty(), devices: Seq::empty() }
}

/// The walk over `nodes`, in order, stopping at the first error.
pub open spec fn walk(nodes: Seq<DevNode>) -> Result<WalkState, EnumerationErrorView>
    decreases nodes.len(),
{
    if nodes.len() == 0 {
        Ok(walk_start())
    } else {
        match walk(nodes.drop_last()) {
            Ok(st) => walk_step(st, nodes.last()),
            Err(e) => Err(e),
        }
    }
}

/// The devices that the walk over `nodes` finds, or the error that stops it.
pub open spec fn enumerate(nodes: Seq<DevNode>) -> Result<Seq<DeviceInfoView>, EnumerationErrorView> {
    match walk(nodes) {
        Ok(st) => Ok(st.devices),
        Err(e) => Err(e),
    }
}


/// The state of the walk as the code holds it.
struct Walker {
    bus: Option<u64>,
    hubs: Vec<Hub>,
    devices: Vec<DeviceInfo>,
}

impl Walker {
    spec fn state(&self) -> WalkState {
        WalkState {
            bus: match self.bus {
                Some(b) => Some(b as nat),
                None => None,
            },
            hubs: self.hubs@,
            devices: device_info_views(self.devices@),
        }
    }

    fn pop_hubs(&mut self, depth: u32)
        ensures
            final(self).hubs@ == pop_hubs(old(self).hubs@, depth),
            final(self).bus == old(self).bus,
            final(self).devices@ == old(self).devices@,
    {
        while self.hubs.len() > 0 && self.hubs[self.hubs.len() - 1].depth >= depth
            invariant
                pop_hubs(self.hubs@, depth) == pop_hubs(old(self).hubs@, depth),
                self.bus == old(self).bus,
                self.devices@ == old(self).devices@,
            decreases self.hubs@.len(),
        {
            self.hubs.pop();
        }
    }

    fn hub_port_chain(&self, port: u8) -> (r: Vec<u8>)
        ensures
            r@ == hub_ports(self.hubs@).push(port),
    {
        let mut r: Vec<u8> = Vec::new();
        let mut i: usize = 0;
        while i < self.hubs.len()
            invariant
                i <= self.hubs@.len(),
                r@ == hub_ports(self.hubs@.take(i as int)),
            decreases self.hubs@.len() - i,
        {
            r.push(self.hubs[i].port);
            i = i + 1;
            assert(r@ =~= hub_ports(self.hubs@.take(i as int)));
        }
        r.push(port);
        assert(self.hubs@.take(self.hubs@.len() as int) =~= self.hubs@);
        assert(r@ =~= hub_ports(self.hubs@).push(port));
        r
    }

    /// The part of `walk_step` for a node that may be a device, once its
    /// port is known and the hubs that are not its ancestors are gone.
    #[verifier::rlimit(50)]
    fn device_node(&mut self, node: &DevNode, port: u8) -> (r: Result<(), EnumerationError>)
        ensures
            match r {
                Ok(()) => device_step(old(self).state(), *node, port) == Ok::<
                    _,
                    EnumerationErrorView,
                >(final(self).state()),
                Err(e) => device_step(old(self).state(), *node, port) == Err::<WalkState, _>(e@),
            },
    {
        let ghost props = node.props@;
        let ghost path = node.path@;
        let dev_key = text("usb-dev-descriptor");
        let desc = match find_prop(&node.props, &dev_key) {
            Some(PropVal::Bytes(b)) => b,
            _ => {
                return Ok(());
            },
        };
        let aa_key = text("assigned-address");
        let aa = find_prop(&node.props, &aa_key);
        let device_address: u8 = match aa {
            Some(PropVal::Integer(v)) if *v < 255 => *v as u8,
            _ => {
                return Err(
                    EnumerationError::BadAssignedAddress {
                        path: node.path.clone(),
                        value: duplicate_opt(aa),
                    },
                );
            },
        };
        let vendor_key = text("usb-vendor-name");
        let manufacturer_string = match find_prop(&node.props, &vendor_key) {
            Some(PropVal::String(v)) => Some(v.clone()),
            None => {
                return Ok(());
            },
            Some(v) => {
                return Err(
                    EnumerationError::BadVendorName { path: node.path.clone(), value: v.duplicate() },
                );
            },
        };
        let product_key = text("usb-product-name");
        let product_string = match optional_text(find_prop(&node.props, &product_key)) {
            Ok(p) => p,
            Err(v) => {
                return Err(EnumerationError::BadProductName { path: node.path.clone(), value: v });
            },
        };
        let serial_key = text("usb-serialno");
        let serial_number = match optional_text(find_prop(&node.props, &serial_key)) {
            Ok(p) => p,
            Err(v) => {
                return Err(EnumerationError::BadSerialNumber { path: node.path.clone(), value: v });
            },
        };
        let port_chain = self.hub_port_chain(port);
        let busnum = match self.bus {
            Some(b) => b,
            None => {
                return Err(EnumerationError::NoRootPort { path: node.path.clone() });
            },
        };
        if validate_device_descriptor(desc.as_slice()).is_none() {
            return Err(EnumerationError::InvalidDeviceDescriptor { path: node.path.clone() });
        }
        let d = DeviceDescriptor::new(desc.as_slice());
        let cfg_key = text("usb-raw-cfg-descriptors");
        let cfgv = find_prop(&node.props, &cfg_key);
        let interfaces = match cfgv {
            Some(PropVal::Bytes(cfg)) => {
                if validate_config_descriptor(cfg.as_slice()).is_none() {
                    let config = copy_range(cfg.as_slice(), 0, cfg.len());
                    assert(config@ =~= cfg@);
                    return Err(EnumerationError::BadConfig { path: node.path.clone(), config });
                }
                interfaces_of_config(cfg.as_slice())
            },
            _ => {
                return Err(
                    EnumerationError::BadConfigDescriptors {
                        path: node.path.clone(),
                        value: duplicate_opt(cfgv),
                    },
                );
            },
        };
        let paths = match collect_links(node) {
            Ok(p) => p,
            Err(e) => {
                return Err(e);
            },
        };
        let info = DeviceInfo {
            path: DevfsPath { path: node.path.clone(), device_paths: paths },
            bus_id: zero_padded_decimal(busnum, 3),
            device_address,
            port_chain,
            vendor_id: d.vendor_id(),
            product_id: d.product_id(),
            device_version: d.device_version(),
            class: d.class(),
            subclass: d.subclass(),
            protocol: d.protocol(),
            max_packet_size_0: d.max_packet_size_0(),
            speed: None,
            manufacturer_string,
            product_string,
            serial_number,
            interfaces,
        };
        let ghost iv = info@;
        let ghost old_devices = device_info_views(self.devices@);
        self.devices.push(info);
        assert(device_info_views(self.devices@) =~= old_devices.push(iv));
        Ok(())
    }

    fn process_node(&mut self, node: &DevNode) -> (r: Result<(), EnumerationError>)
        requires
            old(self).bus matches Some(b) ==> b < u64::MAX,
        ensures
            match r {
                Ok(()) => walk_step(old(self).state(), *node) == Ok::<_, EnumerationErrorView>(
                    final(self).state(),
                ),
                Err(e) => walk_step(old(self).state(), *node) == Err::<WalkState, _>(e@),
            },
    {
        let root_key = text("root-hub");
        if let Some(PropVal::Boolean) = find_prop(&node.props, &root_key) {
            self.bus = match self.bus {
                Some(b) => Some(b + 1),
                None => Some(0),
            };
            self.hubs = Vec::new();
            return Ok(());
        }
        let reg_key = text("reg");
        let port: u8 = match find_prop(&node.props, &reg_key) {
            Some(PropVal::Integer(p)) => *p as u8,
            None => {
                return Ok(());
            },
            Some(v) => {
                return Err(
                    EnumerationError::UnexpectedReg { path: node.path.clone(), value: v.duplicate() },
                );
            },
        };
        self.pop_hubs(node.depth);
        let hubd = text("hubd");
        let is_hub = match &node.driver_name {
            Some(d) => *d == hubd,
            None => false,
        };
        if is_hub {
            self.hubs.push(Hub { depth: node.depth, port });
            return Ok(());
        }
        self.device_node(node, port)
    }
}

/// Walks the device tree, whose nodes come in the order of a depth-first
/// walk, and lists the USB devices in it.
pub fn walk_devices(nodes: &[DevNode]) -> (r: Result<Vec<DeviceInfo>, EnumerationError>)
    ensures
        match r {
            Ok(devices) => enumerate(nodes@) == Ok::<_, EnumerationErrorView>(
                device_info_views(devices@),
            ),
            Err(e) => enumerate(nodes@) == Err::<Seq<DeviceInfoView>, _>(e@),
        },
{
    let mut w = Walker { bus: None, hubs: Vec::new(), devices: Vec::new() };
    assert(device_info_views(w.devices@) =~= Seq::<DeviceInfoView>::empty());
    let mut i: usize = 0;
    while i < nodes.len()
        invariant
            i <= nodes@.len(),
            walk(nodes@.take(i as int)) == Ok::<_, EnumerationErrorView>(w.state()),
            w.bus matches Some(b) ==> b < i,
        decreases nodes@.len() - i,
    {
        let ghost t = nodes@.take(i + 1);
        assert(t.drop_last() =~= nodes@.take(i as int));
        assert(t.last() == nodes@[i as int]);
        let ghost before = w.state();
        match w.process_node(&nodes[i]) {
            Ok(()) => {},
            Err(e) => {
                proof {
                    lemma_walk_prefix_err(nodes@, i + 1);
                }
                return Err(e);
            },
        }
        i = i + 1;
    }
    assert(nodes@.take(nodes@.len() as int) =~= nodes@);
    Ok(w.devices)
}

/// An error in the walk over the first nodes is the error of the walk over all.
proof fn lemma_walk_prefix_err(nodes: Seq<DevNode>, k: int)
    requires
        0 <= k <= nodes.len(),
        walk(nodes.take(k)) is Err,
    ensures
        walk(nodes) == walk(nodes.take(k)),
    decreases nodes.len() - k,
{
    if k < nodes.len() {
        let t = nodes.take(k + 1);
        assert(t.drop_last() =~= nodes.take(k));
        lemma_walk_prefix_err(nodes, k + 1);
    } else {
        assert(nodes.take(k) =~= nodes);
    }
}

/// Lists the USB devices in the device tree whose nodes `nodes` holds, in
/// the order of a depth-first walk.
pub fn list_devices(nodes: &[DevNode]) -> (r: Result<Vec<DeviceInfo>, EnumerationError>)
    ensures
        match r {
            Ok(devices) => enumerate(nodes@) == Ok::<_, EnumerationErrorView>(
                device_info_views(devices@),
            ),
            Err(e) => enumerate(nodes@) == Err::<Seq<DeviceInfoView>, _>(e@),
        },
{
    walk_devices(nodes)
}


proof fn lemma_step_keeps_devices(st: WalkState, n: DevNode)
    requires
        walk_step(st, n) is Ok,
    ensures
        match walk_step(st, n) {
            Ok(next) => st.devices.is_prefix_of(next.devices) && (next.devices.len()
                == st.devices.len() || (next.devices.len() == st.devices.len() + 1
                && next.devices.last() == device_step(
                WalkState { bus: st.bus, hubs: pop_hubs(st.hubs, n.depth), devices: st.devices },
                n,
                match prop_lookup(n.props@, "reg"@) {
                    Some(PropValView::Integer(p)) => p as u8,
                    _ => 0u8,
                },
            )->Ok_0.devices.last())),
            Err(_) => false,
        },
{
    assert(st.devices.is_prefix_of(st.devices));
    match walk_step(st, n) {
        Ok(next) => {
            if next.devices.len() != st.devices.len() {
                assert(st.devices.is_prefix_of(next.devices));
            }
        },
        Err(_) => {},
    }
}

/// Devices once found stay found: if the walk over all the nodes succeeds,
/// so does the walk over the first `k` of them, and the devices it finds are
/// the first ones that the whole walk finds, in the same order.
pub proof fn lemma_walk_prefix(nodes: Seq<DevNode>, k: int)
    requires
        0 <= k <= nodes.len(),
        walk(nodes) is Ok,
    ensures
        match (walk(nodes.take(k)), walk(nodes)) {
            (Ok(part), Ok(all)) => part.devices.is_prefix_of(all.devices),
            _ => false,
        },
    decreases nodes.len() - k,
{
    if k == nodes.len() {
        assert(nodes.take(k) =~= nodes);
        let all = walk(nodes)->Ok_0;
        assert(all.devices.is_prefix_of(all.devices));
    } else {
        let t = nodes.take(k + 1);
        assert(t.drop_last() =~= nodes.take(k));
        assert(t.last() == nodes[k]);
        lemma_walk_prefix(nodes, k + 1);
        match walk(nodes.take(k)) {
            Ok(part) => {
                lemma_step_keeps_devices(part, nodes[k]);
                let mid = walk(t)->Ok_0;
                let all = walk(nodes)->Ok_0;
                assert(part.devices.is_prefix_of(all.devices)) by {
                    assert forall|i: int| 0 <= i < part.devices.len() implies part.devices[i]
                        == all.devices[i] by {
                        assert(part.devices[i] == mid.devices[i]);
                    }
                }
            },
            Err(_) => {
                assert(walk(t) is Err);
            },
        }
    }
}

/// What holds of every device the walk reports: its port chain is not empty,
/// its bus id has at least three digits, and its interfaces come in strictly
/// increasing order of number.
pub open spec fn device_well_formed(d: DeviceInfoView) -> bool {
    &&& d.port_chain.len() >= 1
    &&& d.bus_id.len() >= 3
    &&& forall|i: int, j: int|
        0 <= i < j < d.interfaces.len() ==> (#[trigger] d.interfaces[i]).interface_number
            < (#[trigger] d.interfaces[j]).interface_number
}

proof fn lemma_record_well_formed(
    n: DevNode,
    bus: nat,
    ports: Seq<u8>,
    desc: Seq<u8>,
    address: u8,
    vendor: Seq<char>,
    product: Option<Seq<char>>,
    serial: Option<Seq<char>>,
    cfg: Seq<u8>,
    paths: Map<Seq<char>, Seq<char>>,
)
    requires
        ports.len() >= 1,
    ensures
        device_well_formed(
            device_record(n, bus, ports, desc, address, vendor, product, serial, cfg, paths),
        ),
{
    let total = config_descriptor_len(cfg)->0;
    let alts = interface_descriptors_from(cfg.take(total as int), 0);
    lemma_interfaces_sorted_and_complete(alts);
    let d = device_record(n, bus, ports, desc, address, vendor, product, serial, cfg, paths);
    let g = interface_groups(alts, 256);
    assert forall|i: int, j: int| 0 <= i < j < d.interfaces.len() implies (
    #[trigger] d.interfaces[i]).interface_number < (
    #[trigger] d.interfaces[j]).interface_number by {
        assert(d.interfaces[i].interface_number == g[i].0);
        assert(d.interfaces[j].interface_number == g[j].0);
    }
}

/// Every device that a successful walk reports is well formed (see `device_well_formed`).
pub proof fn lemma_walk_devices_well_formed(nodes: Seq<DevNode>)
    requires
        walk(nodes) is Ok,
    ensures
        forall|i: int|
            0 <= i < walk(nodes)->Ok_0.devices.len() ==> device_well_formed(
                #[trigger] walk(nodes)->Ok_0.devices[i],
            ),
    decreases nodes.len(),
{
    if nodes.len() > 0 {
        let prev_nodes = nodes.drop_last();
        lemma_walk_devices_well_formed(prev_nodes);
        let st = walk(prev_nodes)->Ok_0;
        let n = nodes.last();
        let next = walk(nodes)->Ok_0;
        lemma_step_keeps_devices(st, n);
        if next.devices.len() != st.devices.len() {
            let port = match prop_lookup(n.props@, "reg"@) {
                Some(PropValView::Integer(p)) => p as u8,
                _ => 0u8,
            };
            let hubs = pop_hubs(st.hubs, n.depth);
            let props = n.props@;
            let desc = match prop_lookup(props, "usb-dev-descriptor"@) {
                Some(PropValView::Bytes(d)) => d,
                _ => Seq::empty(),
            };
            let cfg = match prop_lookup(props, "usb-raw-cfg-descriptors"@) {
                Some(PropValView::Bytes(c)) => c,
                _ => Seq::empty(),
            };
            let vendor = match prop_lookup(props, "usb-vendor-name"@) {
                Some(PropValView::String(v)) => v,
                _ => Seq::empty(),
            };
            let product = optional_text_prop(prop_lookup(props, "usb-product-name"@))->Ok_0;
            let serial = optional_text_prop(prop_lookup(props, "usb-serialno"@))->Ok_0;
            let address = assigned_address(prop_lookup(props, "assigned-address"@))->0;
            let paths = node_paths(n)->Ok_0;
            lemma_record_well_formed(
                n,
                st.bus->0,
                hub_ports(hubs).push(port),
                desc,
                address,
                vendor,
                product,
                serial,
                cfg,
                paths,
            );
        }
        assert forall|i: int| 0 <= i < next.devices.len() implies device_well_formed(
            #[trigger] next.devices[i],
        ) by {
            if i < st.devices.len() {
                assert(next.devices[i] == st.devices[i]);
            }
        }
    }
}


/// Each interface reported for the configuration descriptors `cfg` carries,
/// as class, subclass and protocol, bytes 5, 6 and 7 (`bInterfaceClass`,
/// `bInterfaceSubClass`, `bInterfaceProtocol`) of the first interface
/// descriptor of the configuration with its number, and no interface string.
pub proof fn lemma_interface_fields_from_first_descriptor(cfg: Seq<u8>, i: int)
    requires
        config_descriptor_len(cfg) is Some,
        0 <= i < config_interfaces(cfg).len(),
    ensures
        ({
            let alts = interface_descriptors_from(
                cfg.take(config_descriptor_len(cfg)->0 as int),
                0,
            );
            let info = config_interfaces(cfg)[i];
            &&& info.interface_string is None
            &&& exists|k: int|
                0 <= k < alts.len() && (#[trigger] alts[k])[2] == info.interface_number
                    && info.class == alts[k][5] && info.subclass == alts[k][6] && info.protocol
                    == alts[k][7] && forall|j: int|
                    0 <= j < k ==> (#[trigger] alts[j])[2] != info.interface_number
        }),
{
    let alts = interface_descriptors_from(cfg.take(config_descriptor_len(cfg)->0 as int), 0);
    lemma_interface_first_descriptor(alts, i);
    let g = interface_groups(alts, 256)[i];
    let info = config_interfaces(cfg)[i];
    assert(info == interface_info_of(g));
    let k = choose|k: int|
        0 <= k < alts.len() && (#[trigger] alts[k])[2] == g.0 && g.1[0] == alts[k] && forall|
            j: int,
        | 0 <= j < k ==> (#[trigger] alts[j])[2] != g.0;
    assert(info.class == alts[k][5] && info.subclass == alts[k][6] && info.protocol
        == alts[k][7]);
}

/// The depths of a stack of hubs strictly increase from bottom to top.
pub open spec fn depths_increasing(hubs: Seq<Hub>) -> bool {
    forall|i: int, j: int| 0 <= i < j < hubs.len() ==> (#[trigger] hubs[i]).depth < (
    #[trigger] hubs[j]).depth
}

/// Whether `k` splits `hubs` at depth `d`: the first `k` hubs are shallower
/// than `d`, and the next one, if any, is not.
pub open spec fn splits_at(hubs: Seq<Hub>, d: u32, k: int) -> bool {
    &&& 0 <= k <= hubs.len()
    &&& forall|i: int| 0 <= i < k ==> (#[trigger] hubs[i]).depth < d
    &&& k < hubs.len() ==> hubs[k].depth >= d
}

proof fn lemma_pop_hubs_split(hubs: Seq<Hub>, d: u32)
    requires
        depths_increasing(hubs),
    ensures
        splits_at(hubs, d, pop_hubs(hubs, d).len() as int),
        pop_hubs(hubs, d) == hubs.take(pop_hubs(hubs, d).len() as int),
    decreases hubs.len(),
{
    if hubs.len() > 0 && hubs.last().depth >= d {
        let prev = hubs.drop_last();
        assert(depths_increasing(prev)) by {
            assert forall|i: int, j: int| 0 <= i < j < prev.len() implies (
            #[trigger] prev[i]).depth < (#[trigger] prev[j]).depth by {
                assert(prev[i] == hubs[i] && prev[j] == hubs[j]);
            }
        }
        lemma_pop_hubs_split(prev, d);
        let k = pop_hubs(prev, d).len() as int;
        assert forall|i: int| 0 <= i < k implies (#[trigger] hubs[i]).depth < d by {
            assert(hubs[i] == prev[i]);
        }
        if k < prev.len() {
            assert(hubs[k] == prev[k]);
        }
        assert(prev.take(k) =~= hubs.take(k));
    } else {
        assert(hubs.take(hubs.len() as int) =~= hubs);
        assert forall|i: int| 0 <= i < hubs.len() implies (#[trigger] hubs[i]).depth < d by {
            if i < hubs.len() - 1 {
                assert(hubs[i].depth < hubs[hubs.len() - 1].depth);
            }
        }
    }
}

proof fn lemma_split_unique(hubs: Seq<Hub>, d: u32, k1: int, k2: int)
    requires
        splits_at(hubs, d, k1),
        splits_at(hubs, d, k2),
    ensures
        k1 == k2,
{
    if k1 < k2 {
        assert(hubs[k1].depth < d);
    } else if k2 < k1 {
        assert(hubs[k2].depth < d);
    }
}

proof fn lemma_device_step_shape(st: WalkState, n: DevNode, port: u8)
    requires
        device_step(st, n, port) is Ok,
    ensures
        ({
            let next = device_step(st, n, port)->Ok_0;
            &&& next.hubs == st.hubs
            &&& next.bus == st.bus
            &&& (next.devices == st.devices || (next.devices.len() == st.devices.len() + 1
                && next.devices.drop_last() == st.devices && next.devices.last().port_chain
                == hub_ports(st.hubs).push(port)))
        }),
{
    let next = device_step(st, n, port)->Ok_0;
    if next.devices != st.devices {
        assert(next.devices.drop_last() =~= st.devices);
    }
}

/// The stack of hubs as a node with an integer `reg` at depth `d` leaves it:
/// the hubs of depth `d` or more are gone, every shallower hub stays, in
/// order; a hub node then goes on top. A device found at that node has as
/// port chain the ports of the hubs that stay, in order, then its own port
/// (its `reg` as a byte).
pub proof fn lemma_walk_step_hub_stack(st: WalkState, n: DevNode, k: int)
    requires
        depths_increasing(st.hubs),
        splits_at(st.hubs, n.depth, k),
        prop_lookup(n.props@, "root-hub"@) != Some(PropValView::Boolean),
        prop_lookup(n.props@, "reg"@) is Some,
        prop_lookup(n.props@, "reg"@)->0 is Integer,
        walk_step(st, n) is Ok,
    ensures
        ({
            let next = walk_step(st, n)->Ok_0;
            let port = (prop_lookup(n.props@, "reg"@)->0->Integer_0) as u8;
            &&& depths_increasing(next.hubs)
            &&& next.bus == st.bus
            &&& is_hub_driver(n.driver_name) ==> next.hubs == st.hubs.take(k).push(
                Hub { depth: n.depth, port },
            ) && next.devices == st.devices
            &&& !is_hub_driver(n.driver_name) ==> next.hubs == st.hubs.take(k)
            &&& next.devices.len() > st.devices.len() ==> next.devices.len() == st.devices.len()
                + 1 && next.devices.drop_last() == st.devices && next.devices.last().port_chain
                == hub_ports(st.hubs.take(k)).push(port)
            &&& next.devices.len() <= st.devices.len() ==> next.devices == st.devices
        }),
{
    lemma_pop_hubs_split(st.hubs, n.depth);
    let popped = pop_hubs(st.hubs, n.depth);
    lemma_split_unique(st.hubs, n.depth, k, popped.len() as int);
    assert(popped == st.hubs.take(k));
    let port = (prop_lookup(n.props@, "reg"@)->0->Integer_0) as u8;
    let next = walk_step(st, n)->Ok_0;
    assert(depths_increasing(popped)) by {
        assert forall|i: int, j: int| 0 <= i < j < popped.len() implies (
        #[trigger] popped[i]).depth < (#[trigger] popped[j]).depth by {
            assert(popped[i] == st.hubs[i] && popped[j] == st.hubs[j]);
        }
    }
    if is_hub_driver(n.driver_name) {
        let pushed = popped.push(Hub { depth: n.depth, port });
        assert forall|i: int, j: int| 0 <= i < j < pushed.len() implies (
        #[trigger] pushed[i]).depth < (#[trigger] pushed[j]).depth by {
            assert(pushed[i] == popped[i]);
            assert(popped[i] == st.hubs[i]);
            if j < popped.len() {
                assert(pushed[j] == popped[j]);
            }
        }
    } else {
        lemma_device_step_shape(
            WalkState { bus: st.bus, hubs: popped, devices: st.devices },
            n,
            port,
        );
    }
}

/// Along any successful walk the stack of hubs has strictly increasing depths.
pub proof fn lemma_walk_hub_depths_increasing(nodes: Seq<DevNode>)
    requires
        walk(nodes) is Ok,
    ensures
        depths_increasing(walk(nodes)->Ok_0.hubs),
    decreases nodes.len(),
{
    if nodes.len() > 0 {
        let prev = nodes.drop_last();
        lemma_walk_hub_depths_increasing(prev);
        let st = walk(prev)->Ok_0;
        let n = nodes.last();
        let props = n.props@;
        if prop_lookup(props, "root-hub"@) != Some(PropValView::Boolean) {
            match prop_lookup(props, "reg"@) {
                Some(PropValView::Integer(p)) => {
                    lemma_pop_hubs_split(st.hubs, n.depth);
                    let k = pop_hubs(st.hubs, n.depth).len() as int;
                    lemma_walk_step_hub_stack(st, n, k);
                },
                _ => {},
            }
        }
    }
}

} // verus!

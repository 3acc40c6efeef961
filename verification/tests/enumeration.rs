use illumos_usb::device::control_endpoint_path;
use illumos_usb::enumeration::{list_devices, walk_devices, DevNode, EnumerationError, PropVal};
use illumos_usb::paths::DevicePaths;

fn s(x: &str) -> String {
    x.to_string()
}

fn node(path: &str, depth: u32, driver: Option<&str>, props: Vec<(&str, PropVal)>) -> DevNode {
    DevNode {
        path: s(path),
        depth,
        driver_name: driver.map(s),
        props: props.into_iter().map(|(k, v)| (s(k), v)).collect(),
        links: vec![],
        links_error: None,
    }
}

fn root_hub(path: &str) -> DevNode {
    node(path, 1, Some("ehci"), vec![("root-hub", PropVal::Boolean)])
}

fn hub(path: &str, depth: u32, port: i64) -> DevNode {
    node(path, depth, Some("hubd"), vec![("reg", PropVal::Integer(port))])
}

fn device_descriptor(vendor: u16, product: u16) -> Vec<u8> {
    vec![
        18,
        1,
        0x00,
        0x02,
        0xef,
        0x02,
        0x01,
        64,
        (vendor & 0xff) as u8,
        (vendor >> 8) as u8,
        (product & 0xff) as u8,
        (product >> 8) as u8,
        0x00,
        0x01,
        1,
        2,
        3,
        1,
    ]
}

fn config() -> Vec<u8> {
    let mut c = vec![9, 2, 0, 0, 2, 1, 0, 0x80, 50];
    c.extend_from_slice(&[9, 4, 1, 0, 1, 0x0a, 0x00, 0x00, 0]);
    c.extend_from_slice(&[9, 4, 0, 0, 1, 0x02, 0x02, 0x01, 0]);
    let total = c.len() as u8;
    c[2] = total;
    c
}

fn device(path: &str, depth: u32, port: i64, address: i64) -> DevNode {
    let mut n = node(
        path,
        depth,
        Some("usb_mid"),
        vec![
            ("reg", PropVal::Integer(port)),
            ("usb-dev-descriptor", PropVal::Bytes(device_descriptor(0x0483, 0x374e))),
            ("assigned-address", PropVal::Integer(address)),
            ("usb-vendor-name", PropVal::String(s("ACME"))),
            ("usb-product-name", PropVal::String(s("Widget"))),
            ("usb-raw-cfg-descriptors", PropVal::Bytes(config())),
        ],
    );
    n.links = vec![format!("/dev/usb/483.374e/{address}/cntrl0"), format!("/dev/usb/483.374e/{address}/devstat")];
    n
}

fn set_prop(n: &mut DevNode, key: &str, value: PropVal) {
    n.props.push((s(key), value));
}

#[test]
fn a_device_on_a_root_hub() {
    let nodes = vec![root_hub("/pci@0/ehci@1"), device("/pci@0/ehci@1/dev@3", 2, 3, 5)];
    let devices = list_devices(&nodes).unwrap();
    assert_eq!(devices.len(), 1);
    let d = &devices[0];
    assert_eq!(d.bus_id, "000");
    assert_eq!(d.device_address, 5);
    assert_eq!(d.port_chain, vec![3]);
    assert_eq!(d.vendor_id, 0x0483);
    assert_eq!(d.product_id, 0x374e);
    assert_eq!(d.device_version, 0x0100);
    assert_eq!(d.class, 0xef);
    assert_eq!(d.subclass, 0x02);
    assert_eq!(d.protocol, 0x01);
    assert_eq!(d.max_packet_size_0, 64);
    assert!(d.speed.is_none());
    assert_eq!(d.manufacturer_string.as_deref(), Some("ACME"));
    assert_eq!(d.product_string.as_deref(), Some("Widget"));
    assert_eq!(d.serial_number, None);
    assert_eq!(d.path.path, "/pci@0/ehci@1/dev@3");
    // interfaces sorted by number, from the first alternate setting of each
    assert_eq!(d.interfaces.len(), 2);
    assert_eq!(d.interfaces[0].interface_number, 0);
    assert_eq!(d.interfaces[0].class, 0x02);
    assert_eq!(d.interfaces[1].interface_number, 1);
    assert_eq!(d.interfaces[1].class, 0x0a);
    assert!(d.interfaces[1].interface_string.is_none());
    // the links are keyed by their file names
    assert_eq!(
        d.path.device_paths.get(&s("cntrl0")).map(|p| p.as_str()),
        Some("/dev/usb/483.374e/5/cntrl0")
    );
    assert_eq!(
        d.path.device_paths.get(&s("devstat")).map(|p| p.as_str()),
        Some("/dev/usb/483.374e/5/devstat")
    );
    assert_eq!(d.path.device_paths.get(&s("/dev/usb/483.374e/5/cntrl0")), None);
    assert_eq!(control_endpoint_path(d).as_deref(), Some("/dev/usb/483.374e/5/cntrl0"));
}

#[test]
fn hubs_make_the_port_chain() {
    let nodes = vec![
        root_hub("/r0"),
        hub("/r0/hub@2", 2, 2),
        hub("/r0/hub@2/hub@4", 3, 4),
        device("/r0/hub@2/hub@4/d@1", 4, 1, 7),
        // back up to depth 3 under the first hub: the second hub is gone
        device("/r0/hub@2/d@6", 3, 6, 8),
        // a new root hub starts bus 1 with no hubs
        root_hub("/r1"),
        device("/r1/d@9", 2, 9, 9),
    ];
    let devices = walk_devices(&nodes).unwrap();
    assert_eq!(devices.len(), 3);
    assert_eq!(devices[0].port_chain, vec![2, 4, 1]);
    assert_eq!(devices[0].bus_id, "000");
    assert_eq!(devices[1].port_chain, vec![2, 6]);
    assert_eq!(devices[1].bus_id, "000");
    assert_eq!(devices[2].port_chain, vec![9]);
    assert_eq!(devices[2].bus_id, "001");
}

#[test]
fn nodes_without_reg_or_descriptor_or_vendor_are_skipped() {
    let mut no_vendor = device("/r/d@2", 2, 2, 3);
    no_vendor.props.retain(|(k, _)| k != "usb-vendor-name");
    let mut no_desc = device("/r/d@3", 2, 3, 4);
    no_desc.props.retain(|(k, _)| k != "usb-dev-descriptor");
    let mut desc_not_bytes = device("/r/d@5", 2, 5, 6);
    set_prop(&mut desc_not_bytes, "usb-dev-descriptor", PropVal::String(s("x")));
    let nodes = vec![
        root_hub("/r"),
        node("/r/x", 2, None, vec![("compatible", PropVal::String(s("usb")))]),
        no_vendor,
        no_desc,
        desc_not_bytes,
        device("/r/d@4", 2, 4, 5),
    ];
    let devices = walk_devices(&nodes).unwrap();
    assert_eq!(devices.len(), 1);
    assert_eq!(devices[0].device_address, 5);
}

#[test]
fn the_last_property_of_a_name_counts() {
    let mut d = device("/r/d@1", 2, 1, 3);
    set_prop(&mut d, "assigned-address", PropVal::Integer(11));
    let devices = walk_devices(&[root_hub("/r"), d]).unwrap();
    assert_eq!(devices[0].device_address, 11);
}

#[test]
fn port_and_address_are_truncated_to_a_byte() {
    let d = device("/r/d@1", 2, 0x105, -1);
    let devices = walk_devices(&[root_hub("/r"), d]).unwrap();
    assert_eq!(devices[0].port_chain, vec![5]);
    assert_eq!(devices[0].device_address, 0xff);
}

#[test]
fn serial_and_product_are_optional() {
    let mut d = device("/r/d@1", 2, 1, 3);
    d.props.retain(|(k, _)| k != "usb-product-name");
    set_prop(&mut d, "usb-serialno", PropVal::String(s("0001")));
    let devices = walk_devices(&[root_hub("/r"), d]).unwrap();
    assert_eq!(devices[0].product_string, None);
    assert_eq!(devices[0].serial_number.as_deref(), Some("0001"));
}

#[test]
fn many_buses_get_three_or_more_digits() {
    let mut nodes = Vec::new();
    for i in 0..1001 {
        nodes.push(root_hub(&format!("/r{i}")));
    }
    nodes.push(device("/r1000/d@1", 2, 1, 2));
    let devices = walk_devices(&nodes).unwrap();
    assert_eq!(devices[0].bus_id, "1000");
}

fn expect_err(nodes: Vec<DevNode>) -> EnumerationError {
    match walk_devices(&nodes) {
        Ok(_) => panic!("the walk should fail"),
        Err(e) => e,
    }
}

#[test]
fn unexpected_reg() {
    let n = node("/r/x", 2, None, vec![("reg", PropVal::String(s("3")))]);
    match expect_err(vec![root_hub("/r"), n]) {
        EnumerationError::UnexpectedReg { path, value } => {
            assert_eq!(path, "/r/x");
            assert!(matches!(value, PropVal::String(v) if v == "3"));
        }
        e => panic!("{e:?}"),
    }
}

#[test]
fn bad_assigned_address() {
    let mut d = device("/r/d@1", 2, 1, 255);
    match expect_err(vec![root_hub("/r"), d]) {
        EnumerationError::BadAssignedAddress { path, value } => {
            assert_eq!(path, "/r/d@1");
            assert!(matches!(value, Some(PropVal::Integer(255))));
        }
        e => panic!("{e:?}"),
    }
    d = device("/r/d@1", 2, 1, 3);
    d.props.retain(|(k, _)| k != "assigned-address");
    assert!(matches!(
        expect_err(vec![root_hub("/r"), d]),
        EnumerationError::BadAssignedAddress { value: None, .. }
    ));
}

#[test]
fn bad_strings() {
    let mut d = device("/r/d@1", 2, 1, 3);
    set_prop(&mut d, "usb-vendor-name", PropVal::Integer(1));
    assert!(matches!(
        expect_err(vec![root_hub("/r"), d]),
        EnumerationError::BadVendorName { value: PropVal::Integer(1), .. }
    ));
    let mut d = device("/r/d@1", 2, 1, 3);
    set_prop(&mut d, "usb-product-name", PropVal::Boolean);
    assert!(matches!(
        expect_err(vec![root_hub("/r"), d]),
        EnumerationError::BadProductName { value: PropVal::Boolean, .. }
    ));
    let mut d = device("/r/d@1", 2, 1, 3);
    set_prop(&mut d, "usb-serialno", PropVal::Bytes(vec![1]));
    assert!(matches!(
        expect_err(vec![root_hub("/r"), d]),
        EnumerationError::BadSerialNumber { .. }
    ));
}

#[test]
fn no_root_port() {
    assert!(matches!(
        expect_err(vec![device("/d@1", 1, 1, 3)]),
        EnumerationError::NoRootPort { .. }
    ));
}

#[test]
fn invalid_device_descriptor() {
    let mut d = device("/r/d@1", 2, 1, 3);
    set_prop(&mut d, "usb-dev-descriptor", PropVal::Bytes(vec![18, 2, 0, 0]));
    assert!(matches!(
        expect_err(vec![root_hub("/r"), d]),
        EnumerationError::InvalidDeviceDescriptor { .. }
    ));
}

#[test]
fn bad_configuration() {
    let mut d = device("/r/d@1", 2, 1, 3);
    set_prop(&mut d, "usb-raw-cfg-descriptors", PropVal::Bytes(vec![9, 2, 200, 0, 0, 0, 0, 0, 0]));
    match expect_err(vec![root_hub("/r"), d]) {
        EnumerationError::BadConfig { config, .. } => {
            assert_eq!(config, vec![9, 2, 200, 0, 0, 0, 0, 0, 0])
        }
        e => panic!("{e:?}"),
    }
    let mut d = device("/r/d@1", 2, 1, 3);
    d.props.retain(|(k, _)| k != "usb-raw-cfg-descriptors");
    assert!(matches!(
        expect_err(vec![root_hub("/r"), d]),
        EnumerationError::BadConfigDescriptors { value: None, .. }
    ));
}

#[test]
fn bad_link_and_device_tree_errors() {
    let mut d = device("/r/d@1", 2, 1, 3);
    d.links.push(s("/dev/usb/.."));
    d.links_error = Some(s("links failed"));
    match expect_err(vec![root_hub("/r"), d]) {
        EnumerationError::BadLinkPath { link, .. } => assert_eq!(link, "/dev/usb/.."),
        e => panic!("{e:?}"),
    }
    let mut d = device("/r/d@1", 2, 1, 3);
    d.links_error = Some(s("links failed"));
    match expect_err(vec![root_hub("/r"), d]) {
        EnumerationError::DeviceTree { message, .. } => assert_eq!(message, "links failed"),
        e => panic!("{e:?}"),
    }
}

#[test]
fn errors_on_other_nodes_do_not_matter_before_they_are_read() {
    // a hub whose links could not be read is never asked for them
    let mut h = hub("/r/h@1", 2, 1);
    h.links_error = Some(s("unreadable"));
    let nodes = vec![root_hub("/r"), h, device("/r/h@1/d@2", 3, 2, 4)];
    let devices = walk_devices(&nodes).unwrap();
    assert_eq!(devices[0].port_chain, vec![1, 2]);
}

#[test]
fn walk_of_a_prefix_finds_a_prefix() {
    let nodes = vec![
        root_hub("/r0"),
        device("/r0/d@1", 2, 1, 2),
        hub("/r0/h@2", 2, 2),
        device("/r0/h@2/d@1", 3, 1, 3),
        root_hub("/r1"),
        device("/r1/d@5", 2, 5, 4),
    ];
    let all = walk_devices(&nodes).unwrap();
    for k in 0..=nodes.len() {
        let part = walk_devices(&nodes[..k]).unwrap();
        assert!(part.len() <= all.len());
        for (a, b) in part.iter().zip(all.iter()) {
            assert_eq!(a.device_address, b.device_address);
            assert_eq!(a.port_chain, b.port_chain);
            assert_eq!(a.bus_id, b.bus_id);
        }
    }
}

#[test]
fn reported_devices_are_well_formed() {
    let nodes = vec![
        root_hub("/r0"),
        hub("/r0/h@2", 2, 2),
        device("/r0/h@2/d@1", 3, 1, 3),
        device("/r0/d@7", 2, 7, 4),
    ];
    for d in walk_devices(&nodes).unwrap() {
        assert!(!d.port_chain.is_empty());
        assert!(d.bus_id.len() >= 3);
        for w in d.interfaces.windows(2) {
            assert!(w[0].interface_number < w[1].interface_number);
        }
    }
}

#[test]
fn device_paths_read_back_what_was_written() {
    let mut p = DevicePaths::new();
    assert_eq!(p.get(&s("a")), None);
    p.insert(s("a"), s("/x/a"));
    p.insert(s("b"), s("/x/b"));
    assert_eq!(p.get(&s("a")).map(|v| v.as_str()), Some("/x/a"));
    p.insert(s("a"), s("/y/a"));
    assert_eq!(p.get(&s("a")).map(|v| v.as_str()), Some("/y/a"));
    assert_eq!(p.get(&s("b")).map(|v| v.as_str()), Some("/x/b"));
}

use illumos_usb::descriptors::{
    parse_concatenated_config_descriptors, validate_config_descriptor, validate_device_descriptor,
    Configuration, DeviceDescriptor,
};

fn device_descriptor_bytes() -> Vec<u8> {
    vec![
        18, 1, 0x00, 0x02, 0xff, 0x01, 0x02, 64, 0x83, 0x04, 0x4e, 0x37, 0x00, 0x01, 1, 2, 3, 1,
    ]
}

/// A configuration with interface 1 (two alternate settings) before interface 0.
fn config_bytes() -> Vec<u8> {
    let mut c = vec![9, 2, 0, 0, 2, 1, 0, 0x80, 50];
    // interface 1, alt 0, class 0x0a
    c.extend_from_slice(&[9, 4, 1, 0, 1, 0x0a, 0x00, 0x00, 0]);
    // an endpoint descriptor
    c.extend_from_slice(&[7, 5, 0x81, 2, 64, 0, 0]);
    // interface 0, alt 0, class 0x02
    c.extend_from_slice(&[9, 4, 0, 0, 1, 0x02, 0x02, 0x01, 0]);
    // interface 1, alt 1, class 0x0b
    c.extend_from_slice(&[9, 4, 1, 1, 2, 0x0b, 0x01, 0x02, 0]);
    let total = c.len() as u16;
    c[2] = (total & 0xff) as u8;
    c[3] = (total >> 8) as u8;
    c
}

#[test]
fn device_descriptor_is_validated() {
    let d = device_descriptor_bytes();
    assert_eq!(validate_device_descriptor(&d), Some(18));
    assert_eq!(validate_device_descriptor(&d[..17]), None);
    assert_eq!(validate_device_descriptor(&[]), None);
    let mut short_len = d.clone();
    short_len[0] = 17;
    assert_eq!(validate_device_descriptor(&short_len), None);
    let mut wrong_type = d.clone();
    wrong_type[1] = 2;
    assert_eq!(validate_device_descriptor(&wrong_type), None);
    let mut long_len = d.clone();
    long_len[0] = 20;
    assert_eq!(validate_device_descriptor(&long_len), Some(20));
}

#[test]
fn device_descriptor_fields() {
    let mut buf = device_descriptor_bytes();
    buf.extend_from_slice(&[0xaa, 0xbb]);
    let d = DeviceDescriptor::new(&buf);
    assert_eq!(d.usb_version(), 0x0200);
    assert_eq!(d.class(), 0xff);
    assert_eq!(d.subclass(), 0x01);
    assert_eq!(d.protocol(), 0x02);
    assert_eq!(d.max_packet_size_0(), 64);
    assert_eq!(d.vendor_id(), 0x0483);
    assert_eq!(d.product_id(), 0x374e);
    assert_eq!(d.device_version(), 0x0100);
    assert_eq!(d.num_configurations(), 1);
}

#[test]
fn config_descriptor_is_validated() {
    let c = config_bytes();
    assert_eq!(validate_config_descriptor(&c), Some(c.len()));
    // a longer buffer: the total length still comes from wTotalLength
    let mut longer = c.clone();
    longer.extend_from_slice(&[1, 2, 3]);
    assert_eq!(validate_config_descriptor(&longer), Some(c.len()));
    // wTotalLength beyond the buffer
    assert_eq!(validate_config_descriptor(&c[..c.len() - 1]), None);
    // wTotalLength below bLength
    let mut small_total = c.clone();
    small_total[2] = 8;
    small_total[3] = 0;
    assert_eq!(validate_config_descriptor(&small_total), None);
    let mut wrong_type = c.clone();
    wrong_type[1] = 1;
    assert_eq!(validate_config_descriptor(&wrong_type), None);
    assert_eq!(validate_config_descriptor(&c[..8]), None);
}

#[test]
fn interfaces_are_grouped_and_sorted() {
    let c = Configuration::new(&config_bytes());
    assert_eq!(c.num_interfaces(), 2);
    assert_eq!(c.configuration_value(), 1);
    let alts = c.interface_alt_settings();
    assert_eq!(alts.len(), 3);
    assert_eq!(alts[0].interface_number(), 1);
    assert_eq!(alts[1].interface_number(), 0);
    assert_eq!(alts[2].alternate_setting(), 1);
    assert_eq!(alts[2].num_endpoints(), 2);
    let groups = c.interfaces();
    assert_eq!(groups.len(), 2);
    assert_eq!(groups[0].interface_number(), 0);
    assert_eq!(groups[0].first_alt_setting().class(), 0x02);
    assert_eq!(groups[0].first_alt_setting().subclass(), 0x02);
    assert_eq!(groups[0].first_alt_setting().protocol(), 0x01);
    assert_eq!(groups[1].interface_number(), 1);
    assert_eq!(groups[1].first_alt_setting().class(), 0x0a);
    assert_eq!(groups[1].first_alt_setting().alternate_setting(), 0);
}

#[test]
fn malformed_descriptor_ends_the_walk() {
    let mut c = config_bytes();
    // make the endpoint descriptor's bLength 1: nothing after it is read
    c[18] = 1;
    let cfg = Configuration::new(&c);
    let alts = cfg.interface_alt_settings();
    assert_eq!(alts.len(), 1);
    assert_eq!(alts[0].interface_number(), 1);
}

#[test]
fn concatenated_configurations_are_split() {
    let c = config_bytes();
    let mut both = c.clone();
    let mut second = vec![9, 2, 9, 0, 0, 2, 0, 0x80, 50];
    both.append(&mut second);
    both.extend_from_slice(&[0, 0, 0]);
    let parts = parse_concatenated_config_descriptors(&both);
    assert_eq!(parts.len(), 2);
    assert_eq!(parts[0], c);
    assert_eq!(parts[1], vec![9, 2, 9, 0, 0, 2, 0, 0x80, 50]);
    // each part is itself a valid configuration of its own length
    for p in &parts {
        assert_eq!(validate_config_descriptor(p), Some(p.len()));
    }
    assert!(parse_concatenated_config_descriptors(&[]).is_empty());
}

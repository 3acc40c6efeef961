use illumos_usb::control::{request_type, ControlIn, ControlType, Direction, Recipient};
use illumos_usb::device::{
    configuration_request, DescriptorFetch, DescriptorType, IllumosDeviceData,
};
use illumos_usb::text::zero_padded_decimal;

#[test]
fn request_type_bits() {
    assert_eq!(request_type(Direction::In, ControlType::Standard, Recipient::Device), 0x80);
    assert_eq!(request_type(Direction::Out, ControlType::Vendor, Recipient::Other), 0x43);
    assert_eq!(request_type(Direction::In, ControlType::Class, Recipient::Interface), 0xa1);
    assert_eq!(request_type(Direction::Out, ControlType::Standard, Recipient::Endpoint), 0x02);
}

#[test]
fn setup_packet_layout() {
    let c = ControlIn {
        control_type: ControlType::Vendor,
        recipient: Recipient::Interface,
        request: 0x33,
        value: 0x1234,
        index: 0xabcd,
        length: 0x0102,
    };
    assert_eq!(c.setup_packet(), [0xc1, 0x33, 0x34, 0x12, 0xcd, 0xab, 0x02, 0x01]);
}

#[test]
fn descriptor_values() {
    assert_eq!(DescriptorType::Device.to_value(), 0x0100);
    assert_eq!(DescriptorType::Configuration { index: 0 }.to_value(), 0x0200);
    assert_eq!(DescriptorType::Configuration { index: 5 }.to_value(), 0x0205);
    assert_eq!(DescriptorType::String { index: 0xff }.to_value(), 0x03ff);
    // distinct requests carry distinct values
    assert_ne!(
        DescriptorType::Configuration { index: 1 }.to_value(),
        DescriptorType::String { index: 1 }.to_value()
    );
}

#[test]
fn descriptor_fetch_in_two_rounds() {
    let mut f = DescriptorFetch::new(DescriptorType::Configuration { index: 0 });
    assert_eq!(f.setup_packet(), [0x80, 0x06, 0x00, 0x02, 0x00, 0x00, 0x09, 0x00]);
    let header = [9u8, 2, 0x20, 0x01, 1, 1, 0, 0x80, 50];
    assert_eq!(f.header_received(&header), 0x0120);
    assert_eq!(f.setup_packet(), [0x80, 0x06, 0x00, 0x02, 0x00, 0x00, 0x20, 0x01]);
}

#[test]
fn configuration_request_packet() {
    assert_eq!(configuration_request(), [0x80, 0x08, 0, 0, 0, 0, 1, 0]);
}

#[test]
fn device_data_accessors() {
    let dd = vec![
        18, 1, 0x10, 0x02, 0, 0, 0, 8, 0x34, 0x12, 0x78, 0x56, 0x01, 0x00, 0, 0, 0, 2,
    ];
    let cfg1 = vec![9, 2, 9, 0, 0, 1, 0, 0x80, 50];
    let cfg2 = vec![9, 2, 9, 0, 0, 2, 0, 0x80, 50];
    let mut cfgs = cfg1.clone();
    cfgs.extend_from_slice(&cfg2);
    let d = IllumosDeviceData::new(dd, cfgs, 2);
    assert!(d.has_valid_device_descriptor());
    assert_eq!(d.device_descriptor().vendor_id(), 0x1234);
    assert_eq!(d.device_descriptor().product_id(), 0x5678);
    assert_eq!(d.configuration_descriptors(), vec![cfg1, cfg2]);
    assert_eq!(d.active_configuration_value(), 2);
    assert!(d.speed().is_none());
    let bad = IllumosDeviceData::new(vec![1, 2, 3], vec![], 0);
    assert!(!bad.has_valid_device_descriptor());
    assert!(bad.configuration_descriptors().is_empty());
}

#[test]
fn zero_padded_numbers() {
    assert_eq!(zero_padded_decimal(0, 3), "000");
    assert_eq!(zero_padded_decimal(7, 3), "007");
    assert_eq!(zero_padded_decimal(42, 3), "042");
    assert_eq!(zero_padded_decimal(999, 3), "999");
    assert_eq!(zero_padded_decimal(1234, 3), "1234");
    assert_eq!(zero_padded_decimal(u64::MAX, 3), u64::MAX.to_string());
}

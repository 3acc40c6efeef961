use vstd::prelude::*;

use crate::bytes::{le16, read_le16};
use crate::control::{ControlIn, ControlType, Recipient, Speed, setup_packet_of};
use crate::enumeration::DeviceInfo;
use crate::text::text;
use crate::descriptors::{
    byte_views, concatenated_configs_from, device_descriptor_len,
    parse_concatenated_config_descriptors, DeviceDescriptor, DESCRIPTOR_LEN_DEVICE,
};

verus! {

// Names match those of the header files under usr/src/uts/common/sys/usb.
/// The size of a configuration descriptor's header.
pub const USB_CFG_DESCR_SIZE: u16 = 9;

/// `GET_DESCRIPTOR`.
pub const USB_REQ_GET_DESCR: u8 = 0x06;

/// `GET_CONFIGURATION`.
pub const USB_REQ_GET_CFG: u8 = 0x08;

/// Which descriptor a `GET_DESCRIPTOR` request asks for.
#[derive(Clone, Copy, Debug, PartialEq, Eq, Structural)]
pub enum DescriptorType {
    Device,
    Configuration { index: u8 },
    String { index: u8 },
}

/// The `bDescriptorType` a request for `d` names.
pub open spec fn descriptor_type_code(d: DescriptorType) -> nat {
    match d {
        DescriptorType::Device => 1,
        DescriptorType::Configuration { .. } => 2,
        DescriptorType::String { .. } => 3,
    }
}

/// The descriptor index a request for `d` names.
pub open spec fn descriptor_index(d: DescriptorType) -> nat {
    match d {
        DescriptorType::Device => 0,
        DescriptorType::Configuration { index } => index as nat,
        DescriptorType::String { index } => index as nat,
    }
}

/// `wValue` of a `GET_DESCRIPTOR` request: the type in the high byte, the index in the low byte.
pub open spec fn descriptor_value(d: DescriptorType) -> nat {
    256 * descriptor_type_code(d) + descriptor_index(d)
}

impl DescriptorType {
    /// `wValue` of a `GET_DESCRIPTOR` request for this descriptor.
    pub fn to_value(&self) -> (r: u16)
        ensures
            r as nat == descriptor_value(*self),
            match *self {
                DescriptorType::Device => r == 0x0100,
                DescriptorType::Configuration { index } => r == 0x0200 + index as u16,
                DescriptorType::String { index } => r == 0x0300 + index as u16,
            },
    {
        let high_byte: u16 = match self {
            DescriptorType::Device => 1,
            DescriptorType::Configuration { .. } => 2,
            DescriptorType::String { .. } => 3,
        };
        let low_byte: u16 = match self {
            DescriptorType::Device => 0,
            DescriptorType::Configuration { index } => *index as u16,
            DescriptorType::String { index } => *index as u16,
        };
        let r: u16 = high_byte << 8u16 | low_byte;
        assert(r == 256 * high_byte + low_byte) by (bit_vector)
            requires
                high_byte <= 3,
                low_byte <= 255,
                r == high_byte << 8u16 | low_byte,
        ;
        r
    }
}

/// `wValue` puts the descriptor type in its high byte (1 for the device
/// descriptor, 2 for a configuration, 3 for a string) and the index, as
/// given, in its low byte (0 for the device descriptor).
pub proof fn lemma_descriptor_value_bytes(d: DescriptorType)
    ensures
        descriptor_value(d) / 256 == match d {
            DescriptorType::Device => 1nat,
            DescriptorType::Configuration { .. } => 2nat,
            DescriptorType::String { .. } => 3nat,
        },
        descriptor_value(d) % 256 == match d {
            DescriptorType::Device => 0nat,
            DescriptorType::Configuration { index: i } => i as nat,
            DescriptorType::String { index: i } => i as nat,
        },
{
}

/// Distinct descriptor requests carry distinct values of `wValue`.
pub proof fn lemma_descriptor_value_injective(a: DescriptorType, b: DescriptorType)
    requires
        descriptor_value(a) == descriptor_value(b),
    ensures
        a == b,
{
}

/// The standard `GET_DESCRIPTOR` request for `descriptor_type`, asking for `length` bytes.
pub open spec fn descriptor_request_spec(descriptor_type: DescriptorType, length: u16) -> ControlIn {
    ControlIn {
        control_type: ControlType::Standard,
        recipient: Recipient::Device,
        request: USB_REQ_GET_DESCR,
        value: descriptor_value(descriptor_type) as u16,
        index: 0,
        length,
    }
}

/// The fetch of one descriptor over the control endpoint, in two rounds:
/// first the header, whose `wTotalLength` says how much to ask for, then the
/// whole descriptor. The caller performs each request and hands back the reply.
pub struct DescriptorFetch {
    control: ControlIn,
}

impl View for DescriptorFetch {
    type V = ControlIn;

    closed spec fn view(&self) -> ControlIn {
        self.control
    }
}

impl DescriptorFetch {
    /// Starts a fetch: the request asks for the `USB_CFG_DESCR_SIZE`-byte header.
    pub fn new(descriptor_type: DescriptorType) -> (r: Self)
        ensures
            r@ == descriptor_request_spec(descriptor_type, USB_CFG_DESCR_SIZE),
    {
        let value = descriptor_type.to_value();
        DescriptorFetch {
            control: ControlIn {
                control_type: ControlType::Standard,
                recipient: Recipient::Device,
                request: USB_REQ_GET_DESCR,
                value,
                index: 0,
                length: USB_CFG_DESCR_SIZE,
            },
        }
    }

    /// The setup packet of the current request.
    pub fn setup_packet(&self) -> (r: [u8; 8])
        ensures
            setup_packet_of(self@, r@),
    {
        self.control.setup_packet()
    }

    /// Takes the header that the first request read, and turns the request
    /// into one for `wTotalLength` bytes, which it returns.
    pub fn header_received(&mut self, header: &[u8]) -> (total: u16)
        requires
            header@.len() == USB_CFG_DESCR_SIZE,
        ensures
            total as nat == le16(header@, 2),
            final(self)@ == (ControlIn { length: total, ..old(self)@ }),
    {
        let total = read_le16(header, 2);
        self.control.length = total;
        total
    }
}

/// The standard `GET_CONFIGURATION` request, which reads one byte.
pub open spec fn configuration_request_spec() -> ControlIn {
    ControlIn {
        control_type: ControlType::Standard,
        recipient: Recipient::Device,
        request: USB_REQ_GET_CFG,
        value: 0,
        index: 0,
        length: 1,
    }
}

/// The setup packet that asks a device for its active configuration value.
pub fn configuration_request() -> (r: [u8; 8])
    ensures
        setup_packet_of(configuration_request_spec(), r@),
{
    let control = ControlIn {
        control_type: ControlType::Standard,
        recipient: Recipient::Device,
        request: USB_REQ_GET_CFG,
        value: 0,
        index: 0,
        length: 1,
    };
    control.setup_packet()
}

/// The path of the device's control endpoint: the link named `cntrl0`
/// among its minor nodes' links. The original panics when there is none.
pub fn control_endpoint_path(d: &DeviceInfo) -> (r: Option<String>)
    ensures
        match r {
            Some(p) => d.path.device_paths@.dom().contains("cntrl0"@) && d.path.device_paths@[
                "cntrl0"@] == p@,
            None => !d.path.device_paths@.dom().contains("cntrl0"@),
        },
{
    let key = text("cntrl0");
    match d.path.device_paths.get(&key) {
        Some(p) => Some(p.clone()),
        None => None,
    }
}

/// What an open device read from its control endpoint when it was opened.
pub struct IllumosDeviceData {
    device_descriptor: Vec<u8>,
    config_descriptors: Vec<u8>,
    active_config: u8,
}

impl IllumosDeviceData {
    pub closed spec fn device_descriptor_bytes(&self) -> Seq<u8> {
        self.device_descriptor@
    }

    pub closed spec fn config_descriptor_bytes(&self) -> Seq<u8> {
        self.config_descriptors@
    }

    pub closed spec fn active_config(&self) -> u8 {
        self.active_config
    }

    pub fn new(device_descriptor: Vec<u8>, config_descriptors: Vec<u8>, active_config: u8) -> (r:
        Self)
        ensures
            r.device_descriptor_bytes() == device_descriptor@,
            r.config_descriptor_bytes() == config_descriptors@,
            r.active_config() == active_config,
    {
        IllumosDeviceData { device_descriptor, config_descriptors, active_config }
    }

    /// Whether the device descriptor that was read is well formed; the
    /// original panics when asked for one that is not.
    pub fn has_valid_device_descriptor(&self) -> (r: bool)
        ensures
            r == (device_descriptor_len(self.device_descriptor_bytes()) is Some),
    {
        crate::descriptors::validate_device_descriptor(self.device_descriptor.as_slice()).is_some()
    }

    /// The device descriptor.
    pub fn device_descriptor(&self) -> (r: DeviceDescriptor)
        requires
            device_descriptor_len(self.device_descriptor_bytes()) is Some,
        ensures
            r@ == self.device_descriptor_bytes().take(DESCRIPTOR_LEN_DEVICE as int),
    {
        DeviceDescriptor::new(self.device_descriptor.as_slice())
    }

    /// The configuration descriptors, each with the descriptors that follow it.
    pub fn configuration_descriptors(&self) -> (r: Vec<Vec<u8>>)
        ensures
            byte_views(r@) == concatenated_configs_from(self.config_descriptor_bytes(), 0),
    {
        parse_concatenated_config_descriptors(self.config_descriptors.as_slice())
    }

    /// The value of the configuration that was active when the device was opened.
    pub fn active_configuration_value(&self) -> (r: u8)
        ensures
            r == self.active_config(),
    {
        self.active_config
    }

    /// The speed of the device, which this backend does not learn.
    pub fn speed(&self) -> (r: Option<Speed>)
        ensures
            r is None,
    {
        None
    }
}

} // verus!

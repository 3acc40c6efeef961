use vstd::prelude::*;

use crate::bytes::le16;

verus! {

/// The number of bytes of a control setup packet.
pub const SETUP_PACKET_SIZE: usize = 8;

/// The direction of a transfer, as seen from the host.
#[derive(Clone, Copy, Debug, PartialEq, Eq, Structural)]
pub enum Direction {
    Out,
    In,
}

/// The type of a control request (bits 5 and 6 of `bmRequestType`).
#[derive(Clone, Copy, Debug, PartialEq, Eq, Structural)]
pub enum ControlType {
    Standard,
    Class,
    Vendor,
}

/// The recipient of a control request (bits 0 to 4 of `bmRequestType`).
#[derive(Clone, Copy, Debug, PartialEq, Eq, Structural)]
pub enum Recipient {
    Device,
    Interface,
    Endpoint,
    Other,
}

pub open spec fn direction_code(d: Direction) -> nat {
    match d {
        Direction::Out => 0,
        Direction::In => 1,
    }
}

pub open spec fn control_type_code(t: ControlType) -> nat {
    match t {
        ControlType::Standard => 0,
        ControlType::Class => 1,
        ControlType::Vendor => 2,
    }
}

pub open spec fn recipient_code(r: Recipient) -> nat {
    match r {
        Recipient::Device => 0,
        Recipient::Interface => 1,
        Recipient::Endpoint => 2,
        Recipient::Other => 3,
    }
}

/// `bmRequestType`: direction in bit 7, type in bits 5 and 6, recipient below.
pub open spec fn request_type_code(d: Direction, t: ControlType, r: Recipient) -> nat {
    128 * direction_code(d) + 32 * control_type_code(t) + recipient_code(r)
}

/// Builds `bmRequestType`.
pub fn request_type(direction: Direction, control_type: ControlType, recipient: Recipient) -> (r:
    u8)
    ensures
        r as nat == request_type_code(direction, control_type, recipient),
{
    let d: u8 = match direction {
        Direction::Out => 0,
        Direction::In => 1,
    };
    let t: u8 = match control_type {
        ControlType::Standard => 0,
        ControlType::Class => 1,
        ControlType::Vendor => 2,
    };
    let rc: u8 = match recipient {
        Recipient::Device => 0,
        Recipient::Interface => 1,
        Recipient::Endpoint => 2,
        Recipient::Other => 3,
    };
    let r: u8 = (d << 7u8) | (t << 5u8) | rc;
    assert(r == 128 * d + 32 * t + rc) by (bit_vector)
        requires
            d <= 1,
            t <= 2,
            rc <= 3,
            r == (d << 7u8) | (t << 5u8) | rc,
    ;
    r
}

/// Splits a 16-bit value into its low and high byte.
pub fn le_bytes(v: u16) -> (r: (u8, u8))
    ensures
        r.0 as nat + 256 * (r.1 as nat) == v as nat,
{
    let lo: u8 = (v & 0xff) as u8;
    let hi: u8 = (v >> 8u16) as u8;
    assert(lo as u16 + 256 * (hi as u16) == v) by (bit_vector)
        requires
            lo == (v & 0xff) as u8,
            hi == (v >> 8u16) as u8,
    ;
    (lo, hi)
}

/// A control request whose data stage, if any, goes from the device to the host.
#[derive(Clone, Copy, Debug, PartialEq, Eq, Structural)]
pub struct ControlIn {
    pub control_type: ControlType,
    pub recipient: Recipient,
    pub request: u8,
    pub value: u16,
    pub index: u16,
    pub length: u16,
}

/// What the setup packet of an IN request holds: `bmRequestType`, `bRequest`,
/// then `wValue`, `wIndex` and `wLength` in little-endian order.
pub open spec fn setup_packet_of(c: ControlIn, p: Seq<u8>) -> bool {
    &&& p.len() == SETUP_PACKET_SIZE
    &&& p[0] as nat == request_type_code(Direction::In, c.control_type, c.recipient)
    &&& p[1] == c.request
    &&& le16(p, 2) == c.value as nat
    &&& le16(p, 4) == c.index as nat
    &&& le16(p, 6) == c.length as nat
}

impl ControlIn {
    /// The 8-byte setup packet of the request.
    pub fn setup_packet(&self) -> (r: [u8; 8])
        ensures
            setup_packet_of(*self, r@),
    {
        let rt = request_type(Direction::In, self.control_type, self.recipient);
        let (v0, v1) = le_bytes(self.value);
        let (i0, i1) = le_bytes(self.index);
        let (l0, l1) = le_bytes(self.length);
        let r: [u8; 8] = [rt, self.request, v0, v1, i0, i1, l0, l1];
        assert(r@ =~= seq![rt, self.request, v0, v1, i0, i1, l0, l1]);
        r
    }
}

/// Why a transfer did not complete.
#[derive(Clone, Copy, Debug, PartialEq, Eq, Structural)]
pub enum TransferError {
    Cancelled,
    Stall,
    Disconnected,
    Fault,
    Unknown,
}

/// The speed at which a device runs.
#[derive(Clone, Copy, Debug, PartialEq, Eq, Structural)]
pub enum Speed {
    Low,
    Full,
    High,
    Super,
    SuperPlus,
}

} // verus!

use vstd::prelude::*;

use crate::bytes::{copy_range, le16, read_le16};

verus! {

pub const DESCRIPTOR_TYPE_DEVICE: u8 = 0x01;
pub const DESCRIPTOR_LEN_DEVICE: u8 = 18;
pub const DESCRIPTOR_TYPE_CONFIGURATION: u8 = 0x02;
pub const DESCRIPTOR_LEN_CONFIGURATION: u8 = 9;
pub const DESCRIPTOR_TYPE_INTERFACE: u8 = 0x04;
pub const DESCRIPTOR_LEN_INTERFACE: u8 = 9;

/// The `bLength` of the device descriptor at the start of `buf`, when the
/// buffer holds a whole one whose header is well formed.
pub open spec fn device_descriptor_len(buf: Seq<u8>) -> Option<nat> {
    if buf.len() >= DESCRIPTOR_LEN_DEVICE && buf[0] >= DESCRIPTOR_LEN_DEVICE && buf[1]
        == DESCRIPTOR_TYPE_DEVICE {
        Some(buf[0] as nat)
    } else {
        None
    }
}

/// Checks the header of a device descriptor and returns its `bLength`.
pub fn validate_device_descriptor(buf: &[u8]) -> (r: Option<usize>)
    ensures
        match r {
            Some(n) => device_descriptor_len(buf@) == Some(n as nat),
            None => device_descriptor_len(buf@) is None,
        },
{
    if buf.len() < DESCRIPTOR_LEN_DEVICE as usize {
        return None;
    }
    if buf[0] < DESCRIPTOR_LEN_DEVICE {
        return None;
    }
    if buf[1] != DESCRIPTOR_TYPE_DEVICE {
        return None;
    }
    Some(buf[0] as usize)
}

/// The `wTotalLength` of the configuration descriptor at the start of `buf`,
/// when its header is well formed and the buffer holds all of it.
pub open spec fn config_descriptor_len(buf: Seq<u8>) -> Option<nat> {
    if buf.len() >= DESCRIPTOR_LEN_CONFIGURATION && buf[0] >= DESCRIPTOR_LEN_CONFIGURATION
        && buf[1] == DESCRIPTOR_TYPE_CONFIGURATION && buf[0] <= le16(buf, 2) && le16(buf, 2)
        <= buf.len() {
        Some(le16(buf, 2))
    } else {
        None
    }
}

/// Checks the header of a configuration descriptor and returns its `wTotalLength`.
pub fn validate_config_descriptor(buf: &[u8]) -> (r: Option<usize>)
    ensures
        match r {
            Some(n) => config_descriptor_len(buf@) == Some(n as nat),
            None => config_descriptor_len(buf@) is None,
        },
{
    if buf.len() < DESCRIPTOR_LEN_CONFIGURATION as usize {
        return None;
    }
    if buf[0] < DESCRIPTOR_LEN_CONFIGURATION {
        return None;
    }
    if buf[1] != DESCRIPTOR_TYPE_CONFIGURATION {
        return None;
    }
    let total = read_le16(buf, 2) as usize;
    if total < buf[0] as usize || total > buf.len() {
        return None;
    }
    Some(total)
}


/// A device descriptor: the first `DESCRIPTOR_LEN_DEVICE` bytes of a buffer
/// whose header `validate_device_descriptor` accepted.
pub struct DeviceDescriptor {
    raw: Vec<u8>,
}

impl View for DeviceDescriptor {
    type V = Seq<u8>;

    closed spec fn view(&self) -> Seq<u8> {
        self.raw@
    }
}

impl DeviceDescriptor {
    #[verifier::type_invariant]
    spec fn inv(self) -> bool {
        self.raw@.len() == DESCRIPTOR_LEN_DEVICE
    }

    /// Takes the device descriptor at the start of `buf`; the original panics
    /// on a buffer that does not hold one.
    pub fn new(buf: &[u8]) -> (r: Self)
        requires
            device_descriptor_len(buf@) is Some,
        ensures
            r@ == buf@.take(DESCRIPTOR_LEN_DEVICE as int),
    {
        let raw = copy_range(buf, 0, DESCRIPTOR_LEN_DEVICE as usize);
        DeviceDescriptor { raw }
    }

    /// `bcdUSB`.
    pub fn usb_version(&self) -> (r: u16)
        ensures
            r as nat == le16(self@, 2),
    {
        proof {
            use_type_invariant(self);
        }
        read_le16(self.raw.as_slice(), 2)
    }

    /// `bDeviceClass`.
    pub fn class(&self) -> (r: u8)
        ensures
            r == self@[4],
    {
        proof {
            use_type_invariant(self);
        }
        self.raw[4]
    }

    /// `bDeviceSubClass`.
    pub fn subclass(&self) -> (r: u8)
        ensures
            r == self@[5],
    {
        proof {
            use_type_invariant(self);
        }
        self.raw[5]
    }

    /// `bDeviceProtocol`.
    pub fn protocol(&self) -> (r: u8)
        ensures
            r == self@[6],
    {
        proof {
            use_type_invariant(self);
        }
        self.raw[6]
    }

    /// `bMaxPacketSize0`.
    pub fn max_packet_size_0(&self) -> (r: u8)
        ensures
            r == self@[7],
    {
        proof {
            use_type_invariant(self);
        }
        self.raw[7]
    }

    /// `idVendor`.
    pub fn vendor_id(&self) -> (r: u16)
        ensures
            r as nat == le16(self@, 8),
    {
        proof {
            use_type_invariant(self);
        }
        read_le16(self.raw.as_slice(), 8)
    }

    /// `idProduct`.
    pub fn product_id(&self) -> (r: u16)
        ensures
            r as nat == le16(self@, 10),
    {
        proof {
            use_type_invariant(self);
        }
        read_le16(self.raw.as_slice(), 10)
    }

    /// `bcdDevice`.
    pub fn device_version(&self) -> (r: u16)
        ensures
            r as nat == le16(self@, 12),
    {
        proof {
            use_type_invariant(self);
        }
        read_le16(self.raw.as_slice(), 12)
    }

    /// `bNumConfigurations`.
    pub fn num_configurations(&self) -> (r: u8)
        ensures
            r == self@[17],
    {
        proof {
            use_type_invariant(self);
        }
        self.raw[17]
    }
}

/// Whether a descriptor can start at `off`: its `bLength` is at least 2 and
/// the buffer holds all of it.
pub open spec fn descriptor_fits(buf: Seq<u8>, off: int) -> bool {
    &&& 0 <= off < buf.len()
    &&& buf[off] >= 2
    &&& off + buf[off] <= buf.len()
}

/// Whether a descriptor is an interface descriptor that holds all its fields.
pub open spec fn is_interface_descriptor(d: Seq<u8>) -> bool {
    d.len() >= DESCRIPTOR_LEN_INTERFACE && d[1] == DESCRIPTOR_TYPE_INTERFACE
}

/// The descriptors of `buf` from offset `off` on, each `bLength` bytes long,
/// up to the end of the buffer or the first one that does not fit.
pub open spec fn descriptors_from(buf: Seq<u8>, off: int) -> Seq<Seq<u8>>
    decreases buf.len() - off,
{
    if descriptor_fits(buf, off) {
        seq![buf.subrange(off, off + buf[off])].add(descriptors_from(buf, off + buf[off]))
    } else {
        Seq::empty()
    }
}

/// The interface descriptors among `descriptors_from(buf, off)`, in order.
pub open spec fn interface_descriptors_from(buf: Seq<u8>, off: int) -> Seq<Seq<u8>>
    decreases buf.len() - off,
{
    if descriptor_fits(buf, off) {
        let d = buf.subrange(off, off + buf[off]);
        let rest = interface_descriptors_from(buf, off + buf[off]);
        if is_interface_descriptor(d) {
            seq![d].add(rest)
        } else {
            rest
        }
    } else {
        Seq::empty()
    }
}

/// The members of `alts` whose `bInterfaceNumber` is `n`, in order.
pub open spec fn alts_numbered(alts: Seq<Seq<u8>>, n: u8) -> Seq<Seq<u8>>
    decreases alts.len(),
{
    if alts.len() == 0 {
        Seq::empty()
    } else {
        let prev = alts_numbered(alts.drop_last(), n);
        if alts.last()[2] == n {
            prev.push(alts.last())
        } else {
            prev
        }
    }
}

/// The interfaces numbered below `bound` that have at least one alternate
/// setting in `alts`, in increasing order of number, each with its alternate
/// settings in the order in which they come.
pub open spec fn interface_groups(alts: Seq<Seq<u8>>, bound: nat) -> Seq<(u8, Seq<Seq<u8>>)>
    decreases bound,
{
    if bound == 0 {
        Seq::empty()
    } else {
        let prev = interface_groups(alts, (bound - 1) as nat);
        let n = (bound - 1) as u8;
        let members = alts_numbered(alts, n);
        if members.len() > 0 {
            prev.push((n, members))
        } else {
            prev
        }
    }
}

/// An interface descriptor (one alternate setting of an interface).
pub struct InterfaceAltSetting {
    raw: Vec<u8>,
}

impl View for InterfaceAltSetting {
    type V = Seq<u8>;

    closed spec fn view(&self) -> Seq<u8> {
        self.raw@
    }
}

impl InterfaceAltSetting {
    #[verifier::type_invariant]
    spec fn inv(self) -> bool {
        is_interface_descriptor(self.raw@)
    }

    fn duplicate(&self) -> (r: Self)
        ensures
            r@ == self@,
    {
        proof {
            use_type_invariant(self);
        }
        let raw = copy_range(self.raw.as_slice(), 0, self.raw.len());
        assert(raw@ =~= self.raw@);
        InterfaceAltSetting { raw }
    }

    /// `bInterfaceNumber`.
    pub fn interface_number(&self) -> (r: u8)
        ensures
            r == self@[2],
    {
        proof {
            use_type_invariant(self);
        }
        self.raw[2]
    }

    /// `bAlternateSetting`.
    pub fn alternate_setting(&self) -> (r: u8)
        ensures
            r == self@[3],
    {
        proof {
            use_type_invariant(self);
        }
        self.raw[3]
    }

    /// `bNumEndpoints`.
    pub fn num_endpoints(&self) -> (r: u8)
        ensures
            r == self@[4],
    {
        proof {
            use_type_invariant(self);
        }
        self.raw[4]
    }

    /// `bInterfaceClass`.
    pub fn class(&self) -> (r: u8)
        ensures
            r == self@[5],
    {
        proof {
            use_type_invariant(self);
        }
        self.raw[5]
    }

    /// `bInterfaceSubClass`.
    pub fn subclass(&self) -> (r: u8)
        ensures
            r == self@[6],
    {
        proof {
            use_type_invariant(self);
        }
        self.raw[6]
    }

    /// `bInterfaceProtocol`.
    pub fn protocol(&self) -> (r: u8)
        ensures
            r == self@[7],
    {
        proof {
            use_type_invariant(self);
        }
        self.raw[7]
    }
}

/// The byte views of a sequence of alternate settings.
pub open spec fn alt_views(alts: Seq<InterfaceAltSetting>) -> Seq<Seq<u8>> {
    alts.map_values(|a: InterfaceAltSetting| a@)
}

/// All alternate settings of one interface.
pub struct InterfaceGroup {
    interface_number: u8,
    alt_settings: Vec<InterfaceAltSetting>,
}

impl View for InterfaceGroup {
    type V = (u8, Seq<Seq<u8>>);

    closed spec fn view(&self) -> (u8, Seq<Seq<u8>>) {
        (self.interface_number, alt_views(self.alt_settings@))
    }
}

impl InterfaceGroup {
    #[verifier::type_invariant]
    spec fn inv(self) -> bool {
        self.alt_settings@.len() > 0
    }

    pub fn interface_number(&self) -> (r: u8)
        ensures
            r == self@.0,
    {
        self.interface_number
    }

    /// The alternate setting listed first for this interface.
    pub fn first_alt_setting(&self) -> (r: &InterfaceAltSetting)
        ensures
            self@.1.len() > 0,
            r@ == self@.1[0],
    {
        proof {
            use_type_invariant(self);
        }
        &self.alt_settings[0]
    }
}

/// The byte views of a sequence of interface groups.
pub open spec fn group_views(groups: Seq<InterfaceGroup>) -> Seq<(u8, Seq<Seq<u8>>)> {
    groups.map_values(|g: InterfaceGroup| g@)
}

/// A configuration descriptor together with the descriptors that follow it,
/// `wTotalLength` bytes in all.
pub struct Configuration {
    raw: Vec<u8>,
}

impl View for Configuration {
    type V = Seq<u8>;

    closed spec fn view(&self) -> Seq<u8> {
        self.raw@
    }
}

impl Configuration {
    #[verifier::type_invariant]
    spec fn inv(self) -> bool {
        config_descriptor_len(self.raw@) == Some(self.raw@.len())
    }

    /// Takes the configuration at the start of `buf`; the original panics on
    /// a buffer that does not hold one.
    pub fn new(buf: &[u8]) -> (r: Self)
        requires
            config_descriptor_len(buf@) is Some,
        ensures
            r@ == buf@.take(config_descriptor_len(buf@)->0 as int),
    {
        let total = validate_config_descriptor(buf);
        let total = match total {
            Some(t) => t,
            None => 0,
        };
        let raw = copy_range(buf, 0, total);
        assert(raw@.subrange(2, 4) =~= buf@.subrange(2, 4));
        Configuration { raw }
    }

    /// `bConfigurationValue`.
    pub fn configuration_value(&self) -> (r: u8)
        ensures
            r == self@[5],
    {
        proof {
            use_type_invariant(self);
        }
        self.raw[5]
    }

    /// `bNumInterfaces`.
    pub fn num_interfaces(&self) -> (r: u8)
        ensures
            r == self@[4],
    {
        proof {
            use_type_invariant(self);
        }
        self.raw[4]
    }

    /// Every interface descriptor of the configuration, in order.
    pub fn interface_alt_settings(&self) -> (r: Vec<InterfaceAltSetting>)
        ensures
            alt_views(r@) == interface_descriptors_from(self@, 0),
    {
        let buf = self.raw.as_slice();
        let mut r: Vec<InterfaceAltSetting> = Vec::new();
        let mut off: usize = 0;
        while off < buf.len() && buf[off] >= 2 && buf[off] as usize <= buf.len() - off
            invariant
                off <= buf@.len(),
                buf@ == self@,
                alt_views(r@).add(interface_descriptors_from(buf@, off as int))
                    == interface_descriptors_from(buf@, 0),
            decreases buf@.len() - off,
        {
            let len = buf[off] as usize;
            let d = copy_range(buf, off, off + len);
            let ghost prev = r@;
            if d.len() >= DESCRIPTOR_LEN_INTERFACE as usize && d[1] == DESCRIPTOR_TYPE_INTERFACE {
                r.push(InterfaceAltSetting { raw: d });
                assert(alt_views(r@) =~= alt_views(prev).push(d@));
            }
            off = off + len;
            assert(alt_views(r@).add(interface_descriptors_from(buf@, off as int))
                =~= interface_descriptors_from(buf@, 0));
        }
        assert(interface_descriptors_from(buf@, off as int) =~= Seq::<Seq<u8>>::empty());
        assert(alt_views(r@).add(Seq::<Seq<u8>>::empty()) =~= alt_views(r@));
        r
    }

    /// The interfaces of the configuration, in increasing order of number,
    /// each with its alternate settings in the order in which they come.
    pub fn interfaces(&self) -> (r: Vec<InterfaceGroup>)
        ensures
            group_views(r@) == interface_groups(interface_descriptors_from(self@, 0), 256),
    {
        let alts = self.interface_alt_settings();
        let ghost av = alt_views(alts@);
        let mut groups: Vec<InterfaceGroup> = Vec::new();
        let mut n: u16 = 0;
        while n < 256
            invariant
                n <= 256,
                av == alt_views(alts@),
                group_views(groups@) == interface_groups(av, n as nat),
            decreases 256 - n,
        {
            let num = n as u8;
            let mut members: Vec<InterfaceAltSetting> = Vec::new();
            let mut i: usize = 0;
            while i < alts.len()
                invariant
                    i <= alts@.len(),
                    av == alt_views(alts@),
                    num == n as u8,
                    alt_views(members@) == alts_numbered(av.take(i as int), num),
                decreases alts@.len() - i,
            {
                let ghost prev = members@;
                assert(av.take(i + 1).drop_last() =~= av.take(i as int));
                if alts[i].interface_number() == num {
                    members.push(alts[i].duplicate());
                    assert(alt_views(members@) =~= alt_views(prev).push(av[i as int]));
                }
                i = i + 1;
            }
            assert(av.take(alts@.len() as int) =~= av);
            let ghost prev_groups = groups@;
            if members.len() > 0 {
                groups.push(InterfaceGroup { interface_number: num, alt_settings: members });
                assert(group_views(groups@) =~= group_views(prev_groups).push(
                    (num, alts_numbered(av, num)),
                ));
            }
            n = n + 1;
        }
        groups
    }
}

/// The configurations laid end to end in `buf` from offset `off` on, up to
/// the first that `validate_config_descriptor` does not accept.
pub open spec fn concatenated_configs_from(buf: Seq<u8>, off: int) -> Seq<Seq<u8>>
    decreases buf.len() - off,
{
    if 0 <= off <= buf.len() && config_descriptor_len(buf.skip(off)) is Some {
        let total = config_descriptor_len(buf.skip(off))->0;
        seq![buf.subrange(off, off + total)].add(concatenated_configs_from(buf, off + total))
    } else {
        Seq::empty()
    }
}

/// The byte views of a sequence of byte vectors.
pub open spec fn byte_views(v: Seq<Vec<u8>>) -> Seq<Seq<u8>> {
    v.map_values(|x: Vec<u8>| x@)
}

/// Splits a buffer that holds configuration descriptors laid end to end.
pub fn parse_concatenated_config_descriptors(buf: &[u8]) -> (r: Vec<Vec<u8>>)
    ensures
        byte_views(r@) == concatenated_configs_from(buf@, 0),
{
    let mut r: Vec<Vec<u8>> = Vec::new();
    let mut off: usize = 0;
    loop
        invariant
            off <= buf@.len(),
            byte_views(r@).add(concatenated_configs_from(buf@, off as int))
                == concatenated_configs_from(buf@, 0),
        decreases buf@.len() - off,
    {
        let rest = copy_range(buf, off, buf.len());
        assert(rest@ =~= buf@.skip(off as int));
        match validate_config_descriptor(rest.as_slice()) {
            Some(total) => {
                let chunk = copy_range(buf, off, off + total);
                let ghost prev = byte_views(r@);
                r.push(chunk);
                assert(byte_views(r@) =~= prev.push(chunk@));
                off = off + total;
                assert(byte_views(r@).add(concatenated_configs_from(buf@, off as int))
                    =~= concatenated_configs_from(buf@, 0));
            },
            None => {
                assert(byte_views(r@).add(concatenated_configs_from(buf@, off as int))
                    =~= byte_views(r@));
                return r;
            },
        }
    }
}


proof fn lemma_numbered_members(alts: Seq<Seq<u8>>, n: u8)
    ensures
        forall|k: int|
            0 <= k < alts_numbered(alts, n).len() ==> (#[trigger] alts_numbered(alts, n)[k])[2]
                == n,
    decreases alts.len(),
{
    if alts.len() > 0 {
        lemma_numbered_members(alts.drop_last(), n);
        let prev = alts_numbered(alts.drop_last(), n);
        let cur = alts_numbered(alts, n);
        assert forall|k: int| 0 <= k < cur.len() implies (#[trigger] cur[k])[2] == n by {
            if k < prev.len() {
                assert(cur[k] == prev[k]);
            }
        }
    }
}

proof fn lemma_numbered_nonempty(alts: Seq<Seq<u8>>, k: int)
    requires
        0 <= k < alts.len(),
    ensures
        alts_numbered(alts, alts[k][2]).len() > 0,
    decreases alts.len(),
{
    if k < alts.len() - 1 {
        lemma_numbered_nonempty(alts.drop_last(), k);
        assert(alts.drop_last()[k] == alts[k]);
    }
}

proof fn lemma_groups_below(alts: Seq<Seq<u8>>, bound: nat)
    requires
        bound <= 256,
    ensures
        forall|i: int, j: int|
            0 <= i < j < interface_groups(alts, bound).len() ==> (#[trigger] interface_groups(
                alts,
                bound,
            )[i]).0 < (#[trigger] interface_groups(alts, bound)[j]).0,
        forall|i: int|
            0 <= i < interface_groups(alts, bound).len() ==> {
                let g = #[trigger] interface_groups(alts, bound)[i];
                &&& (g.0 as nat) < bound
                &&& g.1 == alts_numbered(alts, g.0)
                &&& g.1.len() > 0
            },
        forall|n: u8|
            (n as nat) < bound && #[trigger] alts_numbered(alts, n).len() > 0 ==> exists|i: int|
                0 <= i < interface_groups(alts, bound).len() && (#[trigger] interface_groups(
                    alts,
                    bound,
                )[i]).0 == n,
    decreases bound,
{
    if bound > 0 {
        let b1 = (bound - 1) as nat;
        lemma_groups_below(alts, b1);
        let prev = interface_groups(alts, b1);
        let n = b1 as u8;
        assert(n as nat == b1);
        let g = interface_groups(alts, bound);
        if alts_numbered(alts, n).len() > 0 {
            assert(g == prev.push((n, alts_numbered(alts, n))));
            assert forall|m: u8|
                (m as nat) < bound && #[trigger] alts_numbered(alts, m).len() > 0 implies exists|
                i: int,
            | 0 <= i < g.len() && (#[trigger] g[i]).0 == m by {
                if m == n {
                    assert(g[prev.len() as int].0 == m);
                } else {
                    let i = choose|i: int| 0 <= i < prev.len() && (#[trigger] prev[i]).0 == m;
                    assert(g[i] == prev[i]);
                }
            }
        } else {
            assert(g == prev);
            assert forall|m: u8|
                (m as nat) < bound && #[trigger] alts_numbered(alts, m).len() > 0 implies exists|
                i: int,
            | 0 <= i < g.len() && (#[trigger] g[i]).0 == m by {
                assert(m != n);
            }
        }
    }
}

/// The interfaces of a configuration come in strictly increasing order of
/// number, so each number comes once; each has at least one alternate
/// setting, all of them with its number; and every interface descriptor of
/// the configuration belongs to one of them.
pub proof fn lemma_interfaces_sorted_and_complete(alts: Seq<Seq<u8>>)
    ensures
        forall|i: int, j: int|
            0 <= i < j < interface_groups(alts, 256).len() ==> (#[trigger] interface_groups(
                alts,
                256,
            )[i]).0 < (#[trigger] interface_groups(alts, 256)[j]).0,
        forall|i: int, k: int|
            0 <= i < interface_groups(alts, 256).len() && 0 <= k < interface_groups(
                alts,
                256,
            )[i].1.len() ==> (#[trigger] interface_groups(alts, 256)[i].1[k])[2] == interface_groups(
                alts,
                256,
            )[i].0,
        forall|i: int|
            0 <= i < interface_groups(alts, 256).len() ==> (#[trigger] interface_groups(
                alts,
                256,
            )[i]).1.len() > 0,
        forall|k: int|
            0 <= k < alts.len() ==> exists|i: int|
                0 <= i < interface_groups(alts, 256).len() && (#[trigger] interface_groups(
                    alts,
                    256,
                )[i]).0 == (#[trigger] alts[k])[2],
{
    lemma_groups_below(alts, 256);
    let g = interface_groups(alts, 256);
    assert forall|i: int, k: int| 0 <= i < g.len() && 0 <= k < g[i].1.len() implies (
    #[trigger] g[i].1[k])[2] == g[i].0 by {
        lemma_numbered_members(alts, g[i].0);
    }
    assert forall|k: int| 0 <= k < alts.len() implies exists|i: int|
        0 <= i < g.len() && (#[trigger] g[i]).0 == (#[trigger] alts[k])[2] by {
        lemma_numbered_nonempty(alts, k);
        let n = alts[k][2];
        assert((n as nat) < 256);
        assert(alts_numbered(alts, n).len() > 0);
    }
}

/// Every configuration that `parse_concatenated_config_descriptors` splits
/// off is itself a configuration that `validate_config_descriptor` accepts,
/// with a `wTotalLength` equal to its length.
pub proof fn lemma_concatenated_configs_valid(buf: Seq<u8>, off: int)
    ensures
        forall|i: int|
            0 <= i < concatenated_configs_from(buf, off).len() ==> config_descriptor_len(
                #[trigger] concatenated_configs_from(buf, off)[i],
            ) == Some(concatenated_configs_from(buf, off)[i].len()),
    decreases buf.len() - off,
{
    if 0 <= off <= buf.len() && config_descriptor_len(buf.skip(off)) is Some {
        let rest = buf.skip(off);
        let total = config_descriptor_len(rest)->0;
        let chunk = buf.subrange(off, off + total);
        assert(chunk[0] == rest[0] && chunk[1] == rest[1] && chunk[2] == rest[2] && chunk[3]
            == rest[3]);
        assert(config_descriptor_len(chunk) == Some(chunk.len()));
        lemma_concatenated_configs_valid(buf, off + total);
        let s = concatenated_configs_from(buf, off);
        assert forall|i: int| 0 <= i < s.len() implies config_descriptor_len(#[trigger] s[i])
            == Some(s[i].len()) by {
            if i > 0 {
                assert(s[i] == concatenated_configs_from(buf, off + total)[i - 1]);
            }
        }
    }
}


proof fn lemma_numbered_first(alts: Seq<Seq<u8>>, n: u8)
    requires
        alts_numbered(alts, n).len() > 0,
    ensures
        exists|k: int|
            0 <= k < alts.len() && (#[trigger] alts[k])[2] == n && alts_numbered(alts, n)[0]
                == alts[k] && forall|j: int| 0 <= j < k ==> (#[trigger] alts[j])[2] != n,
    decreases alts.len(),
{
    let prev = alts.drop_last();
    if alts_numbered(prev, n).len() > 0 {
        lemma_numbered_first(prev, n);
        let k = choose|k: int|
            0 <= k < prev.len() && (#[trigger] prev[k])[2] == n && alts_numbered(prev, n)[0]
                == prev[k] && forall|j: int| 0 <= j < k ==> (#[trigger] prev[j])[2] != n;
        assert(alts[k] == prev[k]);
        assert forall|j: int| 0 <= j < k implies (#[trigger] alts[j])[2] != n by {
            assert(alts[j] == prev[j]);
        }
        assert(alts_numbered(alts, n)[0] == alts_numbered(prev, n)[0]);
    } else {
        let k = alts.len() - 1;
        assert forall|j: int| 0 <= j < k implies (#[trigger] alts[j])[2] != n by {
            assert(alts[j] == prev[j]);
            if prev[j][2] == n {
                lemma_numbered_nonempty(prev, j);
            }
        }
        assert(alts[k][2] == n);
    }
}

/// Each interface of a configuration is described by the first interface
/// descriptor that carries its number: its first alternate setting is that
/// descriptor, and no earlier interface descriptor has that number.
pub proof fn lemma_interface_first_descriptor(alts: Seq<Seq<u8>>, i: int)
    requires
        0 <= i < interface_groups(alts, 256).len(),
    ensures
        interface_groups(alts, 256)[i].1.len() > 0,
        exists|k: int|
            0 <= k < alts.len() && (#[trigger] alts[k])[2] == interface_groups(alts, 256)[i].0
                && interface_groups(alts, 256)[i].1[0] == alts[k] && forall|j: int|
                0 <= j < k ==> (#[trigger] alts[j])[2] != interface_groups(alts, 256)[i].0,
{
    lemma_groups_below(alts, 256);
    let g = interface_groups(alts, 256)[i];
    assert(g.1 == alts_numbered(alts, g.0));
    lemma_numbered_first(alts, g.0);
}

} // verus!

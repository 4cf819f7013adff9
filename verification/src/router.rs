//! The XDP router: route keys and values shared with the kernel program,
//! the program's frame handling (VLAN tag, destination address, lookup,
//! MAC rewrite) and the user-space helpers that fill the route table.
use vstd::prelude::*;
use vstd::utf8::*;
use crate::hex::{radix16_u8, u8_from_hex_str};
use crate::text::{split_char, split_on};
use crate::assoc::{assoc_keys, assoc_map, lemma_assoc_dom, lemma_assoc_index, lemma_assoc_push, lemma_assoc_remove};

verus! {

/// EtherType of IPv4.
pub const ETH_P_IP: u16 = 0x0800;
/// EtherType of IPv6.
pub const ETH_P_IPV6: u16 = 0x86DD;
/// EtherType of an 802.1Q VLAN tag.
pub const ETH_P_8021Q: u16 = 0x8100;

/// Route lookup key: family (4 or 6), the address in the matching field,
/// and the VLAN (0 when untagged).
#[derive(Copy, Clone, Debug)]
pub struct RouteKey {
    pub ip_type: u32,
    pub ip_v4: [u8; 4],
    pub ip_v6: [u8; 16],
    pub vlan_id: u16,
}

/// Where a route sends a frame: the MAC addresses to write and the interface.
#[derive(Copy, Clone, Debug)]
pub struct RouteValue {
    pub src_mac: [u8; 6],
    pub dst_mac: [u8; 6],
    pub if_index: u32,
    pub vlan_id: u16,
}

pub open spec fn key_view(k: RouteKey) -> (u32, Seq<u8>, Seq<u8>, u16) {
    (k.ip_type, k.ip_v4@, k.ip_v6@, k.vlan_id)
}

pub open spec fn value_view(v: RouteValue) -> (Seq<u8>, Seq<u8>, u32, u16) {
    (v.src_mac@, v.dst_mac@, v.if_index, v.vlan_id)
}

/// Big-endian 16-bit value at offset `i`.
pub open spec fn be16(p: Seq<u8>, i: int) -> u16 {
    (p[i] as u16 * 256 + p[i + 1] as u16) as u16
}

/// Whether a header of `size` bytes at `offset` lies inside a frame of `len` bytes.
pub open spec fn fits(len: nat, offset: nat, size: nat) -> bool {
    offset + size <= len
}

/// Offset of a header of `size` bytes at `offset`, when it lies inside the frame.
pub fn ptr_at(len: usize, offset: usize, size: usize) -> (r: Result<usize, ()>)
    ensures
        r is Ok <==> fits(len as nat, offset as nat, size as nat),
        r matches Ok(o) ==> o == offset,
{
    if offset > len || size > len - offset {
        Err(())
    } else {
        Ok(offset)
    }
}

/// The key the router looks up for a frame: `Ok(None)` for a frame that is
/// neither IPv4 nor IPv6, `Err` when a header it reads lies past the end.
pub open spec fn router_key(p: Seq<u8>) -> Result<Option<(u32, Seq<u8>, Seq<u8>, u16)>, ()> {
    if !fits(p.len(), 0, 14) {
        Err(())
    } else {
        let tagged = be16(p, 12) == ETH_P_8021Q;
        if tagged && !fits(p.len(), 14, 4) {
            Err(())
        } else {
            let vlan: u16 = if tagged { be16(p, 14) & 0x0FFFu16 } else { 0 };
            let et: u16 = if tagged { be16(p, 16) } else { be16(p, 12) };
            let off: int = if tagged { 18 } else { 14 };
            if et == ETH_P_IP {
                if !fits(p.len(), (off + 16) as nat, 4) {
                    Err(())
                } else {
                    Ok(Some((4u32, p.subrange(off + 16, off + 20), Seq::new(16, |i: int| 0u8), vlan)))
                }
            } else if et == ETH_P_IPV6 {
                if !fits(p.len(), (off + 24) as nat, 16) {
                    Err(())
                } else {
                    Ok(Some((6u32, Seq::new(4, |i: int| 0u8), p.subrange(off + 24, off + 40), vlan)))
                }
            } else {
                Ok(None)
            }
        }
    }
}

proof fn lemma_vlan_bits(x: u16)
    ensures
        x & 0x0FFFu16 == x % 4096,
{
    assert(x & 0x0FFFu16 == x % 4096) by (bit_vector);
}

/// The router looks a frame up by its destination address: for an IPv4
/// frame the four bytes at offset 16 of the IP header, for an IPv6 frame the
/// sixteen bytes at offset 24 of the IPv6 header, the header following the
/// 14-byte Ethernet header, or the 18-byte one of an 802.1Q-tagged frame,
/// whose VLAN id (the low 12 bits of the tag) goes with the key.
pub proof fn law_route_key_is_destination(p: Seq<u8>)
    ensures
        // untagged IPv4
        p.len() >= 34 && p[12] == 0x08 && p[13] == 0x00 ==> router_key(p) == Ok::<_, ()>(Some(
            (4u32, p.subrange(30, 34), Seq::new(16, |i: int| 0u8), 0u16),
        )),
        // untagged IPv6
        p.len() >= 54 && p[12] == 0x86 && p[13] == 0xDD ==> router_key(p) == Ok::<_, ()>(Some(
            (6u32, Seq::new(4, |i: int| 0u8), p.subrange(38, 54), 0u16),
        )),
        // tagged IPv4
        p.len() >= 38 && p[12] == 0x81 && p[13] == 0x00 && p[16] == 0x08 && p[17] == 0x00 ==> router_key(p)
            == Ok::<_, ()>(Some((4u32, p.subrange(34, 38), Seq::new(16, |i: int| 0u8), ((p[14] % 16) * 256 + p[15]) as u16))),
        // tagged IPv6
        p.len() >= 58 && p[12] == 0x81 && p[13] == 0x00 && p[16] == 0x86 && p[17] == 0xDD ==> router_key(p)
            == Ok::<_, ()>(Some((6u32, Seq::new(4, |i: int| 0u8), p.subrange(42, 58), ((p[14] % 16) * 256 + p[15]) as u16))),
{
    if p.len() >= 16 {
        lemma_vlan_bits(be16(p, 14));
        assert(be16(p, 14) % 4096 == (p[14] % 16) * 256 + p[15]);
    }
}

fn read_be16(p: &[u8], i: usize) -> (r: u16)
    requires
        i + 1 < p@.len(),
    ensures
        r == be16(p@, i as int),
{
    (p[i] as u16) * 256 + (p[i + 1] as u16)
}

/// The 16 bytes of `p` from offset `o`.
pub fn copy16(p: &[u8], o: usize) -> (r: [u8; 16])
    requires
        o + 16 <= p@.len(),
    ensures
        r@ == p@.subrange(o as int, o + 16),
{
    let n = p.len();
    let mut out = [0u8; 16];
    let mut i: usize = 0;
    while i < 16
        invariant
            n == p@.len(),
            o + 16 <= p@.len(),
            i <= 16,
            forall|j: int| 0 <= j < i ==> out@[j] == p@[o + j],
        decreases 16 - i,
    {
        out[i] = p[o + i];
        i = i + 1;
    }
    assert(out@ =~= p@.subrange(o as int, o + 16));
    out
}

/// The lookup key of a frame (see `router_key`).
pub fn route_key_of(p: &[u8]) -> (r: Result<Option<RouteKey>, ()>)
    ensures
        match r {
            Ok(Some(k)) => router_key(p@) == Ok::<_, ()>(Some(key_view(k))),
            Ok(None) => router_key(p@) == Ok::<Option<(u32, Seq<u8>, Seq<u8>, u16)>, ()>(None),
            Err(_) => router_key(p@) is Err,
        },
{
    ptr_at(p.len(), 0, 14)?;
    let mut ether_type = read_be16(p, 12);
    let mut offset: usize = 14;
    let mut vlan_id: u16 = 0;
    if ether_type == ETH_P_8021Q {
        ptr_at(p.len(), offset, 4)?;
        vlan_id = read_be16(p, 14) & 0x0FFF;
        ether_type = read_be16(p, 16);
        offset = offset + 4;
    }
    let mut key = RouteKey { ip_type: 0, ip_v4: [0; 4], ip_v6: [0; 16], vlan_id };
    if ether_type == ETH_P_IP {
        let o = ptr_at(p.len(), offset + 16, 4)?;
        key.ip_type = 4;
        key.ip_v4 = [p[o], p[o + 1], p[o + 2], p[o + 3]];
        assert(key.ip_v4@ =~= p@.subrange(offset + 16, offset + 20));
        assert(key.ip_v6@ =~= Seq::new(16, |i: int| 0u8));
        Ok(Some(key))
    } else if ether_type == ETH_P_IPV6 {
        let o = ptr_at(p.len(), offset + 24, 16)?;
        key.ip_type = 6;
        key.ip_v6 = copy16(p, o);
        assert(key.ip_v4@ =~= Seq::new(4, |i: int| 0u8));
        Ok(Some(key))
    } else {
        Ok(None)
    }
}


/// What the router does with a frame.
#[derive(Clone, Copy, Debug, PartialEq, Eq)]
pub enum RouterVerdict {
    /// Hand the frame to the network stack.
    Pass,
    /// Send the (rewritten) frame out of the interface with this index.
    Redirect(u32),
}

/// The routes the kernel program consults, by exact key.
pub struct RouteTable {
    entries: Vec<(RouteKey, RouteValue)>,
}

spec fn table_assoc(es: Seq<(RouteKey, RouteValue)>) -> Seq<((u32, Seq<u8>, Seq<u8>, u16), (Seq<u8>, Seq<u8>, u32, u16))> {
    es.map_values(|e: (RouteKey, RouteValue)| (key_view(e.0), value_view(e.1)))
}

fn same_key(a: &RouteKey, b: &RouteKey) -> (r: bool)
    ensures
        r == (key_view(*a) == key_view(*b)),
{
    if a.ip_type != b.ip_type || a.vlan_id != b.vlan_id {
        return false;
    }
    let mut i: usize = 0;
    while i < 4
        invariant
            i <= 4,
            forall|j: int| 0 <= j < i ==> a.ip_v4@[j] == b.ip_v4@[j],
        decreases 4 - i,
    {
        if a.ip_v4[i] != b.ip_v4[i] {
            return false;
        }
        i = i + 1;
    }
    let mut i: usize = 0;
    while i < 16
        invariant
            i <= 16,
            forall|j: int| 0 <= j < i ==> a.ip_v6@[j] == b.ip_v6@[j],
        decreases 16 - i,
    {
        if a.ip_v6[i] != b.ip_v6[i] {
            return false;
        }
        i = i + 1;
    }
    assert(a.ip_v4@ =~= b.ip_v4@);
    assert(a.ip_v6@ =~= b.ip_v6@);
    true
}

impl RouteTable {
    /// The routes: key to value.
    pub closed spec fn routes(&self) -> Map<(u32, Seq<u8>, Seq<u8>, u16), (Seq<u8>, Seq<u8>, u32, u16)> {
        assoc_map(table_assoc(self.entries@))
    }

    /// Each key is held once.
    pub closed spec fn wf(&self) -> bool {
        assoc_keys(table_assoc(self.entries@)).no_duplicates()
    }

    /// A table with no route.
    pub fn new() -> (r: RouteTable)
        ensures
            r.wf(),
            r.routes() == Map::<(u32, Seq<u8>, Seq<u8>, u16), (Seq<u8>, Seq<u8>, u32, u16)>::empty(),
    {
        let r = RouteTable { entries: Vec::new() };
        assert(table_assoc(r.entries@) =~= Seq::empty());
        assert(assoc_keys(table_assoc(r.entries@)) =~= Seq::empty());
        r
    }

    fn find(&self, key: &RouteKey) -> (r: Option<usize>)
        ensures
            match r {
                Some(i) => i < self.entries@.len() && key_view(self.entries@[i as int].0) == key_view(*key),
                None => !self.routes().dom().contains(key_view(*key)),
            },
    {
        let mut i: usize = 0;
        while i < self.entries.len()
            invariant
                i <= self.entries@.len(),
                forall|j: int| 0 <= j < i ==> key_view(self.entries@[j].0) != key_view(*key),
            decreases self.entries@.len() - i,
        {
            if same_key(&self.entries[i].0, key) {
                return Some(i);
            }
            i = i + 1;
        }
        proof {
            let ta = table_assoc(self.entries@);
            lemma_assoc_dom(ta);
            if assoc_keys(ta).contains(key_view(*key)) {
                let j = choose|j: int| 0 <= j < assoc_keys(ta).len() && assoc_keys(ta)[j] == key_view(*key);
                assert(assoc_keys(ta)[j] == key_view(self.entries@[j].0));
            }
        }
        None
    }

    /// The route of a key, if any.
    pub fn get(&self, key: &RouteKey) -> (r: Option<RouteValue>)
        requires
            self.wf(),
        ensures
            match r {
                Some(v) => self.routes().dom().contains(key_view(*key)) && self.routes()[key_view(*key)] == value_view(v),
                None => !self.routes().dom().contains(key_view(*key)),
            },
    {
        match self.find(key) {
            Some(i) => {
                proof {
                    lemma_assoc_index(table_assoc(self.entries@), i as int);
                }
                Some(self.entries[i].1)
            },
            None => None,
        }
    }

    /// Sets the route of a key, replacing any route it had.
    pub fn insert(&mut self, key: RouteKey, value: RouteValue)
        requires
            old(self).wf(),
        ensures
            final(self).wf(),
            final(self).routes() == old(self).routes().insert(key_view(key), value_view(value)),
    {
        let ghost ta0 = table_assoc(self.entries@);
        let ghost base: Seq<((u32, Seq<u8>, Seq<u8>, u16), (Seq<u8>, Seq<u8>, u32, u16))>;
        match self.find(&key) {
            Some(i) => {
                proof {
                    lemma_assoc_remove(ta0, i as int);
                    assert(table_assoc(self.entries@.remove(i as int)) =~= ta0.remove(i as int));
                    base = ta0.remove(i as int);
                }
                self.entries.remove(i);
            },
            None => {
                proof {
                    lemma_assoc_dom(ta0);
                    assert(assoc_map(ta0).remove(key_view(key)) =~= assoc_map(ta0));
                    base = ta0;
                }
            },
        }
        let ghost prev = self.entries@;
        self.entries.push((key, value));
        proof {
            assert(table_assoc(self.entries@) =~= base.push((key_view(key), value_view(value))));
            lemma_assoc_push(base, (key_view(key), value_view(value)));
            assert(self.routes() =~= old(self).routes().insert(key_view(key), value_view(value)));
        }
    }
}

/// The frame after the route's MAC addresses are written: destination in
/// bytes 0..6, source in bytes 6..12.
pub open spec fn rewritten(p: Seq<u8>, v: (Seq<u8>, Seq<u8>, u32, u16)) -> Seq<u8> {
    v.1 + v.0 + p.skip(12)
}

/// The router's handling of a frame: frames with an IPv4 or IPv6
/// destination that has a route get the route's MAC addresses and go out of
/// its interface; all others pass.
pub fn xdp_router(packet: &mut Vec<u8>, routes: &RouteTable) -> (r: RouterVerdict)
    requires
        routes.wf(),
    ensures
        match router_key(old(packet)@) {
            Ok(Some(k)) => if routes.routes().dom().contains(k) {
                &&& r == RouterVerdict::Redirect(routes.routes()[k].2)
                &&& final(packet)@ == rewritten(old(packet)@, routes.routes()[k])
            } else {
                r == RouterVerdict::Pass && final(packet)@ == old(packet)@
            },
            _ => r == RouterVerdict::Pass && final(packet)@ == old(packet)@,
        },
{
    let key = match route_key_of(packet.as_slice()) {
        Ok(Some(k)) => k,
        _ => return RouterVerdict::Pass,
    };
    let route = match routes.get(&key) {
        Some(v) => v,
        None => return RouterVerdict::Pass,
    };
    let mut i: usize = 0;
    while i < 6
        invariant
            i <= 6,
            packet@.len() == old(packet)@.len(),
            old(packet)@.len() >= 14,
            forall|j: int| 0 <= j < i ==> packet@[j] == route.dst_mac@[j] && packet@[6 + j] == route.src_mac@[j],
            forall|j: int| 12 <= j < packet@.len() ==> packet@[j] == old(packet)@[j],
        decreases 6 - i,
    {
        packet[i] = route.dst_mac[i];
        packet[6 + i] = route.src_mac[i];
        i = i + 1;
    }
    assert(packet@ =~= rewritten(old(packet)@, value_view(route)));
    RouterVerdict::Redirect(route.if_index)
}


/// A MAC address from its text: six `:`-separated hex groups, each read as
/// `u8::from_str_radix(_, 16)` does (an unreadable group gives 0); any other
/// number of groups gives all zeros.
pub open spec fn mac_of(s: Seq<char>) -> Seq<u8> {
    let parts = split_char(s, ':');
    if parts.len() == 6 {
        Seq::new(6, |i: int| match radix16_u8(encode_utf8(parts[i])) {
            Some(v) => v,
            None => 0u8,
        })
    } else {
        Seq::new(6, |i: int| 0u8)
    }
}

/// Reads a MAC address such as `aa:bb:cc:dd:ee:ff`.
pub fn parse_mac(mac_str: &str) -> (r: [u8; 6])
    ensures
        r@ == mac_of(mac_str@),
{
    let mut mac = [0u8; 6];
    let parts = split_on(mac_str, ':');
    let ghost ps = split_char(mac_str@, ':');
    if parts.len() == 6 {
        let mut i: usize = 0;
        while i < 6
            invariant
                parts@.len() == 6,
                parts@.map_values(|p: String| p@) == ps,
                i <= 6,
                forall|j: int| 0 <= j < i ==> mac@[j] == match radix16_u8(encode_utf8(ps[j])) {
                    Some(v) => v,
                    None => 0u8,
                },
            decreases 6 - i,
        {
            assert(ps[i as int] == parts@[i as int]@);
            mac[i] = match u8_from_hex_str(parts[i].as_str()) {
                Ok(v) => v,
                Err(_) => 0,
            };
            i = i + 1;
        }
        assert(mac@ =~= mac_of(mac_str@));
    } else {
        assert(mac@ =~= mac_of(mac_str@));
    }
    mac
}

/// The route of one address of a local interface: the key of the address
/// (family 4 or 6; IPv4 in the first four bytes of `addr`), the interface's
/// MAC as source, broadcast as destination until a neighbour is learnt.
pub fn interface_route(if_index: u32, src_mac: [u8; 6], ip_type: u8, addr: [u8; 16]) -> (r: (RouteKey, RouteValue))
    ensures
        ip_type == 4 ==> key_view(r.0) == (4u32, addr@.take(4), Seq::new(16, |i: int| 0u8), 0u16),
        ip_type != 4 ==> key_view(r.0) == (6u32, Seq::new(4, |i: int| 0u8), addr@, 0u16),
        value_view(r.1) == (src_mac@, Seq::new(6, |i: int| 0xffu8), if_index, 0u16),
{
    let mut key = RouteKey { ip_type: 0, ip_v4: [0; 4], ip_v6: [0; 16], vlan_id: 0 };
    if ip_type == 4 {
        key.ip_type = 4;
        key.ip_v4 = [addr[0], addr[1], addr[2], addr[3]];
        assert(key.ip_v4@ =~= addr@.take(4));
        assert(key.ip_v6@ =~= Seq::new(16, |i: int| 0u8));
    } else {
        key.ip_type = 6;
        key.ip_v6 = addr;
        assert(key.ip_v4@ =~= Seq::new(4, |i: int| 0u8));
    }
    let value = RouteValue { src_mac, dst_mac: [0xff, 0xff, 0xff, 0xff, 0xff, 0xff], if_index, vlan_id: 0 };
    assert(value.dst_mac@ =~= Seq::new(6, |i: int| 0xffu8));
    (key, value)
}

/// Attributes of a neighbour (ARP / NDP) message that the router reads.
#[derive(Clone, Debug)]
pub enum NeighborAttr {
    /// The neighbour's IP address bytes.
    Destination(Vec<u8>),
    /// The neighbour's link-layer (MAC) address bytes.
    LinkLayerAddress(Vec<u8>),
    /// Any other attribute.
    Other,
}

pub enum AttrView {
    Destination(Seq<u8>),
    LinkLayerAddress(Seq<u8>),
    Other,
}

pub open spec fn attr_view(a: NeighborAttr) -> AttrView {
    match a {
        NeighborAttr::Destination(b) => AttrView::Destination(b@),
        NeighborAttr::LinkLayerAddress(b) => AttrView::LinkLayerAddress(b@),
        NeighborAttr::Other => AttrView::Other,
    }
}

pub open spec fn attrs_view(attrs: Seq<NeighborAttr>) -> Seq<AttrView> {
    attrs.map_values(|a: NeighborAttr| attr_view(a))
}

/// The first link-layer address among the attributes.
pub open spec fn first_ll(attrs: Seq<AttrView>) -> Option<Seq<u8>>
    decreases attrs.len(),
{
    if attrs.len() == 0 {
        None
    } else {
        match attrs[0] {
            AttrView::LinkLayerAddress(m) => Some(m),
            _ => first_ll(attrs.drop_first()),
        }
    }
}

/// The neighbour's address and MAC after reading the attributes in order,
/// starting from no address and the MAC `ll0`: a 4- or 16-byte destination
/// replaces the address, a link-layer address replaces the MAC.
pub open spec fn read_attrs(attrs: Seq<AttrView>, ll0: Option<Seq<u8>>) -> (Option<(u8, Seq<u8>)>, Option<Seq<u8>>)
    decreases attrs.len(),
{
    if attrs.len() == 0 {
        (None, ll0)
    } else {
        let (dest, ll) = read_attrs(attrs.drop_last(), ll0);
        match attrs.last() {
            AttrView::Destination(b) => if b.len() == 4 {
                (Some((4u8, b)), ll)
            } else if b.len() == 16 {
                (Some((6u8, b)), ll)
            } else {
                (dest, ll)
            },
            AttrView::LinkLayerAddress(m) => (dest, Some(m)),
            AttrView::Other => (dest, ll),
        }
    }
}

/// The route key and new destination MAC a neighbour message gives: its
/// address and a six-byte MAC are both needed.
pub open spec fn neighbor_update(attrs: Seq<AttrView>) -> Option<((u32, Seq<u8>, Seq<u8>, u16), Seq<u8>)> {
    match read_attrs(attrs, first_ll(attrs)) {
        (Some((fam, ip)), Some(mac)) => if mac.len() == 6 {
            if fam == 4 {
                Some(((4u32, ip, Seq::new(16, |i: int| 0u8), 0u16), mac))
            } else {
                Some(((6u32, Seq::new(4, |i: int| 0u8), ip, 0u16), mac))
            }
        } else {
            None
        },
        _ => None,
    }
}

fn copy_vec(v: &Vec<u8>) -> (r: Vec<u8>)
    ensures
        r@ == v@,
{
    let mut out: Vec<u8> = Vec::new();
    crate::json::push_bytes(&mut out, v.as_slice());
    assert(out@ =~= v@);
    out
}

/// The first link-layer address among the attributes.
pub fn ref_ll_addr(attrs: &Vec<NeighborAttr>) -> (r: Option<Vec<u8>>)
    ensures
        match r {
            Some(m) => first_ll(attrs_view(attrs@)) == Some(m@),
            None => first_ll(attrs_view(attrs@)) is None,
        },
{
    let ghost av = attrs_view(attrs@);
    let mut i: usize = 0;
    proof { assert(av.skip(0) =~= av); }
    while i < attrs.len()
        invariant
            av == attrs_view(attrs@),
            i <= attrs@.len(),
            first_ll(av) == first_ll(av.skip(i as int)),
        decreases attrs@.len() - i,
    {
        proof {
            assert(av.skip(i as int)[0] == attr_view(attrs@[i as int]));
            assert(av.skip(i as int).drop_first() =~= av.skip(i + 1));
        }
        match &attrs[i] {
            NeighborAttr::LinkLayerAddress(m) => {
                return Some(copy_vec(m));
            },
            _ => {},
        }
        i = i + 1;
    }
    assert(av.skip(i as int).len() == 0);
    None
}

fn array6(v: &Vec<u8>) -> (r: [u8; 6])
    requires
        v@.len() == 6,
    ensures
        r@ == v@,
{
    let r = [v[0], v[1], v[2], v[3], v[4], v[5]];
    assert(r@ =~= v@);
    r
}

/// The route key and new destination MAC of a neighbour message, if it
/// names both an address and a six-byte MAC.
pub fn neighbor_route_update(attrs: &Vec<NeighborAttr>) -> (r: Option<(RouteKey, [u8; 6])>)
    ensures
        match r {
            Some((k, mac)) => neighbor_update(attrs_view(attrs@)) == Some((key_view(k), mac@)),
            None => neighbor_update(attrs_view(attrs@)) is None,
        },
{
    let ghost av = attrs_view(attrs@);
    let mut dest: Option<(u8, Vec<u8>)> = None;
    let mut ll: Option<Vec<u8>> = ref_ll_addr(attrs);
    let mut i: usize = 0;
    proof {
        assert(av.take(0) =~= Seq::<AttrView>::empty());
    }
    while i < attrs.len()
        invariant
            av == attrs_view(attrs@),
            i <= attrs@.len(),
            read_attrs(av.take(i as int), first_ll(av)).0 == match dest {
                Some((f, b)) => Some((f, b@)),
                None => None::<(u8, Seq<u8>)>,
            },
            read_attrs(av.take(i as int), first_ll(av)).1 == match ll {
                Some(m) => Some(m@),
                None => None::<Seq<u8>>,
            },
            match dest {
                Some((f, b)) => (f == 4 && b@.len() == 4) || (f == 6 && b@.len() == 16),
                None => true,
            },
        decreases attrs@.len() - i,
    {
        proof {
            assert(av.take(i + 1).drop_last() =~= av.take(i as int));
            assert(av.take(i + 1).last() == attr_view(attrs@[i as int]));
        }
        match &attrs[i] {
            NeighborAttr::Destination(b) => {
                if b.len() == 4 {
                    dest = Some((4, copy_vec(b)));
                } else if b.len() == 16 {
                    dest = Some((6, copy_vec(b)));
                }
            },
            NeighborAttr::LinkLayerAddress(m) => {
                ll = Some(copy_vec(m));
            },
            NeighborAttr::Other => {},
        }
        i = i + 1;
    }
    proof {
        assert(av.take(i as int) =~= av);
    }
    match (dest, ll) {
        (Some((fam, ip)), Some(mac)) => {
            if mac.len() != 6 {
                return None;
            }
            let (key, _) = interface_route(0, [0; 6], fam, if fam == 4 {
                [ip[0], ip[1], ip[2], ip[3], 0, 0, 0, 0, 0, 0, 0, 0, 0, 0, 0, 0]
            } else {
                [ip[0], ip[1], ip[2], ip[3], ip[4], ip[5], ip[6], ip[7], ip[8], ip[9], ip[10], ip[11], ip[12], ip[13], ip[14], ip[15]]
            });
            let m = array6(&mac);
            proof {
                if fam == 4 {
                    assert(key_view(key).1 =~= ip@);
                } else {
                    assert(key_view(key).2 =~= ip@);
                }
            }
            Some((key, m))
        },
        _ => None,
    }
}

impl RouteValue {
    /// The route with another destination MAC.
    pub fn with_dst_mac(&self, mac: [u8; 6]) -> (r: RouteValue)
        ensures
            value_view(r) == (self.src_mac@, mac@, self.if_index, self.vlan_id),
    {
        RouteValue { src_mac: self.src_mac, dst_mac: mac, if_index: self.if_index, vlan_id: self.vlan_id }
    }
}

impl RouteTable {
    /// Learns a neighbour: when the message names an address and a six-byte
    /// MAC and the address has a route, the route's destination MAC becomes
    /// that MAC; otherwise nothing changes.
    pub fn apply_neighbor(&mut self, attrs: &Vec<NeighborAttr>)
        requires
            old(self).wf(),
        ensures
            final(self).wf(),
            match neighbor_update(attrs_view(attrs@)) {
                Some((k, mac)) => if old(self).routes().dom().contains(k) {
                    final(self).routes() == old(self).routes().insert(
                        k,
                        (old(self).routes()[k].0, mac, old(self).routes()[k].2, old(self).routes()[k].3),
                    )
                } else {
                    final(self).routes() == old(self).routes()
                },
                None => final(self).routes() == old(self).routes(),
            },
    {
        if let Some((key, mac)) = neighbor_route_update(attrs) {
            if let Some(current) = self.get(&key) {
                let updated = current.with_dst_mac(mac);
                self.insert(key, updated);
            }
        }
    }
}

/// Once a neighbour's MAC is learnt for a routed address, frames to that
/// address leave with the learnt MAC as destination and the route's own MAC
/// as source, the rest of the frame unchanged.
pub proof fn law_learnt_mac_is_written(
    routes: Map<(u32, Seq<u8>, Seq<u8>, u16), (Seq<u8>, Seq<u8>, u32, u16)>,
    k: (u32, Seq<u8>, Seq<u8>, u16),
    mac: Seq<u8>,
    p: Seq<u8>,
)
    requires
        routes.dom().contains(k),
        routes[k].0.len() == 6,
        mac.len() == 6,
        router_key(p) == Ok::<_, ()>(Some(k)),
    ensures
        ({
            let learnt = routes.insert(k, (routes[k].0, mac, routes[k].2, routes[k].3));
            let out = rewritten(p, learnt[k]);
            &&& learnt.dom().contains(k)
            &&& out.len() == p.len()
            &&& out.subrange(0, 6) == mac
            &&& out.subrange(6, 12) == routes[k].0
            &&& out.skip(12) == p.skip(12)
        }),
{
    let learnt = routes.insert(k, (routes[k].0, mac, routes[k].2, routes[k].3));
    let out = rewritten(p, learnt[k]);
    assert(out.subrange(0, 6) =~= mac);
    assert(out.subrange(6, 12) =~= routes[k].0);
    assert(out.skip(12) =~= p.skip(12));
}

} // verus!

//! The XDP firewall's packet decision: TCP packets whose IPv4 or IPv6
//! source address falls in a blocked network are dropped, everything else passes.
use vstd::prelude::*;
use crate::blocklist::{blocked, key_data, Blocklist, LpmEntry, entries_view, entry_view, net_entry, entry_matches, network_bytes};

verus! {

/// XDP action code: drop the packet.
pub const XDP_DROP: u32 = 1;
/// XDP action code: hand the packet to the network stack.
pub const XDP_PASS: u32 = 2;

/// Length of an Ethernet header.
pub const ETH_HDR_LEN: usize = 14;
/// Length of an IPv4 header without options.
pub const IPV4_HDR_LEN: usize = 20;
/// Length of an IPv6 header.
pub const IPV6_HDR_LEN: usize = 40;

/// A trie lookup key: significant bits, address family and address.
#[derive(Clone, Copy, Debug)]
pub struct IpKey {
    pub prefixlen: u32,
    pub ip_type: u8,
    pub addr: [u8; 16],
}

/// The verdict the firewall reaches on a frame, or `Err` when a header
/// does not fit in the frame.
pub open spec fn firewall_outcome(p: Seq<u8>, entries: Seq<crate::blocklist::LpmEntry>) -> Result<u32, ()> {
    if p.len() < 14 {
        Err(())
    } else if p[12] == 0x08 && p[13] == 0x00 {
        if p.len() < 34 {
            Err(())
        } else if p[23] != 6 {
            Ok(XDP_PASS)
        } else if blocked(entries, key_data(4, p.subrange(26, 30) + Seq::new(12, |i: int| 0u8)), 40) {
            Ok(XDP_DROP)
        } else {
            Ok(XDP_PASS)
        }
    } else if p[12] == 0x86 && p[13] == 0xDD {
        if p.len() < 54 {
            Err(())
        } else if p[20] != 6 {
            Ok(XDP_PASS)
        } else if blocked(entries, key_data(6, p.subrange(22, 38)), 136) {
            Ok(XDP_DROP)
        } else {
            Ok(XDP_PASS)
        }
    } else {
        Ok(XDP_PASS)
    }
}

/// The firewall's decision on one Ethernet frame against the block list.
pub fn try_xdp_firewall(packet: &[u8], blocklist: &Blocklist) -> (r: Result<u32, ()>)
    ensures
        r == firewall_outcome(packet@, blocklist.entries@),
{
    if packet.len() < ETH_HDR_LEN {
        return Err(());
    }
    if packet[12] == 0x08 && packet[13] == 0x00 {
        if packet.len() < ETH_HDR_LEN + IPV4_HDR_LEN {
            return Err(());
        }
        if packet[23] != 6 {
            return Ok(XDP_PASS);
        }
        let mut addr = [0u8; 16];
        addr[0] = packet[26];
        addr[1] = packet[27];
        addr[2] = packet[28];
        addr[3] = packet[29];
        let key = IpKey { prefixlen: 40, ip_type: 4, addr };
        assert(key.addr@ =~= packet@.subrange(26, 30) + Seq::new(12, |i: int| 0u8));
        if blocklist.covers(key.ip_type, &key.addr, key.prefixlen) {
            return Ok(XDP_DROP);
        }
    } else if packet[12] == 0x86 && packet[13] == 0xDD {
        if packet.len() < ETH_HDR_LEN + IPV6_HDR_LEN {
            return Err(());
        }
        if packet[20] != 6 {
            return Ok(XDP_PASS);
        }
        let mut addr = [0u8; 16];
        let mut i: usize = 0;
        while i < 16
            invariant
                packet@.len() >= 54,
                i <= 16,
                forall|j: int| 0 <= j < i ==> addr@[j] == packet@[22 + j],
            decreases 16 - i,
        {
            addr[i] = packet[22 + i];
            i = i + 1;
        }
        let key = IpKey { prefixlen: 136, ip_type: 6, addr };
        assert(key.addr@ =~= packet@.subrange(22, 38));
        if blocklist.covers(key.ip_type, &key.addr, key.prefixlen) {
            return Ok(XDP_DROP);
        }
    }
    Ok(XDP_PASS)
}

/// The verdict on a frame; frames too short for their headers pass.
pub fn xdp_firewall(packet: &[u8], blocklist: &Blocklist) -> (r: u32)
    ensures
        r == match firewall_outcome(packet@, blocklist.entries@) {
            Ok(action) => action,
            Err(_) => XDP_PASS,
        },
{
    match try_xdp_firewall(packet, blocklist) {
        Ok(action) => action,
        Err(_) => XDP_PASS,
    }
}

/// A TCP packet over IPv4 whose source address was added to the block
/// list as a single address is dropped.
pub proof fn law_blocked_ipv4_source_dropped(p: Seq<u8>, entries: Seq<LpmEntry>)
    requires
        p.len() >= 34,
        p[12] == 0x08 && p[13] == 0x00,
        p[23] == 6,
        entries_view(entries).contains(net_entry(4, p.subrange(26, 30) + Seq::new(12, |i: int| 0u8), 32)),
    ensures
        firewall_outcome(p, entries) == Ok::<u32, ()>(XDP_DROP),
{
    let a = p.subrange(26, 30) + Seq::new(12, |i: int| 0u8);
    let e = net_entry(4, a, 32);
    let j = choose|j: int| 0 <= j < entries_view(entries).len() && entries_view(entries)[j] == e;
    assert(entry_view(entries[j]) == e);
    let data = key_data(4, a);
    let kd = key_data(entries[j].key.ip_type, entries[j].key.addr@);
    assert forall|i: int| 0 <= i < 5 implies kd[i] == data[i] by {
        if i > 0 {
            assert(kd[i] == network_bytes(a, 32)[i - 1]);
        }
    }
    assert(entry_matches(entries[j], data, 40));
    assert(blocked(entries, data, 40));
}

/// A TCP packet over IPv6 whose source address was added to the block
/// list as a single address is dropped.
pub proof fn law_blocked_ipv6_source_dropped(p: Seq<u8>, entries: Seq<LpmEntry>)
    requires
        p.len() >= 54,
        p[12] == 0x86 && p[13] == 0xDD,
        p[20] == 6,
        entries_view(entries).contains(net_entry(6, p.subrange(22, 38), 128)),
    ensures
        firewall_outcome(p, entries) == Ok::<u32, ()>(XDP_DROP),
{
    let a = p.subrange(22, 38);
    let e = net_entry(6, a, 128);
    let j = choose|j: int| 0 <= j < entries_view(entries).len() && entries_view(entries)[j] == e;
    assert(entry_view(entries[j]) == e);
    let data = key_data(6, a);
    let kd = key_data(entries[j].key.ip_type, entries[j].key.addr@);
    assert forall|i: int| 0 <= i < 17 implies kd[i] == data[i] by {
        if i > 0 {
            assert(kd[i] == network_bytes(a, 128)[i - 1]);
        }
    }
    assert(entry_matches(entries[j], data, 136));
    assert(blocked(entries, data, 136));
}

/// Packets that are neither IPv4 nor IPv6, and IP packets that are not
/// TCP, always pass.
pub proof fn law_non_tcp_passes(p: Seq<u8>, entries: Seq<LpmEntry>)
    requires
        p.len() >= 54,
        (p[12] == 0x08 && p[13] == 0x00) ==> p[23] != 6,
        (p[12] == 0x86 && p[13] == 0xDD) ==> p[20] != 6,
    ensures
        firewall_outcome(p, entries) == Ok::<u32, ()>(XDP_PASS),
{
}

} // verus!

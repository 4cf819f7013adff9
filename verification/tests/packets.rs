use netsec::blocklist::{Blocklist, LineOutcome};
use netsec::firewall::{try_xdp_firewall, xdp_firewall, XDP_DROP, XDP_PASS};
use netsec::router::{
    interface_route, neighbor_route_update, parse_mac, ref_ll_addr, xdp_router, NeighborAttr, RouteTable,
    RouterVerdict,
};

fn ipv4_frame(proto: u8, src: [u8; 4], dst: [u8; 4]) -> Vec<u8> {
    let mut p = vec![0u8; 14 + 20 + 8];
    p[12] = 0x08;
    p[13] = 0x00;
    p[14] = 0x45;
    p[23] = proto;
    p[26..30].copy_from_slice(&src);
    p[30..34].copy_from_slice(&dst);
    p
}

fn ipv6_frame(next: u8, src: [u8; 16], dst: [u8; 16]) -> Vec<u8> {
    let mut p = vec![0u8; 14 + 40];
    p[12] = 0x86;
    p[13] = 0xDD;
    p[20] = next;
    p[22..38].copy_from_slice(&src);
    p[38..54].copy_from_slice(&dst);
    p
}

fn v4(a: [u8; 4]) -> [u8; 16] {
    let mut r = [0u8; 16];
    r[..4].copy_from_slice(&a);
    r
}

#[test]
fn block_list_lines() {
    let mut bl = Blocklist::new();
    assert!(matches!(bl.add_line("   "), LineOutcome::Skipped));
    assert!(matches!(bl.add_line("# comment"), LineOutcome::Skipped));
    assert!(matches!(bl.add_line(" 10.1.2.3/8 "), LineOutcome::Added));
    assert_eq!(bl.entries.len(), 1);
    assert_eq!(bl.entries[0].prefix_len, 16);
    assert_eq!(bl.entries[0].key.ip_type, 4);
    assert_eq!(bl.entries[0].key.addr, v4([10, 0, 0, 0]));
    assert!(matches!(bl.add_line("10.9.9.9/8"), LineOutcome::Added));
    assert_eq!(bl.entries.len(), 1);
    match bl.add_line(" 192.168.1.7 ") {
        LineOutcome::Address(t) => assert_eq!(t, "192.168.1.7"),
        other => panic!("unexpected {:?}", other),
    }
    assert_eq!(bl.entries.len(), 1);
}

#[test]
fn block_list_ipv6_network() {
    let mut bl = Blocklist::new();
    assert!(matches!(bl.add_line("2001:db8::1/32"), LineOutcome::Added));
    assert_eq!(bl.entries[0].prefix_len, 40);
    assert_eq!(bl.entries[0].key.ip_type, 6);
    assert_eq!(&bl.entries[0].key.addr[..4], &[0x20, 0x01, 0x0d, 0xb8]);
    assert!(bl.entries[0].key.addr[4..].iter().all(|b| *b == 0));
}

#[test]
fn tcp_from_blocked_network_is_dropped() {
    let mut bl = Blocklist::new();
    bl.add_line("10.0.0.0/8");
    assert_eq!(xdp_firewall(&ipv4_frame(6, [10, 200, 3, 4], [1, 1, 1, 1]), &bl), XDP_DROP);
    assert_eq!(xdp_firewall(&ipv4_frame(6, [11, 0, 0, 1], [1, 1, 1, 1]), &bl), XDP_PASS);
}

#[test]
fn blocked_single_address_is_dropped() {
    let mut bl = Blocklist::new();
    bl.add_address(4, v4([192, 168, 1, 7]));
    assert_eq!(bl.entries[0].prefix_len, 40);
    assert_eq!(xdp_firewall(&ipv4_frame(6, [192, 168, 1, 7], [8, 8, 8, 8]), &bl), XDP_DROP);
    assert_eq!(xdp_firewall(&ipv4_frame(6, [192, 168, 1, 8], [8, 8, 8, 8]), &bl), XDP_PASS);
}

#[test]
fn non_tcp_passes_even_when_blocked() {
    let mut bl = Blocklist::new();
    bl.add_line("0.0.0.0/0");
    assert_eq!(xdp_firewall(&ipv4_frame(17, [1, 2, 3, 4], [5, 6, 7, 8]), &bl), XDP_PASS);
    assert_eq!(xdp_firewall(&ipv4_frame(6, [1, 2, 3, 4], [5, 6, 7, 8]), &bl), XDP_DROP);
}

#[test]
fn ipv6_tcp_from_blocked_address_is_dropped() {
    let mut src = [0u8; 16];
    src[0] = 0x20;
    src[1] = 0x01;
    src[15] = 9;
    let mut bl = Blocklist::new();
    bl.add_address(6, src);
    assert_eq!(xdp_firewall(&ipv6_frame(6, src, [0; 16]), &bl), XDP_DROP);
    assert_eq!(xdp_firewall(&ipv6_frame(17, src, [0; 16]), &bl), XDP_PASS);
    let mut other = src;
    other[15] = 10;
    assert_eq!(xdp_firewall(&ipv6_frame(6, other, [0; 16]), &bl), XDP_PASS);
}

#[test]
fn short_frames_pass() {
    let bl = Blocklist::new();
    assert_eq!(try_xdp_firewall(&[0u8; 10], &bl), Err(()));
    let mut p = vec![0u8; 20];
    p[12] = 0x08;
    assert_eq!(try_xdp_firewall(&p, &bl), Err(()));
    assert_eq!(xdp_firewall(&p, &bl), XDP_PASS);
    let mut arp = vec![0u8; 60];
    arp[12] = 0x08;
    arp[13] = 0x06;
    assert_eq!(try_xdp_firewall(&arp, &bl), Ok(XDP_PASS));
}

#[test]
fn mac_text_is_read_as_hex_groups() {
    assert_eq!(parse_mac("aa:bb:cc:dd:ee:ff"), [0xaa, 0xbb, 0xcc, 0xdd, 0xee, 0xff]);
    assert_eq!(parse_mac("01:2:zz:04:05:06"), [1, 2, 0, 4, 5, 6]);
    assert_eq!(parse_mac("aa:bb:cc"), [0; 6]);
    assert_eq!(parse_mac(""), [0; 6]);
}

#[test]
fn routed_frame_is_rewritten_and_redirected() {
    let mut table = RouteTable::new();
    let (key, value) = interface_route(3, [1, 2, 3, 4, 5, 6], 4, v4([10, 0, 0, 2]));
    assert_eq!(value.dst_mac, [0xff; 6]);
    table.insert(key, value);
    let mut frame = ipv4_frame(6, [9, 9, 9, 9], [10, 0, 0, 2]);
    let original = frame.clone();
    assert_eq!(xdp_router(&mut frame, &table), RouterVerdict::Redirect(3));
    assert_eq!(&frame[0..6], &[0xff; 6]);
    assert_eq!(&frame[6..12], &[1, 2, 3, 4, 5, 6]);
    assert_eq!(&frame[12..], &original[12..]);
}

#[test]
fn unrouted_frame_passes_unchanged() {
    let mut table = RouteTable::new();
    let (key, value) = interface_route(3, [1, 2, 3, 4, 5, 6], 4, v4([10, 0, 0, 2]));
    table.insert(key, value);
    let mut frame = ipv4_frame(6, [9, 9, 9, 9], [10, 0, 0, 3]);
    let original = frame.clone();
    assert_eq!(xdp_router(&mut frame, &table), RouterVerdict::Pass);
    assert_eq!(frame, original);
    let mut short = vec![0u8; 13];
    assert_eq!(xdp_router(&mut short, &table), RouterVerdict::Pass);
}

#[test]
fn vlan_tagged_frame_uses_vlan_in_key() {
    let mut table = RouteTable::new();
    let (mut key, value) = interface_route(7, [6; 6], 4, v4([10, 0, 0, 5]));
    key.vlan_id = 0x123;
    table.insert(key, value);
    let mut frame = vec![0u8; 18 + 20];
    frame[12] = 0x81;
    frame[13] = 0x00;
    frame[14] = 0xF1;
    frame[15] = 0x23;
    frame[16] = 0x08;
    frame[17] = 0x00;
    frame[34..38].copy_from_slice(&[10, 0, 0, 5]);
    assert_eq!(xdp_router(&mut frame, &table), RouterVerdict::Redirect(7));
}

#[test]
fn neighbour_message_updates_destination_mac() {
    let mut table = RouteTable::new();
    let (key, value) = interface_route(2, [1; 6], 4, v4([192, 168, 0, 10]));
    table.insert(key, value);
    let attrs = vec![
        NeighborAttr::Other,
        NeighborAttr::Destination(vec![192, 168, 0, 10]),
        NeighborAttr::LinkLayerAddress(vec![0xde, 0xad, 0xbe, 0xef, 0, 1]),
    ];
    assert_eq!(ref_ll_addr(&attrs), Some(vec![0xde, 0xad, 0xbe, 0xef, 0, 1]));
    let (k, mac) = neighbor_route_update(&attrs).unwrap();
    assert_eq!(k.ip_type, 4);
    assert_eq!(k.ip_v4, [192, 168, 0, 10]);
    assert_eq!(mac, [0xde, 0xad, 0xbe, 0xef, 0, 1]);
    table.apply_neighbor(&attrs);
    let route = table.get(&key).unwrap();
    assert_eq!(route.dst_mac, [0xde, 0xad, 0xbe, 0xef, 0, 1]);
    assert_eq!(route.src_mac, [1; 6]);
    assert_eq!(route.if_index, 2);
}

#[test]
fn neighbour_message_without_six_byte_mac_changes_nothing() {
    let attrs = vec![NeighborAttr::Destination(vec![1, 2, 3, 4]), NeighborAttr::LinkLayerAddress(vec![1, 2, 3])];
    assert!(neighbor_route_update(&attrs).is_none());
    let attrs = vec![NeighborAttr::LinkLayerAddress(vec![1, 2, 3, 4, 5, 6])];
    assert!(neighbor_route_update(&attrs).is_none());
    let attrs = vec![NeighborAttr::Destination(vec![1, 2, 3])];
    assert!(neighbor_route_update(&attrs).is_none());
    assert_eq!(ref_ll_addr(&attrs), None);
}

#[test]
fn neighbour_for_unknown_address_adds_no_route() {
    let mut table = RouteTable::new();
    let attrs = vec![
        NeighborAttr::Destination(vec![10, 0, 0, 1]),
        NeighborAttr::LinkLayerAddress(vec![1, 2, 3, 4, 5, 6]),
    ];
    table.apply_neighbor(&attrs);
    let (k, _) = neighbor_route_update(&attrs).unwrap();
    assert!(table.get(&k).is_none());
}

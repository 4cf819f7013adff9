use netsec::cli::{client_action, listen_address, sender_command, tunnel_command, ClientAction, SenderCommand, TunnelCommand};
use netsec::dns::{
    answer_plan, cache_row_at, cached_a_record, clean_domain, ddns_reply, ddns_update, ipv4_to_text,
    lookup_cache_a_record, next_flush_step, parse_dns_to_record, record_from_frame, record_to_cache, save_to_cache,
    DdnsStep, DnsMessage, FlushStep, TelemetryBatch, CACHE_TTL, LOCAL_TTL, TELEMETRY_BATCH,
};
use netsec::siem::{
    first_write_step, next_simulated_event, next_write_step, pause_after_ms, simulated_event, traffic_done,
    wal_frame, BatchManager, Config, WriteStep,
};

fn args(v: &[&str]) -> Vec<String> {
    v.iter().map(|s| s.to_string()).collect()
}

fn config(max: usize) -> Config {
    Config { max_batch_size: max, batch_timeout_ms: 1000, wal_path: "w.wal".to_string() }
}

#[test]
fn batches_form_by_size() {
    let mut m: BatchManager<u32> = BatchManager::new(&config(3));
    assert!(m.on_event(1).batch.is_none());
    let a = m.on_event(2);
    assert!(a.batch.is_none());
    assert!(!a.restart_timer);
    let a = m.on_event(3);
    assert_eq!(a.batch, Some(vec![1, 2, 3]));
    assert!(a.restart_timer);
    assert!(m.on_event(4).batch.is_none());
    assert_eq!(m.on_close(), Some(vec![4]));
}

#[test]
fn timeout_flushes_partial_batch_and_restarts_timer() {
    let mut m: BatchManager<u32> = BatchManager::new(&config(20));
    let a = m.on_timeout();
    assert!(a.batch.is_none());
    assert!(a.restart_timer);
    m.on_event(7);
    m.on_event(8);
    let a = m.on_timeout();
    assert_eq!(a.batch, Some(vec![7, 8]));
    assert!(a.restart_timer);
    assert_eq!(m.on_close(), None);
}

#[test]
fn batching_keeps_every_event_in_order() {
    let mut m: BatchManager<u32> = BatchManager::new(&config(20));
    let mut out = Vec::new();
    for i in 0..50u32 {
        if let Some(b) = m.on_event(i).batch {
            assert_eq!(b.len(), 20);
            out.extend(b);
        }
    }
    if let Some(b) = m.on_close() {
        out.extend(b);
    }
    assert_eq!(out, (0..50).collect::<Vec<u32>>());
}

#[test]
fn write_steps_commit_or_fall_back_to_wal() {
    assert_eq!(first_write_step(0), WriteStep::Done);
    assert_eq!(first_write_step(2), WriteStep::Begin);
    assert_eq!(next_write_step(2, WriteStep::Begin, true), WriteStep::Row(0));
    assert_eq!(next_write_step(2, WriteStep::Row(0), true), WriteStep::Row(1));
    assert_eq!(next_write_step(2, WriteStep::Row(1), true), WriteStep::Commit);
    assert_eq!(next_write_step(2, WriteStep::Commit, true), WriteStep::Done);
    assert_eq!(next_write_step(2, WriteStep::Begin, false), WriteStep::DumpToWal);
    assert_eq!(next_write_step(2, WriteStep::Row(1), false), WriteStep::DumpToWal);
    assert_eq!(next_write_step(2, WriteStep::Commit, false), WriteStep::DumpToWal);
    assert_eq!(next_write_step(2, WriteStep::DumpToWal, false), WriteStep::Done);
}

#[test]
fn wal_records_are_newline_terminated() {
    assert_eq!(wal_frame(&vec![b"{\"a\":1}".to_vec(), b"{}".to_vec()]), b"{\"a\":1}\n{}\n".to_vec());
    assert_eq!(wal_frame(&vec![]), Vec::<u8>::new());
}

#[test]
fn generated_events_cycle_types_and_severities() {
    let e = simulated_event(1, 99, 1_700_000_000, 5);
    assert_eq!(e.event_id, 99);
    assert_eq!((e.timestamp_secs, e.timestamp_nanos), (1_700_000_000, 5));
    assert_eq!(e.event_type, "Malware_Detected");
    assert_eq!(e.severity, "MEDIUM");
    assert_eq!(e.source_ip, "192.168.1.1");
    assert_eq!(e.destination_ip, "10.0.0.1");
    assert_eq!(e.message, "SIEM alert log sequence id: 1");
    let e = simulated_event(256, 0, 0, 0);
    assert_eq!(e.event_type, "Auth_Failure");
    assert_eq!(e.severity, "LOW");
    assert_eq!(e.source_ip, "192.168.1.2");
    let e = simulated_event(3, 0, 0, 0);
    assert_eq!((e.event_type.as_str(), e.severity.as_str()), ("Data_Exfiltration", "CRITICAL"));
    let e = next_simulated_event(2);
    assert_eq!((e.event_type.as_str(), e.severity.as_str()), ("Port_Scan", "HIGH"));
    assert_ne!(e.event_id, next_simulated_event(2).event_id);
}

#[test]
fn generator_pacing() {
    assert_eq!(pause_after_ms(15), 2000);
    assert_eq!(pause_after_ms(30), 2000);
    assert_eq!(pause_after_ms(16), 10);
    assert!(!traffic_done(49));
    assert!(traffic_done(50));
}

#[test]
fn domains_lose_trailing_dots() {
    assert_eq!(clean_domain("example.com."), "example.com");
    assert_eq!(clean_domain("example.com..."), "example.com");
    assert_eq!(clean_domain("a.b"), "a.b");
    assert_eq!(clean_domain("."), "");
}

#[test]
fn answers_prefer_local_then_cache_then_forward() {
    let local = answer_plan(true, Some([1, 2, 3, 4]), Some([5, 6, 7, 8])).unwrap();
    assert_eq!((local.ip, local.ttl, local.authoritative), ([1, 2, 3, 4], LOCAL_TTL, true));
    let cached = answer_plan(true, None, Some([5, 6, 7, 8])).unwrap();
    assert_eq!((cached.ip, cached.ttl, cached.authoritative), ([5, 6, 7, 8], CACHE_TTL, false));
    assert!(answer_plan(true, None, None).is_none());
    assert!(answer_plan(false, Some([1, 2, 3, 4]), None).is_none());
    assert_eq!((LOCAL_TTL, CACHE_TTL), (60, 300));
}

#[test]
fn cache_entries_expire() {
    let ip = Some([9, 9, 9, 9]);
    let expires = "2024-01-01T00:00:00+00:00";
    assert_eq!(cached_a_record(ip, expires, (1_704_067_199, 999_999_999)), ip);
    assert_eq!(cached_a_record(ip, expires, (1_704_067_200, 0)), None);
    assert_eq!(cached_a_record(ip, "2024-01-01T03:00:00+03:00", (1_704_067_199, 0)), ip);
    assert_eq!(cached_a_record(ip, "not a time", (0, 0)), None);
    assert_eq!(lookup_cache_a_record(ip, "2999-01-01T00:00:00Z"), ip);
    assert_eq!(lookup_cache_a_record(ip, "2000-01-01T00:00:00Z"), None);
}

#[test]
fn cache_rows_carry_expiry_after_ttl() {
    let row = cache_row_at("example.com.", [93, 184, 216, 34], 300, (1_704_067_200, 0)).unwrap();
    assert_eq!(row.domain, "example.com");
    assert_eq!(row.ip_address, "93.184.216.34");
    assert_eq!(row.expires_at, "2024-01-01T00:05:00+00:00");
    assert!(cache_row_at("x", [0; 4], 1, (i64::MAX, 0)).is_none());
    assert_eq!(save_to_cache("y.", [1, 2, 3, 4], 60).unwrap().domain, "y");
    assert_eq!(ipv4_to_text([0, 10, 255, 1]), "0.10.255.1");
}

#[test]
fn first_a_record_of_answer_is_cached() {
    let recs = vec![None, Some(([1, 1, 1, 1], 30)), Some(([2, 2, 2, 2], 40))];
    assert_eq!(record_to_cache(true, &recs), Some(([1, 1, 1, 1], 30)));
    assert_eq!(record_to_cache(false, &recs), None);
    assert_eq!(record_to_cache(true, &vec![None]), None);
}

#[test]
fn ddns_updates() {
    match ddns_update("home.example.", "1.2.3.4", true) {
        DdnsStep::Store(d, ip) => {
            assert_eq!(d, "home.example");
            assert_eq!(ip, "1.2.3.4");
        },
        _ => panic!("expected a store"),
    }
    match ddns_update("home", "1.2.3", false) {
        DdnsStep::Reply(status, body) => {
            assert_eq!(status, 400);
            assert_eq!(body, "Error: invalid IPv4 address format\n");
        },
        _ => panic!("expected a reply"),
    }
    assert_eq!(ddns_reply("home.example", "1.2.3.4", true), (200, "successfully updated: home.example points to 1.2.3.4\n".to_string()));
    assert_eq!(ddns_reply("home.example", "1.2.3.4", false), (500, "internal database error\n".to_string()));
}

#[test]
fn telemetry_rows_from_messages() {
    let query = DnsMessage {
        id: 7,
        first_query: Some(("example.com.".to_string(), "A".to_string())),
        is_response: false,
        answers: vec![Some("1.2.3.4".to_string())],
    };
    let r = parse_dns_to_record(&query, (10, 20)).unwrap();
    assert_eq!((r.timestamp_secs, r.timestamp_nanos, r.tx_id), (10, 20, 7));
    assert_eq!(r.msg_type, "Query");
    assert_eq!((r.domain.as_str(), r.query_type.as_str()), ("example.com.", "A"));
    assert!(r.answers.is_empty());
    let response = DnsMessage { is_response: true, answers: vec![Some("1.2.3.4".to_string()), None, Some("5.6.7.8".to_string())], ..query.clone() };
    let r = parse_dns_to_record(&response, (10, 20)).unwrap();
    assert_eq!(r.msg_type, "Response");
    assert_eq!(r.answers, vec!["1.2.3.4".to_string(), "5.6.7.8".to_string()]);
    let empty = DnsMessage { first_query: None, ..query };
    assert!(parse_dns_to_record(&empty, (0, 0)).is_none());
}

fn dns_query_frame() -> Vec<u8> {
    let dns: Vec<u8> = vec![
        0x12, 0x34, 0x01, 0x00, 0x00, 0x01, 0x00, 0x00, 0x00, 0x00, 0x00, 0x00, 7, b'e', b'x', b'a', b'm', b'p', b'l',
        b'e', 3, b'c', b'o', b'm', 0, 0x00, 0x01, 0x00, 0x01,
    ];
    let udp_len = (8 + dns.len()) as u16;
    let ip_len = 20 + udp_len;
    let mut f = vec![0u8; 12];
    f.extend_from_slice(&[0x08, 0x00]);
    f.extend_from_slice(&[0x45, 0, (ip_len >> 8) as u8, ip_len as u8, 0, 0, 0, 0, 64, 17, 0, 0, 10, 0, 0, 1, 10, 0, 0, 2]);
    f.extend_from_slice(&[0x30, 0x39, 0, 53, (udp_len >> 8) as u8, udp_len as u8, 0, 0]);
    f.extend(dns);
    f
}

#[test]
fn telemetry_row_from_captured_frame() {
    let r = record_from_frame(&dns_query_frame()).unwrap();
    assert_eq!(r.tx_id, 0x1234);
    assert_eq!(r.msg_type, "Query");
    assert_eq!(r.domain, "example.com.");
    assert_eq!(r.query_type, "A");
    assert!(record_from_frame(&[0u8; 10]).is_none());
}

#[test]
fn telemetry_batch_flushes() {
    let mut b: TelemetryBatch<u32> = TelemetryBatch::new();
    assert!(!b.on_timer());
    for i in 0..(TELEMETRY_BATCH as u32 - 1) {
        assert!(!b.on_record(i));
    }
    assert!(b.on_record(999));
    assert!(b.on_timer());
    assert_eq!(next_flush_step(2, FlushStep::Begin, true), FlushStep::Row(0));
    assert_eq!(next_flush_step(2, FlushStep::Begin, false), FlushStep::Clear);
    assert_eq!(next_flush_step(2, FlushStep::Row(0), false), FlushStep::Keep);
    assert_eq!(next_flush_step(2, FlushStep::Row(1), true), FlushStep::Commit);
    assert_eq!(next_flush_step(2, FlushStep::Commit, false), FlushStep::Clear);
    b.finish_flush(FlushStep::Keep);
    assert_eq!(b.as_slice().len(), TELEMETRY_BATCH);
    b.finish_flush(FlushStep::Clear);
    assert!(b.as_slice().is_empty());
}

#[test]
fn file_sender_command_line() {
    match sender_command(&args(&["fs", "1.2.3.4:9000"])) {
        SenderCommand::Usage(u) => assert_eq!(u, "Try: fs <IP:PORT> <FILE_PATH> <mode: client|server>"),
        _ => panic!("expected usage"),
    }
    match sender_command(&args(&["fs", "0.0.0.0:9000", "out.bin", "server"])) {
        SenderCommand::Server { addr, path } => assert_eq!((addr.as_str(), path.as_str()), ("0.0.0.0:9000", "out.bin")),
        _ => panic!("expected server"),
    }
    match sender_command(&args(&["fs", "h:1", "in.bin", "client", "extra"])) {
        SenderCommand::Client { addr, path } => assert_eq!((addr.as_str(), path.as_str()), ("h:1", "in.bin")),
        _ => panic!("expected client"),
    }
    assert!(matches!(sender_command(&args(&["fs", "h:1", "x", "both"])), SenderCommand::BadMode));
}

#[test]
fn tunnel_command_line() {
    assert!(matches!(tunnel_command(&args(&["t"])), TunnelCommand::Usage));
    assert!(matches!(tunnel_command(&args(&["t", "relay"])), TunnelCommand::Usage));
    match tunnel_command(&args(&["t", "server"])) {
        TunnelCommand::Server { control_port, public_port } => assert_eq!((control_port.as_str(), public_port.as_str()), ("8001", "8080")),
        _ => panic!("expected server"),
    }
    match tunnel_command(&args(&["t", "server", "9001"])) {
        TunnelCommand::Server { control_port, public_port } => assert_eq!((control_port.as_str(), public_port.as_str()), ("9001", "8080")),
        _ => panic!("expected server"),
    }
    match tunnel_command(&args(&["t", "client", "s:1", "l:2"])) {
        TunnelCommand::Client { server_addr, local_addr } => assert_eq!((server_addr.as_str(), local_addr.as_str()), ("s:1", "l:2")),
        _ => panic!("expected client"),
    }
    match tunnel_command(&args(&["t", "client"])) {
        TunnelCommand::Client { server_addr, local_addr } => {
            assert_eq!((server_addr.as_str(), local_addr.as_str()), ("127.0.0.1:8001", "127.0.0.1:3000"))
        },
        _ => panic!("expected client"),
    }
    assert_eq!(listen_address("8080"), "0.0.0.0:8080");
}

#[test]
fn tunnel_client_reacts_to_control_bytes() {
    assert_eq!(client_action(0, 1), ClientAction::Stop);
    assert_eq!(client_action(1, 1), ClientAction::OpenTunnel);
    assert_eq!(client_action(1, 2), ClientAction::Ignore);
}

#[test]
fn tunnel_readme_command_lines() {
    match tunnel_command(&args(&["rs_ngrok", "server", "8001", "8080"])) {
        TunnelCommand::Server { control_port, public_port } => assert_eq!((control_port.as_str(), public_port.as_str()), ("8001", "8080")),
        _ => panic!("expected server"),
    }
    match tunnel_command(&args(&["rs_ngrok", "client", "127.0.0.1:8001", "127.0.0.1:3000"])) {
        TunnelCommand::Client { server_addr, local_addr } => {
            assert_eq!((server_addr.as_str(), local_addr.as_str()), ("127.0.0.1:8001", "127.0.0.1:3000"))
        },
        _ => panic!("expected client"),
    }
}

#[test]
fn cached_answer_is_served_until_its_expiry() {
    let ip = [10, 1, 2, 3];
    let row = cache_row_at("svc.local.", ip, 300, (1_700_000_000, 5)).unwrap();
    assert_eq!(cached_a_record(Some(ip), &row.expires_at, (1_700_000_000, 5)), Some(ip));
    assert_eq!(cached_a_record(Some(ip), &row.expires_at, (1_700_000_300, 4)), Some(ip));
    assert_eq!(cached_a_record(Some(ip), &row.expires_at, (1_700_000_300, 5)), None);
    assert_eq!(cached_a_record(Some(ip), &row.expires_at, (1_800_000_000, 0)), None);
}

use std::cell::Cell;
use netsec::events::{
    buffer_text, decode_process_event, decode_syscall_event, describe_process_event, init_event, sys_enter_execve,
    sys_enter_memfd_create, sys_enter_openat, sys_enter_syscall, syscall_comm_text, EventKind, EVENT_EXEC,
    EVENT_MEMFD, EVENT_OPEN,
};
use netsec::lsm::{
    file_open, is_flag_set, parse_rule_line, requested_mask, FileRuleKey, FileRuleValue, FileRules, LineIssue,
    OpenFile, RuleLine, AUTH_EXEC, AUTH_OPEN, AUTH_READ, AUTH_WRITE, DENY, MAX_PATH_LEN, MAX_RULES,
};
use netsec::objstore::{ObjectStore, StoreError};
use netsec::protect::{alert_message, enforcement, pin_to_remove, purged_message, whitelist_key, Enforcement};
use netsec::shield::{guard, Shield, ShieldError, MAX_CONN_PER_IP, MAX_RPS_PER_IP};

fn path_buf(p: &str) -> [u8; MAX_PATH_LEN] {
    let mut b = [0u8; MAX_PATH_LEN];
    let n = p.len().min(MAX_PATH_LEN - 1);
    b[..n].copy_from_slice(&p.as_bytes()[..n]);
    b
}

#[test]
fn connection_cap_per_address() {
    let mut shield = Shield::new();
    let key = (4u8, 0x0a000001u128);
    for _ in 0..MAX_CONN_PER_IP {
        assert_eq!(shield.open_connection(key, 1), Ok(()));
    }
    assert_eq!(shield.open_connection(key, 1), Err(ShieldError::TooManyConnections));
    assert_eq!(shield.stats(&key).unwrap().connection_count, MAX_CONN_PER_IP);
    shield.close_connection(key);
    assert_eq!(shield.stats(&key).unwrap().connection_count, MAX_CONN_PER_IP - 1);
    assert_eq!(shield.open_connection(key, 2), Ok(()));
}

#[test]
fn connection_cap_counts_every_port_of_an_ip() {
    // Connections from many source ports of one IP share one record.
    let mut shield = Shield::new();
    let ip = (4u8, 0x0a000001u128);
    for _ in 0..MAX_CONN_PER_IP {
        assert_eq!(shield.open_connection(ip, 1), Ok(()));
    }
    assert_eq!(shield.open_connection(ip, 1), Err(ShieldError::TooManyConnections));
    assert_eq!(shield.open_connection((4u8, 0x0a000002u128), 1), Ok(()));
}

#[test]
fn request_cap_counts_every_port_of_an_ip() {
    let mut shield = Shield::new();
    let ip = (6u8, 0x2001_0db8u128 << 96);
    shield.open_connection(ip, 0).unwrap();
    let mut accepted = 0;
    for i in 0..(MAX_RPS_PER_IP + 10) {
        if shield.register_request(ip, 10 + i as u64).is_ok() {
            accepted += 1;
        }
    }
    assert_eq!(accepted, MAX_RPS_PER_IP);
}

#[test]
fn close_without_record_changes_nothing() {
    let mut shield = Shield::new();
    let key = (6u8, 1u128);
    shield.close_connection(key);
    assert!(shield.stats(&key).is_none());
}

#[test]
fn open_then_close_restores_record() {
    let mut shield = Shield::new();
    let key = (4u8, 7u128);
    shield.open_connection(key, 10).unwrap();
    let before = shield.stats(&key).unwrap();
    shield.open_connection(key, 11).unwrap();
    shield.close_connection(key);
    assert_eq!(shield.stats(&key).unwrap(), before);
}

#[test]
fn requests_beyond_rate_are_refused_until_window_passes() {
    let mut shield = Shield::new();
    let key = (4u8, 9u128);
    shield.open_connection(key, 0).unwrap();
    for i in 0..MAX_RPS_PER_IP {
        assert_eq!(shield.register_request(key, 100 + i as u64), Ok(()));
    }
    assert_eq!(shield.register_request(key, 500), Err(ShieldError::RateLimited));
    assert_eq!(shield.register_request(key, 1_000_000_000), Err(ShieldError::RateLimited));
    assert_eq!(shield.register_request(key, 1_000_000_001), Ok(()));
    assert_eq!(shield.stats(&key).unwrap().rps_count, 1);
    assert_eq!(shield.stats(&key).unwrap().last_request_time, 1_000_000_001);
}

#[test]
fn sweep_drops_idle_records_without_connections() {
    let mut shield = Shield::new();
    let idle = (4u8, 1u128);
    let busy = (4u8, 2u128);
    let recent = (4u8, 3u128);
    shield.open_connection(idle, 0).unwrap();
    shield.close_connection(idle);
    shield.open_connection(busy, 0).unwrap();
    shield.open_connection(recent, 59_000_000_000).unwrap();
    shield.close_connection(recent);
    shield.sweep(60_000_000_000);
    assert!(shield.stats(&idle).is_none());
    assert!(shield.stats(&busy).is_some());
    assert!(shield.stats(&recent).is_some());
}

#[test]
fn shield_error_messages() {
    assert_eq!(ShieldError::TooManyConnections.message(), "Too many connections from this IP (L4 Flood Mitigation)");
    assert_eq!(ShieldError::RateLimited.message(), "RPS limit exceeded (L7 HTTP Flood Protection)");
}

#[test]
fn guard_runs_its_function_on_release() {
    let seen = Cell::new(0);
    let g = guard(41, |v: i32| seen.set(v + 1));
    assert_eq!(seen.get(), 0);
    g.release();
    assert_eq!(seen.get(), 42);
}

#[test]
fn object_store_round_trip() {
    let mut store = ObjectStore::new();
    assert_eq!(store.create_bucket("b".to_string()), Ok(()));
    assert_eq!(store.create_bucket("b".to_string()), Err(StoreError::BucketAlreadyExists));
    assert_eq!(store.put_object("b", "k".to_string(), Some(Ok(b"hello".to_vec()))), Ok(()));
    let obj = store.get_object("b", "k").ok().unwrap();
    assert_eq!(obj.body, b"hello".to_vec());
    assert_eq!(obj.content_length, 5);
    assert_eq!(store.put_object("b", "k".to_string(), Some(Ok(b"bye".to_vec()))), Ok(()));
    assert_eq!(store.get_object("b", "k").ok().unwrap().body, b"bye".to_vec());
}

#[test]
fn object_store_errors() {
    let mut store = ObjectStore::new();
    assert_eq!(store.put_object("none", "k".to_string(), Some(Ok(vec![1]))), Err(StoreError::NoSuchBucket));
    assert!(matches!(store.get_object("none", "k"), Err(StoreError::NoSuchBucket)));
    store.create_bucket("b".to_string()).unwrap();
    assert!(matches!(store.get_object("b", "missing"), Err(StoreError::NoSuchKey)));
    assert_eq!(store.put_object("b", "k".to_string(), None), Err(StoreError::InvalidRequestBody));
    assert_eq!(store.put_object("b", "k".to_string(), Some(Err(()))), Err(StoreError::InternalError));
    assert!(matches!(store.get_object("b", "k"), Err(StoreError::NoSuchKey)));
}

#[test]
fn requested_access_by_open_flags() {
    assert_eq!(requested_mask(0), AUTH_OPEN | AUTH_READ);
    assert_eq!(requested_mask(1), AUTH_OPEN | AUTH_WRITE);
    assert_eq!(requested_mask(2), AUTH_OPEN | AUTH_READ | AUTH_WRITE);
    assert_eq!(requested_mask(3), AUTH_OPEN);
    assert_eq!(requested_mask(0x20 | 2), AUTH_OPEN | AUTH_READ | AUTH_WRITE | AUTH_EXEC);
    assert!(is_flag_set(7, 3));
    assert!(!is_flag_set(5, 3));
}

#[test]
fn rules_file_lines() {
    assert!(matches!(parse_rule_line(""), RuleLine::Skip));
    assert!(matches!(parse_rule_line("  \t "), RuleLine::Skip));
    assert!(matches!(parse_rule_line("# /etc/shadow 0 0 0 0"), RuleLine::Skip));
    assert!(matches!(parse_rule_line("/etc/shadow 1 1"), RuleLine::Malformed));
    assert!(matches!(parse_rule_line(" #x 1 1 1 1"), RuleLine::Rule(_, _)));
    match parse_rule_line("/etc/shadow\t1 1 0 yes") {
        RuleLine::Rule(k, v) => {
            assert_eq!(k.path, path_buf("/etc/shadow"));
            assert_eq!(v.allowed_mask, AUTH_OPEN | AUTH_READ);
        },
        _ => panic!("expected a rule"),
    }
    let long = "/".repeat(300);
    match parse_rule_line(&format!("{} 1 1 1 1", long)) {
        RuleLine::Rule(k, v) => {
            assert_eq!(k.path[254], b'/');
            assert_eq!(k.path[255], 0);
            assert_eq!(v.allowed_mask, 15);
        },
        _ => panic!("expected a rule"),
    }
}

#[test]
fn file_open_verdicts_follow_rules() {
    let mut rules = FileRules::new();
    let issues = rules.reload_rules(&vec![
        "# rules".to_string(),
        "/etc/shadow 1 1 0 0".to_string(),
        "/bin/tool 1 1 0 1".to_string(),
        "bad line".to_string(),
    ]);
    assert_eq!(issues.len(), 1);
    assert_eq!(issues[0].0, 3);
    assert!(matches!(issues[0].1, LineIssue::Malformed));
    let read = OpenFile { path: path_buf("/etc/shadow"), path_len: 12, f_flags: 0 };
    let write = OpenFile { path: path_buf("/etc/shadow"), path_len: 12, f_flags: 1 };
    let exec = OpenFile { path: path_buf("/bin/tool"), path_len: 10, f_flags: 0x20 };
    let other = OpenFile { path: path_buf("/tmp/x"), path_len: 7, f_flags: 2 };
    let unresolved = OpenFile { path: path_buf("/etc/shadow"), path_len: 0, f_flags: 1 };
    assert_eq!(file_open(&rules, Some(&read)), 0);
    assert_eq!(file_open(&rules, Some(&write)), DENY);
    assert_eq!(file_open(&rules, Some(&exec)), 0);
    assert_eq!(file_open(&rules, Some(&other)), 0);
    assert_eq!(file_open(&rules, Some(&unresolved)), 0);
    assert_eq!(file_open(&rules, None), 0);
}

#[test]
fn reload_overwrites_existing_rules() {
    let mut rules = FileRules::new();
    rules.reload_rules(&vec!["/data 1 1 1 1".to_string()]);
    let key = FileRuleKey { path: path_buf("/data") };
    assert_eq!(rules.get(&key).unwrap().allowed_mask, 15);
    rules.reload_rules(&vec!["/data 0 1 0 0".to_string()]);
    assert_eq!(rules.get(&key).unwrap().allowed_mask, AUTH_READ);
    let f = OpenFile { path: path_buf("/data"), path_len: 6, f_flags: 0 };
    assert_eq!(file_open(&rules, Some(&f)), DENY);
}

#[test]
fn full_rule_table_refuses_new_paths() {
    let mut rules = FileRules::new();
    for i in 0..MAX_RULES {
        let key = FileRuleKey { path: path_buf(&format!("/f{}", i)) };
        assert_eq!(rules.insert(key, FileRuleValue { allowed_mask: 1 }), Ok(()));
    }
    let extra = FileRuleKey { path: path_buf("/extra") };
    assert_eq!(rules.insert(extra, FileRuleValue { allowed_mask: 1 }), Err(()));
    let issues = rules.reload_rules(&vec!["/extra 1 1 1 1".to_string(), "/f0 1 1 1 1".to_string()]);
    assert_eq!(issues.len(), 1);
    assert_eq!(issues[0].0, 0);
    assert!(matches!(issues[0].1, LineIssue::TableFull));
    assert_eq!(rules.get(&FileRuleKey { path: path_buf("/f0") }).unwrap().allowed_mask, 15);
}

#[test]
fn probe_events_carry_ids_and_names() {
    let comm = *b"bash\0\0\0\0\0\0\0\0\0\0\0\0";
    let pid_tgid = (1234u64 << 32) | 5678;
    let e = init_event(EVENT_OPEN, pid_tgid, comm);
    assert_eq!((e.pid, e.tgid, e.event_type), (1234, 5678, EVENT_OPEN));
    assert_eq!(e.filename, [0u8; 64]);
    let e = sys_enter_execve(pid_tgid, comm, Some(&b"/bin/ls\0garbage"[..]));
    assert_eq!(e.event_type, EVENT_EXEC);
    assert_eq!(&e.filename[..8], b"/bin/ls\0");
    assert!(e.filename[8..].iter().all(|b| *b == 0));
    let long = [b'a'; 100];
    let e = sys_enter_openat(pid_tgid, comm, Some(&long[..]));
    assert!(e.filename[..63].iter().all(|b| *b == b'a'));
    assert_eq!(e.filename[63], 0);
    let e = sys_enter_memfd_create(pid_tgid, comm, None);
    assert_eq!(e.event_type, EVENT_MEMFD);
    assert_eq!(e.filename, [0u8; 64]);
}

#[test]
fn process_event_round_trip_through_ring_buffer_bytes() {
    let mut item = Vec::new();
    item.extend_from_slice(&42u32.to_le_bytes());
    item.extend_from_slice(&43u32.to_le_bytes());
    item.extend_from_slice(&EVENT_MEMFD.to_le_bytes());
    let mut comm = [0u8; 16];
    comm[..4].copy_from_slice(b"evil");
    item.extend_from_slice(&comm);
    let mut name = [0u8; 64];
    name[..5].copy_from_slice(b"stage");
    item.extend_from_slice(&name);
    assert_eq!(item.len(), 92);
    let e = decode_process_event(&item).unwrap();
    assert_eq!((e.pid, e.tgid, e.event_type), (42, 43, EVENT_MEMFD));
    let (kind, pid, c, f) = describe_process_event(&e).unwrap();
    assert_eq!(kind, EventKind::Memfd);
    assert_eq!(pid, 42);
    assert_eq!(c, "evil");
    assert_eq!(f, "stage");
    assert!(decode_process_event(&item[..91]).is_none());
    let mut odd = e;
    odd.event_type = 9;
    assert!(describe_process_event(&odd).is_none());
}

#[test]
fn syscall_events() {
    let comm = *b"\0nginx\0\0\0\0\0\0\0\0\0\0";
    let e = sys_enter_syscall((77u64 << 32) | 1, Some(59), comm);
    assert_eq!((e.pid, e.syscall_id), (77, 59));
    assert_eq!(sys_enter_syscall(5u64 << 32, None, comm).syscall_id, 0);
    let mut item = Vec::new();
    item.extend_from_slice(&77u32.to_le_bytes());
    item.extend_from_slice(&59u32.to_le_bytes());
    item.extend_from_slice(&comm);
    let d = decode_syscall_event(&item).unwrap();
    assert_eq!((d.pid, d.syscall_id), (77, 59));
    assert_eq!(syscall_comm_text(&d.comm), "nginx");
    let bad = [0xffu8; 16];
    assert_eq!(syscall_comm_text(&bad), "unknown");
    assert!(decode_syscall_event(&item[..23]).is_none());
}

#[test]
fn buffer_text_replaces_invalid_bytes() {
    assert_eq!(buffer_text(b"\0\0ok\0"), "ok");
    assert_eq!(buffer_text(&[b'a', 0xff, b'b', 0]), "a\u{FFFD}b");
}

#[test]
fn whitelist_keys_and_alerts() {
    let k = whitelist_key("a_rather_long_program_name", 7);
    assert_eq!(k.prog_type, 7);
    assert_eq!(&k.name[..15], b"a_rather_long_p");
    assert_eq!(k.name[15], 0);
    let k = whitelist_key("xdp", 6);
    assert_eq!(&k.name[..4], b"xdp\0");
    assert_eq!(
        alert_message(12, "sniff", 2),
        "SECURITY_ALERT: Unauthorized eBPF program detected! ID=12, Name='sniff', Type=2. Action: Force Unload."
    );
    assert_eq!(purged_message(12), "eBPF program ID=12 has been purged ..");
    assert!(pin_to_remove("/sys/fs/bpf/evil", Some(12), 12));
    assert!(!pin_to_remove("/sys/fs/bpf/evil", Some(13), 12));
    assert!(!pin_to_remove("/sys/fs/bpf/evil", None, 12));
    assert!(!pin_to_remove("/sys/fs/bpf/fw_whitelist_map", Some(12), 12));
}

#[test]
fn rule_without_open_flag_denies_every_open() {
    let mut rules = FileRules::new();
    rules.reload_rules(&vec!["/secret 0 1 1 1".to_string()]);
    for flags in [0u32, 1, 2, 3, 0x20, 0x22] {
        let f = OpenFile { path: path_buf("/secret"), path_len: 8, f_flags: flags };
        assert_eq!(file_open(&rules, Some(&f)), DENY);
    }
}

#[test]
fn guard_unloads_programs_off_the_whitelist() {
    assert!(matches!(enforcement(3, "fw", 6, true), Enforcement::Keep));
    match enforcement(3, "spy", 2, false) {
        Enforcement::Unload { alert, notice } => {
            assert_eq!(alert, "SECURITY_ALERT: Unauthorized eBPF program detected! ID=3, Name='spy', Type=2. Action: Force Unload.");
            assert_eq!(notice, "eBPF program ID=3 has been purged ..");
        },
        Enforcement::Keep => panic!("expected an unload"),
    }
}

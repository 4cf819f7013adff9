use netsec::dlp::{DlpEngine, LeakType, Rule, Severity};
use netsec::fanotify::{file_response, proc_fd_path, read_events, scan_text, FAN_ALLOW, FAN_DENY};
use netsec::luhn::validate_luhn;
use netsec::sniffer::{inspect_data, proxy_context, proxy_response, sniffed_text, SniffSource};

const CARD: &str = r"\b\d{4}[- ]?\d{4}[- ]?\d{4}[- ]?\d{4}\b";
const PASSPORT: &str = r"\b\d{4}\s?\d{6}\b";

fn demo_engine() -> DlpEngine {
    let mut engine = DlpEngine::new(20);
    engine.add_rule(Rule::Signature(CARD.to_string(), LeakType::CreditCard, 15));
    engine.add_rule(Rule::Signature(PASSPORT.to_string(), LeakType::Passport, 25));
    engine.add_rule(Rule::Dictionary(
        vec![("trade secret".to_string(), 10), ("NDA".to_string(), 5), ("private key".to_string(), 15)],
        LeakType::ConfidentialKeyword,
    ));
    engine
}

#[test]
fn luhn_accepts_valid_numbers() {
    assert!(validate_luhn("4111 1111 1111 1111"));
    assert!(validate_luhn("4000-1234-5678-9017"));
    assert!(validate_luhn("4000123456789017"));
}

#[test]
fn luhn_rejects_bad_checksums() {
    assert!(!validate_luhn("1111-1111-1111-1111"));
    assert!(!validate_luhn("4000 1234 5678 9010"));
}

#[test]
fn luhn_needs_13_to_19_digits() {
    assert!(!validate_luhn("0000 0000 0000"));
    assert!(validate_luhn("0000 0000 0000 0"));
    assert!(!validate_luhn("00000000000000000000"));
    assert!(!validate_luhn(""));
}

#[test]
fn card_failing_luhn_is_not_reported() {
    let r = demo_engine().analyze_checked("Hi! My card number is 4000 1234 5678 9010. Don't show it to anyone").unwrap();
    assert_eq!(r.total_score, 0);
    assert!(!r.is_violation);
    assert_eq!(r.severity, Severity::Low);
    assert!(r.detections.is_empty());
}

#[test]
fn valid_card_is_reported() {
    let r = demo_engine().analyze_checked("card 4111 1111 1111 1111 here").unwrap();
    assert_eq!(r.detections.len(), 1);
    assert_eq!(r.detections[0].leak_type, LeakType::CreditCard);
    assert_eq!(r.detections[0].matched_text, "4111 1111 1111 1111");
    assert_eq!(r.detections[0].score_impact, 15);
    assert_eq!(r.total_score, 15);
    assert!(!r.is_violation);
    assert_eq!(r.severity, Severity::High);
}

#[test]
fn keywords_score_without_blocking() {
    let r = demo_engine().analyze_checked("This is a test document containing an NDA and trade secrets").unwrap();
    assert_eq!(r.total_score, 15);
    assert!(!r.is_violation);
    assert_eq!(r.severity, Severity::High);
    assert_eq!(r.detections.len(), 2);
    assert_eq!(r.detections[0].matched_text, "trade secret");
    assert_eq!(r.detections[0].score_impact, 10);
    assert_eq!(r.detections[1].matched_text, "NDA");
    assert_eq!(r.detections[1].leak_type, LeakType::ConfidentialKeyword);
}

#[test]
fn passport_blocks_document() {
    let r = demo_engine().analyze_checked("Passport of a citizen of the Russian Federation: 4508 123456. Urgent").unwrap();
    assert_eq!(r.total_score, 25);
    assert!(r.is_violation);
    assert_eq!(r.severity, Severity::High);
    assert_eq!(r.detections[0].leak_type, LeakType::Passport);
    assert_eq!(r.detections[0].matched_text, "4508 123456");
}

#[test]
fn fake_card_is_not_reported() {
    let r = demo_engine().analyze_checked("The fake card number 1111-1111-1111-1111 will not pass Luhn validation").unwrap();
    assert_eq!(r.total_score, 0);
    assert!(!r.is_violation);
}

#[test]
fn keywords_match_regardless_of_case_and_repeat() {
    let mut engine = DlpEngine::new(100);
    engine.add_rule(Rule::Dictionary(vec![("private key".to_string(), 15)], LeakType::ConfidentialKeyword));
    let r = engine.analyze_checked("PRIVATE KEY and Private Key").unwrap();
    assert_eq!(r.detections.len(), 2);
    assert_eq!(r.detections[0].matched_text, "PRIVATE KEY");
    assert_eq!(r.detections[1].matched_text, "Private Key");
    assert_eq!(r.total_score, 30);
    assert_eq!(r.severity, Severity::High);
}

#[test]
fn severity_bands_follow_total() {
    let mut engine = DlpEngine::new(31);
    engine.add_rule(Rule::Dictionary(vec![("x".to_string(), 1)], LeakType::SourceCode));
    assert_eq!(engine.analyze_checked("x").unwrap().severity, Severity::Medium);
    assert_eq!(engine.analyze_checked(&"x".repeat(10)).unwrap().severity, Severity::Medium);
    assert_eq!(engine.analyze_checked(&"x".repeat(11)).unwrap().severity, Severity::High);
    assert_eq!(engine.analyze_checked(&"x".repeat(30)).unwrap().severity, Severity::High);
    let r = engine.analyze_checked(&"x".repeat(31)).unwrap();
    assert_eq!(r.severity, Severity::Critical);
    assert!(r.is_violation);
}

#[test]
fn engine_without_rules_finds_nothing() {
    let engine = DlpEngine::new(1);
    let r = engine.analyze("anything at all");
    assert_eq!(r.total_score, 0);
    assert!(!r.is_violation);
}

#[test]
fn zero_threshold_flags_every_document() {
    let engine = DlpEngine::new(0);
    assert!(engine.analyze_checked("clean").unwrap().is_violation);
}

#[test]
fn invalid_pattern_finds_nothing() {
    let mut engine = DlpEngine::new(1);
    engine.add_rule(Rule::Signature("(".to_string(), LeakType::SourceCode, 3));
    assert_eq!(engine.analyze_checked("((((").unwrap().total_score, 0);
}

#[test]
fn sniffer_reports_card_fragments() {
    let found = inspect_data("pay 4000 1234 5678 9010 and 1111-2222-3333-4444 now").unwrap();
    assert_eq!(found, vec!["4000 1234 5678 9010".to_string(), "1111-2222-3333-4444".to_string()]);
    assert!(inspect_data("no numbers").unwrap().is_empty());
}

#[test]
fn sniffer_scans_text_packets_whole() {
    let (src, text) = sniffed_text(b"GET / HTTP/1.1").unwrap();
    assert_eq!(src, SniffSource::Text);
    assert_eq!(text, "GET / HTTP/1.1");
}

#[test]
fn sniffer_scans_long_binary_packets_lossily() {
    let mut packet = vec![0xffu8, 0xfe];
    packet.extend_from_slice(b"card 4111 1111 1111 1111 in a binary frame");
    let (src, text) = sniffed_text(&packet).unwrap();
    assert_eq!(src, SniffSource::Lossy);
    assert!(text.starts_with("\u{FFFD}\u{FFFD}card"));
    assert!(sniffed_text(&[0xff, b'a', b'b']).is_none());
}

#[test]
fn proxy_replies() {
    assert_eq!(proxy_response(true), (200, "data successfully processed by the DLP proxy"));
    assert_eq!(proxy_response(false), (400, "Error reading request body"));
    assert_eq!(proxy_context("http://x/y"), "HTTP Proxy Request to http://x/y");
}

fn metadata(event_len: u32, fd: i32, pid: i32) -> Vec<u8> {
    let mut v = Vec::new();
    v.extend_from_slice(&event_len.to_le_bytes());
    v.push(3);
    v.push(0);
    v.extend_from_slice(&24u16.to_le_bytes());
    v.extend_from_slice(&0x10000u64.to_le_bytes());
    v.extend_from_slice(&fd.to_le_bytes());
    v.extend_from_slice(&pid.to_le_bytes());
    v
}

#[test]
fn fanotify_events_are_read_in_order() {
    let mut buf = metadata(24, 5, 100);
    buf.extend(metadata(32, -1, 200));
    buf.extend(vec![0u8; 8]);
    buf.extend(metadata(24, 7, 300));
    buf.extend(vec![0u8; 10]);
    let n = buf.len();
    let events = read_events(&buf, n);
    assert_eq!(events.len(), 3);
    assert_eq!((events[0].fd, events[0].pid, events[0].event_len), (5, 100, 24));
    assert_eq!((events[1].fd, events[1].pid), (-1, 200));
    assert_eq!((events[2].fd, events[2].pid), (7, 300));
    assert_eq!(events[2].vers, 3);
    assert_eq!(events[2].metadata_len, 24);
    assert_eq!(events[2].mask, 0x10000);
}

#[test]
fn fanotify_reads_only_the_bytes_read() {
    let mut buf = metadata(24, 5, 100);
    buf.extend(metadata(24, 6, 101));
    assert_eq!(read_events(&buf, 30).len(), 1);
    assert_eq!(read_events(&buf, 0).len(), 0);
}

#[test]
fn fanotify_verdicts() {
    assert_eq!(file_response(4, true).response, FAN_DENY);
    assert_eq!(file_response(4, false).response, FAN_ALLOW);
    assert_eq!(file_response(4, false).fd, 4);
    assert_eq!(scan_text(b"secret"), Some("secret"));
    assert_eq!(scan_text(b""), None);
    assert_eq!(scan_text(&[0xc3, 0x28]), None);
    assert_eq!(proc_fd_path(12), "/proc/self/fd/12");
}

#[test]
fn ascii_keyword_detections_lower_to_their_key() {
    let mut engine = DlpEngine::new(100);
    engine.add_rule(Rule::Dictionary(vec![("NdA".to_string(), 5)], LeakType::ConfidentialKeyword));
    let r = engine.analyze_checked("an nda, an NDA and an Nda.").unwrap();
    assert_eq!(r.detections.len(), 3);
    for d in &r.detections {
        assert_eq!(d.matched_text.to_ascii_lowercase(), "nda");
    }
    assert_eq!(r.total_score, 15);
}

//! The DNS services: the resolver's answer policy (local dynamic records,
//! then the cache, then forwarding), the dynamic-DNS update endpoint, and
//! the DNS telemetry collector's record building and batching.
use vstd::prelude::*;
use hickory_proto::serialize::binary::BinDecodable;
use crate::text::{strip_end_char, chars_of, string_of, push_str, push_decimal, dec_digits};
use crate::clock::{utc_now, rfc3339_text, rfc3339_of, representable, four_digit_year, parse_rfc3339, rfc3339_instant, before, is_before};

verus! {

/// A domain name without its trailing dots.
pub fn clean_domain(name: &str) -> (r: String)
    ensures
        r@ == strip_end_char(name@, '.'),
{
    let cs = chars_of(name);
    let mut b: usize = cs.len();
    proof {
        assert(cs@.take(b as int) =~= cs@);
    }
    while b > 0 && cs[b - 1] == '.'
        invariant
            cs@ == name@,
            b <= cs@.len(),
            strip_end_char(name@, '.') == strip_end_char(cs@.take(b as int), '.'),
        decreases b,
    {
        proof {
            assert(cs@.take(b as int).drop_last() =~= cs@.take(b - 1));
        }
        b = b - 1;
    }
    proof {
        assert(cs@.take(b as int) =~= cs@.subrange(0, b as int));
    }
    string_of(cs.as_slice(), 0, b)
}

/// Time to live of an answer from a local dynamic record, in seconds.
pub const LOCAL_TTL: u32 = 60;
/// Time to live of an answer from the cache, in seconds.
pub const CACHE_TTL: u32 = 300;

/// An IPv4 answer: the address, its time to live and whether the server
/// answers with authority.
#[derive(Clone, Copy, Debug)]
pub struct Answer {
    pub ip: [u8; 4],
    pub ttl: u32,
    pub authoritative: bool,
}

/// How a query is answered: an `A` query with a local dynamic record gets
/// it with authority; otherwise a fresh cache entry; everything else is
/// forwarded upstream (`None`).
pub fn answer_plan(is_a_query: bool, local: Option<[u8; 4]>, cached: Option<[u8; 4]>) -> (r: Option<Answer>)
    ensures
        !is_a_query ==> r is None,
        is_a_query && local is Some ==> r == Some(Answer { ip: local->0, ttl: LOCAL_TTL, authoritative: true }),
        is_a_query && local is None && cached is Some ==> r == Some(
            Answer { ip: cached->0, ttl: CACHE_TTL, authoritative: false },
        ),
        is_a_query && local is None && cached is None ==> r is None,
{
    if !is_a_query {
        return None;
    }
    if let Some(ip) = local {
        return Some(Answer { ip, ttl: LOCAL_TTL, authoritative: true });
    }
    if let Some(ip) = cached {
        return Some(Answer { ip, ttl: CACHE_TTL, authoritative: false });
    }
    None
}

/// A cache entry's address when its expiry (RFC 3339 text) is readable and
/// still ahead of `now`.
pub open spec fn fresh_cache_entry(ip: Option<[u8; 4]>, expires_at: Seq<char>, now: (i64, u32)) -> Option<[u8; 4]> {
    match rfc3339_instant(expires_at) {
        Some(t) => if before(now, t) {
            ip
        } else {
            None
        },
        None => None,
    }
}

/// The address of a cache entry at time `now`: the entry's address (as
/// read from its text) while the entry has not expired.
pub fn cached_a_record(ip: Option<[u8; 4]>, expires_at: &str, now: (i64, u32)) -> (r: Option<[u8; 4]>)
    ensures
        r == fresh_cache_entry(ip, expires_at@, now),
{
    match parse_rfc3339(expires_at) {
        Some(t) => if is_before(now, t) {
            ip
        } else {
            None
        },
        None => None,
    }
}

/// The address of a cache entry now: some address only when the entry's
/// expiry is readable, and then the entry's own.
pub fn lookup_cache_a_record(ip: Option<[u8; 4]>, expires_at: &str) -> (r: Option<[u8; 4]>)
    ensures
        r is Some ==> (r == ip && rfc3339_instant(expires_at@) is Some),
{
    let now = utc_now();
    cached_a_record(ip, expires_at, now)
}

/// Dotted-decimal text of an IPv4 address.
pub open spec fn ipv4_text(ip: Seq<u8>) -> Seq<char> {
    dec_digits(ip[0] as nat) + seq!['.'] + dec_digits(ip[1] as nat) + seq!['.'] + dec_digits(ip[2] as nat)
        + seq!['.'] + dec_digits(ip[3] as nat)
}

/// Dotted-decimal text of an IPv4 address.
pub fn ipv4_to_text(ip: [u8; 4]) -> (r: String)
    ensures
        r@ == ipv4_text(ip@),
{
    let mut s = String::new();
    push_decimal(&mut s, ip[0] as u64);
    push_str(&mut s, ".");
    push_decimal(&mut s, ip[1] as u64);
    push_str(&mut s, ".");
    push_decimal(&mut s, ip[2] as u64);
    push_str(&mut s, ".");
    push_decimal(&mut s, ip[3] as u64);
    proof {
        reveal_strlit(".");
        assert("."@ =~= seq!['.']);
    }
    s
}

/// A row of the cache table: domain, address text and expiry text.
pub struct CacheRow {
    pub domain: String,
    pub ip_address: String,
    pub expires_at: String,
}

/// The cache row for an upstream answer received at `now`: the domain
/// without trailing dots, the address, and an expiry `ttl` seconds later;
/// `None` where that expiry cannot be written.
pub fn cache_row_at(domain: &str, ip: [u8; 4], ttl: u32, now: (i64, u32)) -> (r: Option<CacheRow>)
    ensures
        r matches Some(row) ==> {
            &&& row.domain@ == strip_end_char(domain@, '.')
            &&& row.ip_address@ == ipv4_text(ip@)
            &&& row.expires_at@ == rfc3339_of((now.0 + ttl) as i64, now.1)
        },
        now.0 + ttl <= i64::MAX && representable((now.0 + ttl) as i64, now.1) ==> r is Some,
        now.0 + ttl <= i64::MAX && four_digit_year((now.0 + ttl) as i64, now.1) ==> (r matches Some(row) && forall|
            later: (i64, u32),
        |
            #[trigger] fresh_cache_entry(Some(ip), row.expires_at@, later) == if before(
                later,
                ((now.0 + ttl) as i64, now.1),
            ) {
                Some(ip)
            } else {
                None
            }),
{
    let secs = match now.0.checked_add(ttl as i64) {
        Some(s) => s,
        None => return None,
    };
    let expires = match rfc3339_text(secs, now.1) {
        Some(t) => t,
        None => return None,
    };
    Some(CacheRow { domain: clean_domain(domain), ip_address: ipv4_to_text(ip), expires_at: expires })
}

/// The cache row for an upstream answer received now.
pub fn save_to_cache(domain: &str, ip: [u8; 4], ttl: u32) -> (r: Option<CacheRow>)
    ensures
        r matches Some(row) ==> {
            &&& row.domain@ == strip_end_char(domain@, '.')
            &&& row.ip_address@ == ipv4_text(ip@)
        },
{
    let now = utc_now();
    cache_row_at(domain, ip, ttl, now)
}

/// The first record of an upstream answer that is an `A` record.
pub open spec fn first_a(records: Seq<Option<([u8; 4], u32)>>) -> Option<([u8; 4], u32)>
    decreases records.len(),
{
    if records.len() == 0 {
        None
    } else {
        match records[0] {
            Some(a) => Some(a),
            None => first_a(records.drop_first()),
        }
    }
}

/// The `A` record (address and time to live) an upstream answer to an `A`
/// query leaves in the cache: its first one. Records are given in order,
/// `None` for those of other types.
pub fn record_to_cache(is_a_query: bool, records: &Vec<Option<([u8; 4], u32)>>) -> (r: Option<([u8; 4], u32)>)
    ensures
        r == if is_a_query { first_a(records@) } else { None },
{
    if !is_a_query {
        return None;
    }
    let mut i: usize = 0;
    proof {
        assert(records@.skip(0) =~= records@);
    }
    while i < records.len()
        invariant
            is_a_query,
            i <= records@.len(),
            first_a(records@) == first_a(records@.skip(i as int)),
        decreases records@.len() - i,
    {
        proof {
            assert(records@.skip(i as int).drop_first() =~= records@.skip(i + 1));
            assert(records@.skip(i as int)[0] == records@[i as int]);
        }
        let entry = records[i];
        if let Some(a) = entry {
            return Some(a);
        }
        i = i + 1;
    }
    None
}

/// The reply to an invalid address in an update request.
pub open spec fn invalid_ip_reply() -> Seq<char> {
    "Error: invalid IPv4 address format\n"@
}

/// The first step of a dynamic-DNS update.
pub enum DdnsStep {
    /// Answer at once with this status and body.
    Reply(u16, String),
    /// Store this domain (without trailing dots) and address.
    Store(String, String),
}

/// A dynamic-DNS update request (`domain`, `ip`, and whether `ip` reads as
/// an IPv4 address): refused with 400 for an invalid address, else stored.
pub fn ddns_update(domain: &str, ip: &str, ip_valid: bool) -> (r: DdnsStep)
    ensures
        !ip_valid ==> (r matches DdnsStep::Reply(status, body) && status == 400 && body@ == invalid_ip_reply()),
        ip_valid ==> (r matches DdnsStep::Store(d, a) && d@ == strip_end_char(domain@, '.') && a@ == ip@),
{
    if !ip_valid {
        let mut body = String::new();
        push_str(&mut body, "Error: invalid IPv4 address format\n");
        return DdnsStep::Reply(400, body);
    }
    let mut a = String::new();
    push_str(&mut a, ip);
    DdnsStep::Store(clean_domain(domain), a)
}

/// The reply to a stored update.
pub open spec fn updated_reply(domain: Seq<char>, ip: Seq<char>) -> Seq<char> {
    "successfully updated: "@ + domain + " points to "@ + ip + "\n"@
}

/// The reply to a database failure.
pub open spec fn db_error_reply() -> Seq<char> {
    "internal database error\n"@
}

/// The reply once the store was tried: 200 when it succeeded, 500 otherwise.
pub fn ddns_reply(domain: &str, ip: &str, stored: bool) -> (r: (u16, String))
    ensures
        stored ==> r.0 == 200 && r.1@ == updated_reply(domain@, ip@),
        !stored ==> r.0 == 500 && r.1@ == db_error_reply(),
{
    let mut body = String::new();
    if stored {
        push_str(&mut body, "successfully updated: ");
        push_str(&mut body, domain);
        push_str(&mut body, " points to ");
        push_str(&mut body, ip);
        push_str(&mut body, "\n");
        (200, body)
    } else {
        push_str(&mut body, "internal database error\n");
        (500, body)
    }
}

/// What the telemetry collector reads of a DNS message: its id, its first
/// question (name and type texts), whether it is a response, and the data
/// text of each answer record (`None` for a record without data).
#[derive(Clone, Debug)]
pub struct DnsMessage {
    pub id: u16,
    pub first_query: Option<(String, String)>,
    pub is_response: bool,
    pub answers: Vec<Option<String>>,
}

pub open spec fn opt_text(o: Option<String>) -> Option<Seq<char>> {
    match o {
        Some(s) => Some(s@),
        None => None,
    }
}

/// The plain contents of a message.
pub open spec fn message_view(m: DnsMessage) -> (u16, Option<(Seq<char>, Seq<char>)>, bool, Seq<Option<Seq<char>>>) {
    (
        m.id,
        match m.first_query {
            Some((n, t)) => Some((n@, t@)),
            None => None,
        },
        m.is_response,
        m.answers@.map_values(|a: Option<String>| opt_text(a)),
    )
}

/// The message a UDP payload decodes to (`hickory_proto` `Message::from_bytes`).
pub uninterp spec fn dns_message_of(payload: Seq<u8>) -> Option<(u16, Option<(Seq<char>, Seq<char>)>, bool, Seq<Option<Seq<char>>>)>;

/// Decodes a DNS message and reads what the collector needs of it.
#[verifier::external_body]
pub(crate) fn decode_dns_message(payload: &[u8]) -> (r: Option<DnsMessage>)
    ensures
        match r {
            Some(m) => dns_message_of(payload@) == Some(message_view(m)),
            None => dns_message_of(payload@) is None,
        },
{
    match hickory_proto::op::Message::from_bytes(payload) {
        Ok(m) => Some(DnsMessage {
            id: m.id(),
            first_query: m.queries().first().map(|q| (q.name().to_string(), format!("{:?}", q.query_type()))),
            is_response: match m.message_type() {
                hickory_proto::op::MessageType::Query => false,
                hickory_proto::op::MessageType::Response => true,
            },
            answers: m.answers().iter().map(|a| a.data().map(|d| format!("{}", d))).collect(),
        }),
        Err(_) => None,
    }
}

/// The payload of a frame that `etherparse` reads as a UDP datagram.
pub uninterp spec fn udp_payload_of(frame: Seq<u8>) -> Option<Seq<u8>>;

/// The UDP payload of an Ethernet frame (`SlicedPacket::from_ethernet`),
/// `None` for a frame that does not parse or carries no UDP.
#[verifier::external_body]
pub(crate) fn udp_payload(frame: &[u8]) -> (r: Option<Vec<u8>>)
    ensures
        match r {
            Some(p) => udp_payload_of(frame@) == Some(p@),
            None => udp_payload_of(frame@) is None,
        },
{
    match etherparse::SlicedPacket::from_ethernet(frame) {
        Ok(s) => match s.transport {
            Some(etherparse::TransportSlice::Udp(_)) => Some(s.payload.to_vec()),
            _ => None,
        },
        Err(_) => None,
    }
}

/// A telemetry row: when it was seen, the transaction id, `Query` or
/// `Response`, the question's type and name, and the answers' data.
#[derive(Clone, Debug)]
pub struct DnsRecord {
    pub timestamp_secs: i64,
    pub timestamp_nanos: u32,
    pub tx_id: u16,
    pub msg_type: String,
    pub query_type: String,
    pub domain: String,
    pub answers: Vec<String>,
}

/// The answers that carry data, in order.
pub open spec fn present(s: Seq<Option<Seq<char>>>) -> Seq<Seq<char>>
    decreases s.len(),
{
    if s.len() == 0 {
        Seq::empty()
    } else {
        match s.last() {
            Some(t) => present(s.drop_last()).push(t),
            None => present(s.drop_last()),
        }
    }
}

/// The contents of the row a message gives: transaction id, `Query` or
/// `Response`, question type and name, and the answers' data (a response's
/// answers that carry data; none for a query); nothing for a message
/// without a question.
pub open spec fn record_fields(m: (u16, Option<(Seq<char>, Seq<char>)>, bool, Seq<Option<Seq<char>>>)) -> Option<
    (u16, Seq<char>, Seq<char>, Seq<char>, Seq<Seq<char>>),
> {
    match m.1 {
        None => None,
        Some((name, qtype)) => Some(
            (
                m.0,
                if m.2 { "Response"@ } else { "Query"@ },
                qtype,
                name,
                if m.2 { present(m.3) } else { Seq::empty() },
            ),
        ),
    }
}

/// The contents of a row, without its time.
pub open spec fn record_view(r: DnsRecord) -> (u16, Seq<char>, Seq<char>, Seq<char>, Seq<Seq<char>>) {
    (r.tx_id, r.msg_type@, r.query_type@, r.domain@, r.answers@.map_values(|a: String| a@))
}

/// The contents of the row a captured frame gives: a UDP datagram with a
/// non-empty payload that decodes as a DNS message with a question.
pub open spec fn frame_record(frame: Seq<u8>) -> Option<(u16, Seq<char>, Seq<char>, Seq<char>, Seq<Seq<char>>)> {
    match udp_payload_of(frame) {
        Some(p) => if p.len() > 0 {
            match dns_message_of(p) {
                Some(m) => record_fields(m),
                None => None,
            }
        } else {
            None
        },
        None => None,
    }
}

/// The row of a message seen at `now`: none for a message without a
/// question; a response lists its answers, a query none.
pub fn parse_dns_to_record(msg: &DnsMessage, now: (i64, u32)) -> (r: Option<DnsRecord>)
    ensures
        match record_fields(message_view(*msg)) {
            None => r is None,
            Some(f) => r matches Some(rec) && record_view(rec) == f && rec.timestamp_secs == now.0
                && rec.timestamp_nanos == now.1,
        },
{
    let (name, qtype) = match &msg.first_query {
        Some(q) => q,
        None => return None,
    };
    let mut msg_type = String::new();
    let mut answers: Vec<String> = Vec::new();
    if msg.is_response {
        push_str(&mut msg_type, "Response");
        let ghost av = msg.answers@.map_values(|a: Option<String>| opt_text(a));
        let mut i: usize = 0;
        proof {
            assert(av.take(0) =~= Seq::<Option<Seq<char>>>::empty());
            assert(answers@.map_values(|a: String| a@) =~= Seq::<Seq<char>>::empty());
        }
        while i < msg.answers.len()
            invariant
                av == msg.answers@.map_values(|a: Option<String>| opt_text(a)),
                i <= msg.answers@.len(),
                answers@.map_values(|a: String| a@) == present(av.take(i as int)),
            decreases msg.answers@.len() - i,
        {
            proof {
                assert(av.take(i + 1).drop_last() =~= av.take(i as int));
                assert(av.take(i + 1).last() == opt_text(msg.answers@[i as int]));
            }
            match &msg.answers[i] {
                Some(t) => {
                    let ghost prev = answers@.map_values(|a: String| a@);
                    answers.push(t.clone());
                    proof {
                        assert(answers@.map_values(|a: String| a@) =~= prev.push(t@));
                    }
                },
                None => {},
            }
            i = i + 1;
        }
        proof {
            assert(av.take(i as int) =~= av);
        }
    } else {
        push_str(&mut msg_type, "Query");
        proof {
            assert(answers@.map_values(|a: String| a@) =~= Seq::<Seq<char>>::empty());
        }
    }
    Some(DnsRecord {
        timestamp_secs: now.0,
        timestamp_nanos: now.1,
        tx_id: msg.id,
        msg_type,
        query_type: qtype.clone(),
        domain: name.clone(),
        answers,
    })
}

/// The telemetry row of a captured frame: a UDP datagram with a non-empty
/// payload that decodes as a DNS message with a question, stamped now.
pub fn record_from_frame(frame: &[u8]) -> (r: Option<DnsRecord>)
    ensures
        r is None <==> frame_record(frame@) is None,
        r matches Some(rec) ==> frame_record(frame@) == Some(record_view(rec)),
{
    let payload = match udp_payload(frame) {
        Some(p) => p,
        None => return None,
    };
    if payload.len() == 0 {
        return None;
    }
    let msg = match decode_dns_message(payload.as_slice()) {
        Some(m) => m,
        None => return None,
    };
    let now = utc_now();
    parse_dns_to_record(&msg, now)
}

/// Rows collected before a write is forced.
pub const TELEMETRY_BATCH: usize = 1000;
/// Time between timed writes, in milliseconds.
pub const TELEMETRY_FLUSH_MS: u64 = 3000;

/// Steps of writing the collected rows.
#[derive(Clone, Copy, PartialEq, Eq, Structural, Debug)]
pub enum FlushStep {
    /// Open an insert session.
    Begin,
    /// Write the row with this index.
    Row(usize),
    /// Commit the session.
    Commit,
    /// Done; the rows are dropped.
    Clear,
    /// Done; a row could not be written and the rows are kept.
    Keep,
}

/// The step after `step` succeeded (`ok`) or failed. A session that cannot
/// be opened, and any commit, drop the rows; a row that cannot be written
/// keeps them for the next write.
pub fn next_flush_step(len: usize, step: FlushStep, ok: bool) -> (r: FlushStep)
    requires
        step matches FlushStep::Row(i) ==> i < len,
    ensures
        r matches FlushStep::Row(j) ==> j < len,
        match step {
            FlushStep::Begin => r == if !ok {
                FlushStep::Clear
            } else if len > 0 {
                FlushStep::Row(0)
            } else {
                FlushStep::Commit
            },
            FlushStep::Row(i) => r == if !ok {
                FlushStep::Keep
            } else if i + 1 < len {
                FlushStep::Row((i + 1) as usize)
            } else {
                FlushStep::Commit
            },
            FlushStep::Commit => r == FlushStep::Clear,
            FlushStep::Clear => r == FlushStep::Clear,
            FlushStep::Keep => r == FlushStep::Keep,
        },
{
    match step {
        FlushStep::Begin => if !ok {
            FlushStep::Clear
        } else if len > 0 {
            FlushStep::Row(0)
        } else {
            FlushStep::Commit
        },
        FlushStep::Row(i) => if !ok {
            FlushStep::Keep
        } else if i + 1 < len {
            FlushStep::Row(i + 1)
        } else {
            FlushStep::Commit
        },
        FlushStep::Commit => FlushStep::Clear,
        FlushStep::Clear => FlushStep::Clear,
        FlushStep::Keep => FlushStep::Keep,
    }
}

/// The collector's pending rows.
pub struct TelemetryBatch<T> {
    rows: Vec<T>,
}

impl<T> TelemetryBatch<T> {
    /// The rows waiting to be written, oldest first.
    pub closed spec fn rows(&self) -> Seq<T> {
        self.rows@
    }

    /// No rows.
    pub fn new() -> (r: TelemetryBatch<T>)
        ensures
            r.rows() == Seq::<T>::empty(),
    {
        TelemetryBatch { rows: Vec::new() }
    }

    /// The rows, for writing.
    pub fn as_slice(&self) -> (r: &[T])
        ensures
            r@ == self.rows(),
    {
        self.rows.as_slice()
    }

    /// A new row; whether the rows must be written now (the batch is full).
    pub fn on_record(&mut self, row: T) -> (r: bool)
        ensures
            final(self).rows() == old(self).rows().push(row),
            r == (old(self).rows().len() + 1 >= TELEMETRY_BATCH),
    {
        self.rows.push(row);
        self.rows.len() >= TELEMETRY_BATCH
    }

    /// The timer fired: whether there are rows to write.
    pub fn on_timer(&self) -> (r: bool)
        ensures
            r == (self.rows().len() > 0),
    {
        self.rows.len() > 0
    }

    /// A write ended at `end` (`Clear` or `Keep`): the rows are dropped
    /// or kept accordingly.
    pub fn finish_flush(&mut self, end: FlushStep)
        ensures
            end == FlushStep::Keep ==> final(self).rows() == old(self).rows(),
            end != FlushStep::Keep ==> final(self).rows() == Seq::<T>::empty(),
    {
        if end != FlushStep::Keep {
            self.rows.clear();
        }
    }
}

} // verus!

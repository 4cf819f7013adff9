//! Per-client admission rules of the anti-DDoS proxy: a cap on concurrent
//! connections from one client IP address, a cap on requests per one-second
//! window, and the periodic sweep of idle records. The records live in a
//! `DashMap`, keyed by the client's IP address whatever its source port.
use vstd::prelude::*;
use dashmap::DashMap;

verus! {

#[verifier::external_type_specification]
#[verifier::external_body]
#[verifier::reject_recursive_types(K)]
#[verifier::reject_recursive_types(V)]
#[verifier::reject_recursive_types(S)]
pub struct ExDashMap<K, V, S>(DashMap<K, V, S>);

/// A client's IP address: address family (4 or 6) and the address bits (an
/// IPv4 address in the low 32 bits). The source port is not part of it, so
/// all connections from one IP share one record.
pub type ClientKey = (u8, u128);

/// The map from client IP address to record.
pub type Registry = DashMap<ClientKey, IpStats>;

/// Maximum simultaneous connections from one client address.
pub const MAX_CONN_PER_IP: usize = 20;
/// Maximum requests from one client address within one burst window.
pub const MAX_RPS_PER_IP: usize = 50;
/// Length of the request-counting window, in nanoseconds (one second).
pub const BURST_WINDOW_NS: u64 = 1_000_000_000;
/// Idle records older than this many nanoseconds (one minute) are swept.
pub const IDLE_RECORD_NS: u64 = 60_000_000_000;

/// What the proxy keeps per client address; times are nanoseconds on the
/// proxy's monotonic clock.
#[derive(Clone, Copy, Debug, PartialEq, Eq)]
pub struct IpStats {
    pub connection_count: usize,
    pub rps_count: usize,
    pub last_request_time: u64,
}

/// Why a client is turned away.
#[derive(Clone, Copy, Debug, PartialEq, Eq)]
pub enum ShieldError {
    /// The address already holds the maximum number of connections.
    TooManyConnections,
    /// The address sent more requests than allowed in the current window.
    RateLimited,
}

impl ShieldError {
    /// The reason logged when the client is dropped.
    pub fn message(&self) -> (r: &'static str)
        ensures
            r@ == match self {
                ShieldError::TooManyConnections => "Too many connections from this IP (L4 Flood Mitigation)"@,
                ShieldError::RateLimited => "RPS limit exceeded (L7 HTTP Flood Protection)"@,
            },
    {
        match self {
            ShieldError::TooManyConnections => "Too many connections from this IP (L4 Flood Mitigation)",
            ShieldError::RateLimited => "RPS limit exceeded (L7 HTTP Flood Protection)",
        }
    }
}

/// The records a registry map holds.
pub uninterp spec fn registry_contents(m: Registry) -> Map<ClientKey, IpStats>;

/// `DashMap::new`: the new map holds no record.
#[verifier::external_body]
fn registry_new() -> (fresh: Registry)
    ensures
        registry_contents(fresh).dom() == Set::<ClientKey>::empty(),
{
    DashMap::new()
}

/// `DashMap::get`: a copy of the record stored under `key`, if any.
#[verifier::external_body]
fn registry_get(m: &Registry, key: &ClientKey) -> (r: Option<IpStats>)
    ensures
        r == (if registry_contents(*m).dom().contains(*key) {
            Some(registry_contents(*m)[*key])
        } else {
            None
        }),
{
    m.get(key).map(|entry| *entry)
}

/// `DashMap::insert`: stores `value` under `key`, replacing any record there.
#[verifier::external_body]
fn registry_insert(m: &mut Registry, key: ClientKey, value: IpStats)
    ensures
        registry_contents(*final(m)) == registry_contents(*old(m)).insert(key, value),
{
    m.insert(key, value);
}

/// Whether a record survives the sweep at time `now`: it was used within
/// the last minute, or it still holds connections.
pub open spec fn spec_keep_record(stats: IpStats, now: u64) -> bool {
    elapsed(stats.last_request_time, now) < IDLE_RECORD_NS || stats.connection_count > 0
}

/// Time from `earlier` to `now`, zero when `earlier` is later.
pub open spec fn elapsed(earlier: u64, now: u64) -> u64 {
    if now >= earlier { (now - earlier) as u64 } else { 0 }
}

/// Whether a record survives the sweep at time `now`.
pub fn keep_record(stats: &IpStats, now: u64) -> (r: bool)
    ensures
        r == spec_keep_record(*stats, now),
{
    let age = if now >= stats.last_request_time { now - stats.last_request_time } else { 0 };
    age < IDLE_RECORD_NS || stats.connection_count > 0
}

/// `DashMap::retain` with `keep_record` as the predicate: the records for
/// which it returns `true` stay, the others are removed.
#[verifier::external_body]
fn registry_retain(m: &mut Registry, now: u64)
    ensures
        registry_contents(*final(m)) == registry_contents(*old(m)).restrict(
            Set::new(|k: ClientKey| registry_contents(*old(m)).dom().contains(k)
                && spec_keep_record(registry_contents(*old(m))[k], now)),
        ),
{
    m.retain(|_, stats| keep_record(stats, now));
}

/// The registry of per-address records.
pub struct Shield {
    registry: Registry,
}

/// The record after admitting one more connection, when the cap allows it.
pub open spec fn admit_connection(prior: Option<IpStats>, now: u64) -> (IpStats, bool) {
    let s = match prior {
        Some(s) => s,
        None => IpStats { connection_count: 0, rps_count: 0, last_request_time: now },
    };
    if s.connection_count >= MAX_CONN_PER_IP {
        (s, false)
    } else {
        (IpStats { connection_count: (s.connection_count + 1) as usize, ..s }, true)
    }
}

/// The record after one of its connections closes.
pub open spec fn release_connection(s: IpStats) -> IpStats {
    IpStats { connection_count: (s.connection_count - 1) as usize, ..s }
}

/// The record after one request at time `now`, and whether it is within the limit.
pub open spec fn count_request(prior: Option<IpStats>, now: u64) -> (IpStats, bool) {
    let s = match prior {
        Some(s) => s,
        None => IpStats { connection_count: 1, rps_count: 0, last_request_time: now },
    };
    if elapsed(s.last_request_time, now) > BURST_WINDOW_NS {
        (IpStats { rps_count: 1, last_request_time: now, ..s }, true)
    } else {
        let n = (s.rps_count + 1) as usize;
        (IpStats { rps_count: n, ..s }, n <= MAX_RPS_PER_IP)
    }
}

impl Shield {
    /// The records, by client address.
    pub closed spec fn records(&self) -> Map<ClientKey, IpStats> {
        registry_contents(self.registry)
    }

    /// A shield with no records.
    pub fn new() -> (r: Shield)
        ensures
            r.records() == Map::<ClientKey, IpStats>::empty(),
    {
        Shield { registry: registry_new() }
    }

    /// The record of `key`, if any.
    pub fn stats(&self, key: &ClientKey) -> (r: Option<IpStats>)
        ensures
            r == (if self.records().dom().contains(*key) { Some(self.records()[*key]) } else { None }),
    {
        registry_get(&self.registry, key)
    }

    /// Admits a new connection from `key` unless the address already holds
    /// `MAX_CONN_PER_IP` connections. A first connection creates the record.
    pub fn open_connection(&mut self, key: ClientKey, now: u64) -> (r: Result<(), ShieldError>)
        ensures
            ({
                let prior = if old(self).records().dom().contains(key) { Some(old(self).records()[key]) } else { None };
                let (s, ok) = admit_connection(prior, now);
                &&& final(self).records() == old(self).records().insert(key, s)
                &&& ok ==> r is Ok
                &&& !ok ==> r == Err::<(), ShieldError>(ShieldError::TooManyConnections)
            }),
    {
        let prior = registry_get(&self.registry, &key);
        let s = match prior {
            Some(s) => s,
            None => IpStats { connection_count: 0, rps_count: 0, last_request_time: now },
        };
        if s.connection_count >= MAX_CONN_PER_IP {
            registry_insert(&mut self.registry, key, s);
            return Err(ShieldError::TooManyConnections);
        }
        let next = IpStats { connection_count: s.connection_count + 1, ..s };
        registry_insert(&mut self.registry, key, next);
        Ok(())
    }

    /// Releases one connection of `key` (never below zero); no record is created.
    pub fn close_connection(&mut self, key: ClientKey)
        ensures
            old(self).records().dom().contains(key) && old(self).records()[key].connection_count > 0
                ==> final(self).records() == old(self).records().insert(key, release_connection(old(self).records()[key])),
            !(old(self).records().dom().contains(key) && old(self).records()[key].connection_count > 0)
                ==> final(self).records() == old(self).records(),
    {
        if let Some(s) = registry_get(&self.registry, &key) {
            if s.connection_count > 0 {
                let next = IpStats { connection_count: s.connection_count - 1, ..s };
                registry_insert(&mut self.registry, key, next);
            }
        }
    }

    /// Counts a request from `key` at time `now`: a request more than one
    /// window after the window's start opens a new window; otherwise the
    /// count grows and the request is refused once it exceeds `MAX_RPS_PER_IP`.
    pub fn register_request(&mut self, key: ClientKey, now: u64) -> (r: Result<(), ShieldError>)
        requires
            old(self).records().dom().contains(key) ==> old(self).records()[key].rps_count < usize::MAX,
        ensures
            ({
                let prior = if old(self).records().dom().contains(key) { Some(old(self).records()[key]) } else { None };
                let (s, ok) = count_request(prior, now);
                &&& final(self).records() == old(self).records().insert(key, s)
                &&& ok ==> r is Ok
                &&& !ok ==> r == Err::<(), ShieldError>(ShieldError::RateLimited)
            }),
    {
        let prior = registry_get(&self.registry, &key);
        let s = match prior {
            Some(s) => s,
            None => IpStats { connection_count: 1, rps_count: 0, last_request_time: now },
        };
        let age = if now >= s.last_request_time { now - s.last_request_time } else { 0 };
        if age > BURST_WINDOW_NS {
            let next = IpStats { rps_count: 1, last_request_time: now, ..s };
            registry_insert(&mut self.registry, key, next);
            Ok(())
        } else {
            let next = IpStats { rps_count: s.rps_count + 1, ..s };
            registry_insert(&mut self.registry, key, next);
            if next.rps_count > MAX_RPS_PER_IP {
                Err(ShieldError::RateLimited)
            } else {
                Ok(())
            }
        }
    }

    /// Removes the records idle for a minute or more that hold no connection.
    pub fn sweep(&mut self, now: u64)
        ensures
            forall|k: ClientKey|
                #![trigger final(self).records().dom().contains(k)]
                final(self).records().dom().contains(k) <==> (old(self).records().dom().contains(k)
                    && spec_keep_record(old(self).records()[k], now)),
            forall|k: ClientKey|
                #![trigger final(self).records()[k]]
                final(self).records().dom().contains(k) ==> final(self).records()[k] == old(self).records()[k],
    {
        registry_retain(&mut self.registry, now);
    }
}

/// No address is admitted beyond `MAX_CONN_PER_IP` connections: a record
/// within the cap stays within it, and a connection is admitted exactly
/// when the record is below the cap.
pub proof fn law_connection_cap(prior: Option<IpStats>, now: u64)
    requires
        prior matches Some(s) ==> s.connection_count <= MAX_CONN_PER_IP,
    ensures
        admit_connection(prior, now).0.connection_count <= MAX_CONN_PER_IP,
        admit_connection(prior, now).1 <==> match prior {
            Some(s) => s.connection_count < MAX_CONN_PER_IP,
            None => true,
        },
{
}

/// Closing a connection undoes admitting it: an existing record below the
/// cap is back as it was.
pub proof fn law_close_undoes_open(s: IpStats, now: u64)
    requires
        s.connection_count < MAX_CONN_PER_IP,
    ensures
        admit_connection(Some(s), now).1,
        release_connection(admit_connection(Some(s), now).0) == s,
{
}

/// A request is accepted only while the window's count is within
/// `MAX_RPS_PER_IP`; a request after the window has passed opens a new
/// window and is accepted.
pub proof fn law_rate_limit(prior: Option<IpStats>, now: u64)
    requires
        prior matches Some(s) ==> s.rps_count < usize::MAX,
    ensures
        count_request(prior, now).1 ==> count_request(prior, now).0.rps_count <= MAX_RPS_PER_IP,
        (prior matches Some(s) && elapsed(s.last_request_time, now) > BURST_WINDOW_NS) ==> count_request(prior, now).1,
        (prior matches Some(s) && elapsed(s.last_request_time, now) <= BURST_WINDOW_NS && s.rps_count >= MAX_RPS_PER_IP)
            ==> !count_request(prior, now).1,
{
}

/// The record kept for `key`, if any.
pub open spec fn record_of(m: Map<ClientKey, IpStats>, key: ClientKey) -> Option<IpStats> {
    if m.dom().contains(key) { Some(m[key]) } else { None }
}

/// Whether no IP's record holds more than `MAX_CONN_PER_IP` connections.
pub open spec fn within_connection_cap(m: Map<ClientKey, IpStats>) -> bool {
    forall|k: ClientKey| m.dom().contains(k) ==> #[trigger] m[k].connection_count <= MAX_CONN_PER_IP
}

/// No IP holds more than `MAX_CONN_PER_IP` connections, whatever its source
/// ports: when every record is within the cap, it stays so after a
/// connection is admitted or refused (`open_connection`) and after one
/// closes (`close_connection`).
pub proof fn law_per_ip_connection_cap(m: Map<ClientKey, IpStats>, key: ClientKey, now: u64)
    requires
        within_connection_cap(m),
    ensures
        within_connection_cap(m.insert(key, admit_connection(record_of(m, key), now).0)),
        m.dom().contains(key) && m[key].connection_count > 0 ==> within_connection_cap(
            m.insert(key, release_connection(m[key])),
        ),
{
}

/// How many of the requests at `times`, made one after another from an IP
/// whose record is `s`, are accepted.
pub open spec fn requests_accepted(s: IpStats, times: Seq<u64>) -> nat
    decreases times.len(),
{
    if times.len() == 0 {
        0
    } else {
        let (next, ok) = count_request(Some(s), times[0]);
        (if ok { 1nat } else { 0nat }) + requests_accepted(next, times.drop_first())
    }
}

/// An IP gets at most `MAX_RPS_PER_IP` requests accepted in one window,
/// whatever its source ports: for requests that all come within one window
/// of the window's start, those accepted, added to those the window already
/// counted (up to the limit), never exceed `MAX_RPS_PER_IP`.
pub proof fn law_per_ip_request_cap(s: IpStats, times: Seq<u64>)
    requires
        s.rps_count + times.len() < usize::MAX,
        forall|i: int| 0 <= i < times.len() ==> elapsed(s.last_request_time, #[trigger] times[i]) <= BURST_WINDOW_NS,
    ensures
        requests_accepted(s, times) + (if s.rps_count <= MAX_RPS_PER_IP { s.rps_count as nat } else { MAX_RPS_PER_IP as nat })
            <= MAX_RPS_PER_IP,
    decreases times.len(),
{
    if times.len() > 0 {
        let (next, ok) = count_request(Some(s), times[0]);
        let rest = times.drop_first();
        assert forall|i: int| 0 <= i < rest.len() implies elapsed(next.last_request_time, #[trigger] rest[i])
            <= BURST_WINDOW_NS by {
            assert(rest[i] == times[i + 1]);
        }
        law_per_ip_request_cap(next, rest);
    }
}

/// A value paired with a function to call on it when the holder is done.
pub struct Guard<T, F: FnOnce(T)> {
    data: T,
    drop_fn: Option<F>,
}

/// Wraps `data` so that `drop_fn` runs on it when the guard is released.
pub fn guard<T, F: FnOnce(T)>(data: T, drop_fn: F) -> (r: Guard<T, F>)
    ensures
        r.data() == data,
        r.pending() == Some(drop_fn),
{
    Guard { data, drop_fn: Some(drop_fn) }
}

impl<T, F: FnOnce(T)> Guard<T, F> {
    /// The guarded value.
    pub closed spec fn data(&self) -> T {
        self.data
    }

    /// The function still to run, if it has not run yet.
    pub closed spec fn pending(&self) -> Option<F> {
        self.drop_fn
    }

    /// Runs the function on the value, if it has not run yet.
    pub fn release(self)
        requires
            self.pending() matches Some(f) ==> f.requires((self.data(),)),
        ensures
            self.pending() matches Some(f) ==> f.ensures((self.data(),), ()),
    {
        let Guard { data, drop_fn } = self;
        if let Some(f) = drop_fn {
            f(data);
        }
    }
}

} // verus!

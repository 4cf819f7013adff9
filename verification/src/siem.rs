//! The SIEM log processor: batching of incoming events by size and time,
//! the steps of writing a batch to the database with a local write-ahead
//! log as fallback, and the traffic generator that feeds it.
use vstd::prelude::*;
use crate::text::{dec_digits, push_decimal, push_str};
use crate::clock::utc_now;

verus! {

/// A SIEM event: id, time (seconds and nanoseconds since the Unix epoch,
/// UTC), and its text fields.
#[derive(Clone, Debug)]
pub struct SiemEvent {
    pub event_id: u128,
    pub timestamp_secs: i64,
    pub timestamp_nanos: u32,
    pub event_type: String,
    pub source_ip: String,
    pub destination_ip: String,
    pub severity: String,
    pub message: String,
}

/// How batches are formed and where failed batches go.
#[derive(Clone, Debug)]
pub struct Config {
    /// A batch is written as soon as it holds this many events.
    pub max_batch_size: usize,
    /// A non-empty batch is written when this time passes without one.
    pub batch_timeout_ms: u64,
    /// The local file failed batches are appended to.
    pub wal_path: String,
}

/// What the batcher asks of its driver after an input: a batch to write
/// (if any) and whether to restart the batch timer.
pub struct BatchAction<T> {
    pub batch: Option<Vec<T>>,
    pub restart_timer: bool,
}

/// The batching actor's state: the events received and not yet handed out.
pub struct BatchManager<T> {
    max_batch_size: usize,
    buffer: Vec<T>,
}

impl<T> BatchManager<T> {
    /// The events waiting for the next batch, oldest first.
    pub closed spec fn pending(&self) -> Seq<T> {
        self.buffer@
    }

    /// The batch size.
    pub closed spec fn limit(&self) -> nat {
        self.max_batch_size as nat
    }

    /// A batcher with nothing pending.
    pub fn new(config: &Config) -> (r: BatchManager<T>)
        ensures
            r.pending() == Seq::<T>::empty(),
            r.limit() == config.max_batch_size,
    {
        BatchManager { max_batch_size: config.max_batch_size, buffer: Vec::with_capacity(config.max_batch_size) }
    }

    fn take_buffer(&mut self) -> (r: Vec<T>)
        ensures
            r@ == old(self).pending(),
            final(self).pending() == Seq::<T>::empty(),
            final(self).limit() == old(self).limit(),
    {
        let mut fresh: Vec<T> = Vec::with_capacity(self.max_batch_size);
        std::mem::swap(&mut fresh, &mut self.buffer);
        fresh
    }

    /// A new event: it joins the pending events; when they reach the batch
    /// size they are handed out as a batch and the timer restarts.
    pub fn on_event(&mut self, event: T) -> (r: BatchAction<T>)
        ensures
            final(self).limit() == old(self).limit(),
            old(self).pending().len() + 1 >= old(self).limit() ==> {
                &&& r.batch matches Some(b) && b@ == old(self).pending().push(event)
                &&& final(self).pending() == Seq::<T>::empty()
                &&& r.restart_timer
            },
            old(self).pending().len() + 1 < old(self).limit() ==> {
                &&& r.batch is None
                &&& final(self).pending() == old(self).pending().push(event)
                &&& !r.restart_timer
            },
    {
        self.buffer.push(event);
        if self.buffer.len() >= self.max_batch_size {
            let batch = self.take_buffer();
            BatchAction { batch: Some(batch), restart_timer: true }
        } else {
            BatchAction { batch: None, restart_timer: false }
        }
    }

    /// The timer fired: pending events, if any, are handed out as a batch;
    /// the timer restarts in any case.
    pub fn on_timeout(&mut self) -> (r: BatchAction<T>)
        ensures
            final(self).limit() == old(self).limit(),
            final(self).pending() == Seq::<T>::empty(),
            r.restart_timer,
            old(self).pending().len() > 0 ==> (r.batch matches Some(b) && b@ == old(self).pending()),
            old(self).pending().len() == 0 ==> r.batch is None,
    {
        if self.buffer.len() > 0 {
            let batch = self.take_buffer();
            BatchAction { batch: Some(batch), restart_timer: true }
        } else {
            BatchAction { batch: None, restart_timer: true }
        }
    }

    /// The input closed: the last pending events, if any, as a final batch.
    pub fn on_close(self) -> (r: Option<Vec<T>>)
        ensures
            self.pending().len() > 0 ==> (r matches Some(b) && b@ == self.pending()),
            self.pending().len() == 0 ==> r is None,
    {
        if self.buffer.len() > 0 {
            Some(self.buffer)
        } else {
            None
        }
    }
}

/// The batches handed out and the events left pending after a run of
/// events fed one by one to a batcher of size `limit`.
pub open spec fn feed<T>(limit: nat, pending: Seq<T>, events: Seq<T>) -> (Seq<Seq<T>>, Seq<T>)
    decreases events.len(),
{
    if events.len() == 0 {
        (Seq::empty(), pending)
    } else {
        let (batches, rest) = feed(limit, pending, events.drop_last());
        let next = rest.push(events.last());
        if next.len() >= limit {
            (batches.push(next), Seq::empty())
        } else {
            (batches, next)
        }
    }
}

/// No event is lost or reordered by batching: the batches handed out,
/// followed by what stays pending, are the pending events followed by the
/// new ones. Every batch is exactly `limit` events long and fewer than
/// `limit` stay pending, when fewer than `limit` were pending at the start.
pub proof fn law_batching_keeps_every_event<T>(limit: nat, pending: Seq<T>, events: Seq<T>)
    requires
        pending.len() < limit,
    ensures
        feed(limit, pending, events).0.flatten() + feed(limit, pending, events).1 == pending + events,
        forall|i: int| 0 <= i < feed(limit, pending, events).0.len() ==> #[trigger] feed(limit, pending, events).0[i].len() == limit,
        feed(limit, pending, events).1.len() < limit,
    decreases events.len(),
{
    broadcast use Seq::lemma_flatten_push;
    if events.len() > 0 {
        let d = events.drop_last();
        law_batching_keeps_every_event(limit, pending, d);
        let (batches, rest) = feed(limit, pending, d);
        let next = rest.push(events.last());
        assert(pending + events =~= (pending + d).push(events.last()));
        if next.len() >= limit {
            assert(batches.push(next).flatten() =~= batches.flatten() + next);
            assert(batches.push(next).flatten() + Seq::<T>::empty() =~= (batches.flatten() + rest).push(events.last()));
            assert forall|i: int| 0 <= i < batches.push(next).len() implies #[trigger] batches.push(next)[i].len() == limit by {
                if i < batches.len() {
                    assert(batches.push(next)[i] == batches[i]);
                }
            }
        } else {
            assert(batches.flatten() + next =~= (batches.flatten() + rest).push(events.last()));
        }
    } else {
        assert(Seq::<Seq<T>>::empty().flatten() =~= Seq::<T>::empty());
        assert(events =~= Seq::<T>::empty());
        assert(Seq::<T>::empty() + pending =~= pending + events);
    }
}

/// Steps of writing one batch to the database.
#[derive(Clone, Copy, PartialEq, Eq, Structural, Debug)]
pub enum WriteStep {
    /// Open an insert session.
    Begin,
    /// Write the row with this index.
    Row(usize),
    /// Commit the session.
    Commit,
    /// Append the batch to the local write-ahead log.
    DumpToWal,
    /// Nothing more to do.
    Done,
}

/// The first step of writing a batch of `len` events: none for an empty batch.
pub fn first_write_step(len: usize) -> (r: WriteStep)
    ensures
        len == 0 ==> r == WriteStep::Done,
        len > 0 ==> r == WriteStep::Begin,
{
    if len == 0 {
        WriteStep::Done
    } else {
        WriteStep::Begin
    }
}

/// The step after `step` succeeded (`ok`) or failed: rows are written in
/// order and then committed; any failure sends the batch to the local log.
pub open spec fn write_step_after(len: usize, step: WriteStep, ok: bool) -> WriteStep {
    match step {
        WriteStep::Begin => if ok { WriteStep::Row(0) } else { WriteStep::DumpToWal },
        WriteStep::Row(i) => if !ok {
            WriteStep::DumpToWal
        } else if i + 1 < len {
            WriteStep::Row((i + 1) as usize)
        } else {
            WriteStep::Commit
        },
        WriteStep::Commit => if ok { WriteStep::Done } else { WriteStep::DumpToWal },
        WriteStep::DumpToWal => WriteStep::Done,
        WriteStep::Done => WriteStep::Done,
    }
}

/// The step after `step` (see `write_step_after`).
pub fn next_write_step(len: usize, step: WriteStep, ok: bool) -> (r: WriteStep)
    requires
        len > 0,
        step matches WriteStep::Row(i) ==> i < len,
    ensures
        r == write_step_after(len, step, ok),
        r matches WriteStep::Row(j) ==> j < len,
{
    match step {
        WriteStep::Begin => if ok { WriteStep::Row(0) } else { WriteStep::DumpToWal },
        WriteStep::Row(i) => if !ok {
            WriteStep::DumpToWal
        } else if i + 1 < len {
            WriteStep::Row(i + 1)
        } else {
            WriteStep::Commit
        },
        WriteStep::Commit => if ok { WriteStep::Done } else { WriteStep::DumpToWal },
        WriteStep::DumpToWal => WriteStep::Done,
        WriteStep::Done => WriteStep::Done,
    }
}

/// No batch is dropped: a write reaches its end only through a successful
/// commit or through the local log, and every failed step leads to the log.
pub proof fn law_failed_write_goes_to_wal(len: usize, step: WriteStep, ok: bool)
    ensures
        write_step_after(len, step, ok) == WriteStep::Done && step != WriteStep::Done
            ==> (step == WriteStep::Commit && ok) || step == WriteStep::DumpToWal,
        !ok && (step == WriteStep::Begin || step is Row || step == WriteStep::Commit)
            ==> write_step_after(len, step, ok) == WriteStep::DumpToWal,
{
}

/// The step reached after `k` steps of writing a batch of `len` events when
/// every step succeeds, starting from `Begin`.
pub open spec fn step_when_all_succeed(len: usize, k: nat) -> WriteStep
    decreases k,
{
    if k == 0 {
        WriteStep::Begin
    } else {
        write_step_after(len, step_when_all_succeed(len, (k - 1) as nat), true)
    }
}

/// A write that succeeds at every step writes each row of the batch once,
/// in order, and only then commits: from `Begin` it goes through `Row(0)`,
/// `Row(1)`, ..., `Row(len - 1)`, then `Commit`, then `Done`.
pub proof fn law_successful_write_writes_every_row(len: usize, k: nat)
    requires
        len > 0,
    ensures
        1 <= k <= len ==> step_when_all_succeed(len, k) == WriteStep::Row((k - 1) as usize),
        k == len + 1 ==> step_when_all_succeed(len, k) == WriteStep::Commit,
        k >= len + 2 ==> step_when_all_succeed(len, k) == WriteStep::Done,
    decreases k,
{
    if k > 0 {
        law_successful_write_writes_every_row(len, (k - 1) as nat);
    }
}

/// The write-ahead log records of a batch: each serialized event followed
/// by a newline.
pub open spec fn wal_bytes(records: Seq<Seq<u8>>) -> Seq<u8>
    decreases records.len(),
{
    if records.len() == 0 {
        Seq::empty()
    } else {
        wal_bytes(records.drop_last()) + records.last() + seq![10u8]
    }
}

/// The bytes appended to the write-ahead log for a batch of serialized events.
pub fn wal_frame(records: &Vec<Vec<u8>>) -> (r: Vec<u8>)
    ensures
        r@ == wal_bytes(records@.map_values(|v: Vec<u8>| v@)),
{
    let ghost rs = records@.map_values(|v: Vec<u8>| v@);
    let mut out: Vec<u8> = Vec::new();
    let mut i: usize = 0;
    proof {
        assert(rs.take(0) =~= Seq::<Seq<u8>>::empty());
    }
    while i < records.len()
        invariant
            rs == records@.map_values(|v: Vec<u8>| v@),
            i <= records@.len(),
            out@ == wal_bytes(rs.take(i as int)),
        decreases records@.len() - i,
    {
        proof {
            assert(rs.take(i + 1).drop_last() =~= rs.take(i as int));
            assert(rs.take(i + 1).last() == records@[i as int]@);
        }
        crate::json::push_bytes(&mut out, records[i].as_slice());
        out.push(10u8);
        i = i + 1;
    }
    proof {
        assert(rs.take(i as int) =~= rs);
    }
    out
}

/// Event types the generator cycles through.
pub open spec fn sim_event_type(i: nat) -> Seq<char> {
    if i % 4 == 0 {
        "Auth_Failure"@
    } else if i % 4 == 1 {
        "Malware_Detected"@
    } else if i % 4 == 2 {
        "Port_Scan"@
    } else {
        "Data_Exfiltration"@
    }
}

/// Severities the generator cycles through.
pub open spec fn sim_severity(i: nat) -> Seq<char> {
    if i % 4 == 0 {
        "LOW"@
    } else if i % 4 == 1 {
        "MEDIUM"@
    } else if i % 4 == 2 {
        "HIGH"@
    } else {
        "CRITICAL"@
    }
}

fn event_type_name(counter: u64) -> (r: &'static str)
    ensures
        r@ == sim_event_type(counter as nat),
{
    let i = counter % 4;
    if i == 0 {
        "Auth_Failure"
    } else if i == 1 {
        "Malware_Detected"
    } else if i == 2 {
        "Port_Scan"
    } else {
        "Data_Exfiltration"
    }
}

fn severity_name(counter: u64) -> (r: &'static str)
    ensures
        r@ == sim_severity(counter as nat),
{
    let i = counter % 4;
    if i == 0 {
        "LOW"
    } else if i == 1 {
        "MEDIUM"
    } else if i == 2 {
        "HIGH"
    } else {
        "CRITICAL"
    }
}

fn text(t: &str) -> (r: String)
    ensures
        r@ == t@,
{
    let mut s = String::new();
    push_str(&mut s, t);
    s
}

/// The `counter`-th generated event, with the id and time given.
pub fn simulated_event(counter: u64, event_id: u128, secs: i64, nanos: u32) -> (r: SiemEvent)
    ensures
        r.event_id == event_id,
        r.timestamp_secs == secs,
        r.timestamp_nanos == nanos,
        r.event_type@ == sim_event_type(counter as nat),
        r.source_ip@ == "192.168.1."@ + dec_digits((counter % 254) as nat),
        r.destination_ip@ == "10.0.0.1"@,
        r.severity@ == sim_severity(counter as nat),
        r.message@ == "SIEM alert log sequence id: "@ + dec_digits(counter as nat),
{
    let mut source_ip = text("192.168.1.");
    push_decimal(&mut source_ip, counter % 254);
    let mut message = text("SIEM alert log sequence id: ");
    push_decimal(&mut message, counter);
    SiemEvent {
        event_id,
        timestamp_secs: secs,
        timestamp_nanos: nanos,
        event_type: text(event_type_name(counter)),
        source_ip,
        destination_ip: text("10.0.0.1"),
        severity: text(severity_name(counter)),
        message,
    }
}

/// A fresh random (version 4) event id (`Uuid::new_v4`).
#[verifier::external_body]
fn new_event_id() -> u128 {
    uuid::Uuid::new_v4().as_u128()
}

/// The `counter`-th generated event, with a fresh id and the current time.
pub fn next_simulated_event(counter: u64) -> (r: SiemEvent)
    ensures
        r.event_type@ == sim_event_type(counter as nat),
        r.source_ip@ == "192.168.1."@ + dec_digits((counter % 254) as nat),
        r.destination_ip@ == "10.0.0.1"@,
        r.severity@ == sim_severity(counter as nat),
        r.message@ == "SIEM alert log sequence id: "@ + dec_digits(counter as nat),
{
    let id = new_event_id();
    let (secs, nanos) = utc_now();
    simulated_event(counter, id, secs, nanos)
}

/// Number of events the generator sends.
pub const SIMULATED_EVENTS: u64 = 50;

/// The pause after the `counter`-th event, in milliseconds: a long pause
/// after every fifteenth (so that the timer forms a batch), a short one
/// otherwise.
pub fn pause_after_ms(counter: u64) -> (r: u64)
    ensures
        r == if counter % 15 == 0 { 2000u64 } else { 10u64 },
{
    if counter % 15 == 0 {
        2000
    } else {
        10
    }
}

/// Whether the generator stops after the `counter`-th event.
pub fn traffic_done(counter: u64) -> (r: bool)
    ensures
        r == (counter >= SIMULATED_EVENTS),
{
    counter >= SIMULATED_EVENTS
}

} // verus!

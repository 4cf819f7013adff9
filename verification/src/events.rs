//! Process and syscall events: what the kernel probes record, the byte
//! layout in which they reach user space, and how user space reads them.
use vstd::prelude::*;
use vstd::utf8::*;
use crate::text::{str_from_utf8, utf8_lossy, lossy_utf8, trim_matches_char, trim_char};

verus! {

/// Event kinds of the process probes.
pub const EVENT_EXEC: u32 = 1;
pub const EVENT_OPEN: u32 = 2;
pub const EVENT_MEMFD: u32 = 3;

/// Length of a process name buffer.
pub const COMM_LEN: usize = 16;
/// Length of a file name buffer.
pub const FILENAME_LEN: usize = 64;
/// Size of a `ProcessEvent` record: three 32-bit fields and the two buffers.
pub const PROCESS_EVENT_SIZE: usize = 92;
/// Size of a syscall `Event` record.
pub const SYSCALL_EVENT_SIZE: usize = 24;

/// A process event as the probes record it.
#[derive(Clone, Copy)]
pub struct ProcessEvent {
    pub pid: u32,
    pub tgid: u32,
    pub event_type: u32,
    pub comm: [u8; COMM_LEN],
    pub filename: [u8; FILENAME_LEN],
}

/// A syscall entry as its probe records it.
#[derive(Clone, Copy)]
pub struct Event {
    pub pid: u32,
    pub syscall_id: u32,
    pub comm: [u8; COMM_LEN],
}

/// The process id in the upper half of a pid/tgid word.
pub open spec fn pid_of(pid_tgid: u64) -> u32 {
    (pid_tgid / 0x1_0000_0000) as u32
}

/// The thread group id in the lower half of a pid/tgid word.
pub open spec fn tgid_of(pid_tgid: u64) -> u32 {
    (pid_tgid % 0x1_0000_0000) as u32
}

fn split_pid_tgid(pid_tgid: u64) -> (r: (u32, u32))
    ensures
        r.0 == pid_of(pid_tgid),
        r.1 == tgid_of(pid_tgid),
{
    assert(pid_tgid >> 32u64 == pid_tgid / 0x1_0000_0000) by (bit_vector);
    assert(pid_tgid & 0xffff_ffffu64 == pid_tgid % 0x1_0000_0000) by (bit_vector);
    let hi = pid_tgid >> 32;
    let lo = pid_tgid & 0xffff_ffff;
    (hi as u32, lo as u32)
}

/// A new event of a kind for the current task: its ids, its name, no file
/// name yet.
pub fn init_event(event_type: u32, pid_tgid: u64, comm: [u8; COMM_LEN]) -> (r: ProcessEvent)
    ensures
        r.event_type == event_type,
        r.pid == pid_of(pid_tgid),
        r.tgid == tgid_of(pid_tgid),
        r.comm == comm,
        r.filename@ == Seq::new(FILENAME_LEN as nat, |i: int| 0u8),
{
    let (pid, tgid) = split_pid_tgid(pid_tgid);
    let r = ProcessEvent { pid, tgid, event_type, comm, filename: [0u8; FILENAME_LEN] };
    assert(r.filename@ =~= Seq::new(FILENAME_LEN as nat, |i: int| 0u8));
    r
}

/// Length of the string at the start of `src`: up to its first zero byte.
pub open spec fn c_str_len(src: Seq<u8>) -> nat
    decreases src.len(),
{
    if src.len() == 0 || src[0] == 0 {
        0
    } else {
        1 + c_str_len(src.drop_first())
    }
}

/// A file name buffer filled from a string in user memory: at most
/// `FILENAME_LEN - 1` bytes of it, then zeros.
pub open spec fn name_buffer(src: Seq<u8>) -> Seq<u8> {
    Seq::new(FILENAME_LEN as nat, |i: int| if i < c_str_len(src) && i < FILENAME_LEN - 1 { src[i] } else { 0u8 })
}

proof fn lemma_c_str_len(src: Seq<u8>)
    ensures
        c_str_len(src) <= src.len(),
        forall|i: int| 0 <= i < c_str_len(src) ==> src[i] != 0,
        c_str_len(src) < src.len() ==> src[c_str_len(src) as int] == 0,
    decreases src.len(),
{
    if src.len() > 0 && src[0] != 0 {
        lemma_c_str_len(src.drop_first());
        assert forall|i: int| 0 <= i < c_str_len(src) implies src[i] != 0 by {
            if i > 0 {
                assert(src[i] == src.drop_first()[i - 1]);
            }
        }
    }
}

/// The event a probe submits: a new event of its kind, with the file name
/// read from user memory when the probe's pointer is set (`None` for a null
/// pointer).
pub fn probe_event(event_type: u32, pid_tgid: u64, comm: [u8; COMM_LEN], name: Option<&[u8]>) -> (r: ProcessEvent)
    ensures
        r.event_type == event_type,
        r.pid == pid_of(pid_tgid),
        r.tgid == tgid_of(pid_tgid),
        r.comm == comm,
        r.filename@ == match name {
            Some(src) => name_buffer(src@),
            None => Seq::new(FILENAME_LEN as nat, |i: int| 0u8),
        },
{
    let mut ev = init_event(event_type, pid_tgid, comm);
    if let Some(src) = name {
        proof {
            lemma_c_str_len(src@);
        }
        let mut i: usize = 0;
        while i < FILENAME_LEN - 1 && i < src.len() && src[i] != 0
            invariant
                i <= FILENAME_LEN - 1,
                i <= src@.len(),
                i <= c_str_len(src@),
                c_str_len(src@) <= src@.len(),
                forall|j: int| 0 <= j < c_str_len(src@) ==> src@[j] != 0,
                c_str_len(src@) < src@.len() ==> src@[c_str_len(src@) as int] == 0,
                ev.event_type == event_type,
                ev.pid == pid_of(pid_tgid),
                ev.tgid == tgid_of(pid_tgid),
                ev.comm == comm,
                forall|j: int| 0 <= j < i ==> ev.filename@[j] == src@[j],
                forall|j: int| i <= j < FILENAME_LEN ==> ev.filename@[j] == 0u8,
            decreases FILENAME_LEN - i,
        {
            ev.filename[i] = src[i];
            i = i + 1;
        }
        assert(ev.filename@ =~= name_buffer(src@));
    }
    ev
}

/// The program start probe: the command's path is the second word of the
/// tracepoint record.
pub fn sys_enter_execve(pid_tgid: u64, comm: [u8; COMM_LEN], filename: Option<&[u8]>) -> (r: ProcessEvent)
    ensures
        r.event_type == EVENT_EXEC,
        r.pid == pid_of(pid_tgid),
        r.tgid == tgid_of(pid_tgid),
        r.comm == comm,
        r.filename@ == match filename {
            Some(src) => name_buffer(src@),
            None => Seq::new(FILENAME_LEN as nat, |i: int| 0u8),
        },
{
    probe_event(EVENT_EXEC, pid_tgid, comm, filename)
}

/// The file open probe.
pub fn sys_enter_openat(pid_tgid: u64, comm: [u8; COMM_LEN], filename: Option<&[u8]>) -> (r: ProcessEvent)
    ensures
        r.event_type == EVENT_OPEN,
        r.pid == pid_of(pid_tgid),
        r.tgid == tgid_of(pid_tgid),
        r.comm == comm,
        r.filename@ == match filename {
            Some(src) => name_buffer(src@),
            None => Seq::new(FILENAME_LEN as nat, |i: int| 0u8),
        },
{
    probe_event(EVENT_OPEN, pid_tgid, comm, filename)
}

/// The in-memory file creation probe: the file name is the name given to
/// `memfd_create`.
pub fn sys_enter_memfd_create(pid_tgid: u64, comm: [u8; COMM_LEN], name: Option<&[u8]>) -> (r: ProcessEvent)
    ensures
        r.event_type == EVENT_MEMFD,
        r.pid == pid_of(pid_tgid),
        r.tgid == tgid_of(pid_tgid),
        r.comm == comm,
        r.filename@ == match name {
            Some(src) => name_buffer(src@),
            None => Seq::new(FILENAME_LEN as nat, |i: int| 0u8),
        },
{
    probe_event(EVENT_MEMFD, pid_tgid, comm, name)
}

/// The syscall entry probe: the syscall number is read from the record,
/// 0 when that read fails.
pub fn sys_enter_syscall(pid_tgid: u64, syscall_id: Option<u32>, comm: [u8; COMM_LEN]) -> (r: Event)
    ensures
        r.pid == pid_of(pid_tgid),
        r.syscall_id == match syscall_id {
            Some(v) => v,
            None => 0u32,
        },
        r.comm == comm,
{
    let (pid, _) = split_pid_tgid(pid_tgid);
    let id = match syscall_id {
        Some(v) => v,
        None => 0,
    };
    Event { pid, syscall_id: id, comm }
}

/// Little-endian 32-bit value at offset `i`.
pub open spec fn le32(b: Seq<u8>, i: int) -> u32 {
    (b[i] + b[i + 1] * 0x100 + b[i + 2] * 0x1_0000 + b[i + 3] * 0x100_0000) as u32
}

fn read_le32(b: &[u8], i: usize) -> (r: u32)
    requires
        i + 4 <= b@.len(),
    ensures
        r == le32(b@, i as int),
{
    (b[i] as u32) + (b[i + 1] as u32) * 0x100 + (b[i + 2] as u32) * 0x1_0000 + (b[i + 3] as u32) * 0x100_0000
}

fn read_comm(b: &[u8], o: usize) -> (r: [u8; COMM_LEN])
    requires
        o + COMM_LEN <= b@.len(),
    ensures
        r@ == b@.subrange(o as int, o + COMM_LEN),
{
    let n = b.len();
    let mut out = [0u8; COMM_LEN];
    let mut i: usize = 0;
    while i < COMM_LEN
        invariant
            n == b@.len(),
            o + COMM_LEN <= b@.len(),
            i <= COMM_LEN,
            forall|j: int| 0 <= j < i ==> out@[j] == b@[o + j],
        decreases COMM_LEN - i,
    {
        out[i] = b[o + i];
        i = i + 1;
    }
    assert(out@ =~= b@.subrange(o as int, o + COMM_LEN));
    out
}

/// The process event a ring buffer record holds (little-endian fields, in
/// declaration order), when the record is long enough.
pub fn decode_process_event(item: &[u8]) -> (r: Option<ProcessEvent>)
    ensures
        r is Some <==> item@.len() >= PROCESS_EVENT_SIZE,
        r matches Some(e) ==> {
            &&& e.pid == le32(item@, 0)
            &&& e.tgid == le32(item@, 4)
            &&& e.event_type == le32(item@, 8)
            &&& e.comm@ == item@.subrange(12, 28)
            &&& e.filename@ == item@.subrange(28, 92)
        },
{
    if item.len() < PROCESS_EVENT_SIZE {
        return None;
    }
    let comm = read_comm(item, 12);
    let mut filename = [0u8; FILENAME_LEN];
    let mut i: usize = 0;
    while i < FILENAME_LEN
        invariant
            item@.len() >= PROCESS_EVENT_SIZE,
            i <= FILENAME_LEN,
            forall|j: int| 0 <= j < i ==> filename@[j] == item@[28 + j],
        decreases FILENAME_LEN - i,
    {
        filename[i] = item[28 + i];
        i = i + 1;
    }
    assert(filename@ =~= item@.subrange(28, 92));
    Some(ProcessEvent {
        pid: read_le32(item, 0),
        tgid: read_le32(item, 4),
        event_type: read_le32(item, 8),
        comm,
        filename,
    })
}

/// The syscall event a perf buffer record holds, when it is long enough.
pub fn decode_syscall_event(item: &[u8]) -> (r: Option<Event>)
    ensures
        r is Some <==> item@.len() >= SYSCALL_EVENT_SIZE,
        r matches Some(e) ==> {
            &&& e.pid == le32(item@, 0)
            &&& e.syscall_id == le32(item@, 4)
            &&& e.comm@ == item@.subrange(8, 24)
        },
{
    if item.len() < SYSCALL_EVENT_SIZE {
        return None;
    }
    Some(Event { pid: read_le32(item, 0), syscall_id: read_le32(item, 4), comm: read_comm(item, 8) })
}

/// The little-endian bytes of a 32-bit value.
pub open spec fn le32_bytes(x: u32) -> Seq<u8> {
    let a = x as int;
    seq![
        (a % 0x100) as u8,
        ((a / 0x100) % 0x100) as u8,
        ((a / 0x100 / 0x100) % 0x100) as u8,
        (a / 0x100 / 0x100 / 0x100) as u8,
    ]
}

/// The bytes of a process event as the probes lay it out in the ring
/// buffer: the three 32-bit fields little-endian, then the two buffers.
pub open spec fn process_event_bytes(e: ProcessEvent) -> Seq<u8> {
    le32_bytes(e.pid) + le32_bytes(e.tgid) + le32_bytes(e.event_type) + e.comm@ + e.filename@
}

proof fn lemma_le32_bytes(x: u32, b: Seq<u8>, i: int)
    requires
        0 <= i,
        i + 4 <= b.len(),
        b.subrange(i, i + 4) == le32_bytes(x),
    ensures
        le32(b, i) == x,
{
    let a = x as int;
    let a1 = a / 0x100;
    let a2 = a1 / 0x100;
    let a3 = a2 / 0x100;
    vstd::arithmetic::div_mod::lemma_fundamental_div_mod(a, 0x100);
    vstd::arithmetic::div_mod::lemma_fundamental_div_mod(a1, 0x100);
    vstd::arithmetic::div_mod::lemma_fundamental_div_mod(a2, 0x100);
    assert(b[i] == le32_bytes(x)[0]);
    assert(b[i + 1] == le32_bytes(x)[1]);
    assert(b[i + 2] == le32_bytes(x)[2]);
    assert(b[i + 3] == le32_bytes(x)[3]);
    assert(0 <= a3 < 0x100);
    assert(b[i + 3] == a3);
    assert(b[i] + b[i + 1] * 0x100 + b[i + 2] * 0x1_0000 + b[i + 3] * 0x100_0000 == a);
}

/// User space reads back exactly the event a probe recorded: decoding the
/// record's bytes gives every field.
pub proof fn law_process_event_round_trip(e: ProcessEvent)
    ensures
        ({
            let b = process_event_bytes(e);
            &&& b.len() == PROCESS_EVENT_SIZE
            &&& le32(b, 0) == e.pid
            &&& le32(b, 4) == e.tgid
            &&& le32(b, 8) == e.event_type
            &&& b.subrange(12, 28) == e.comm@
            &&& b.subrange(28, 92) == e.filename@
        }),
{
    let b = process_event_bytes(e);
    assert(b.subrange(0, 4) =~= le32_bytes(e.pid));
    assert(b.subrange(4, 8) =~= le32_bytes(e.tgid));
    assert(b.subrange(8, 12) =~= le32_bytes(e.event_type));
    assert(b.subrange(12, 28) =~= e.comm@);
    assert(b.subrange(28, 92) =~= e.filename@);
    lemma_le32_bytes(e.pid, b, 0);
    lemma_le32_bytes(e.tgid, b, 4);
    lemma_le32_bytes(e.event_type, b, 8);
}

/// A buffer's text for display: lossy UTF-8 without zeros at either end.
pub open spec fn lossy_text(b: Seq<u8>) -> Seq<char> {
    trim_char(lossy_utf8(b), '\0')
}

/// The text of a buffer: lossy UTF-8 without zeros at either end.
pub fn buffer_text(b: &[u8]) -> (r: String)
    ensures
        r@ == lossy_text(b@),
        valid_utf8(b@) ==> r@ == trim_char(decode_utf8(b@), '\0'),
{
    let s = utf8_lossy(b);
    trim_matches_char(s.as_str(), '\0')
}

/// A process name for display: the name without zeros at either end when
/// the buffer is valid UTF-8, `unknown` otherwise.
pub open spec fn comm_text(b: Seq<u8>) -> Seq<char> {
    if valid_utf8(b) {
        trim_char(decode_utf8(b), '\0')
    } else {
        seq!['u', 'n', 'k', 'n', 'o', 'w', 'n']
    }
}

/// The process name of a syscall event for display.
pub fn syscall_comm_text(comm: &[u8; COMM_LEN]) -> (r: String)
    ensures
        r@ == comm_text(comm@),
{
    let text = match str_from_utf8(comm.as_slice()) {
        Some(s) => s,
        None => "unknown",
    };
    proof {
        reveal_strlit("unknown");
        if !valid_utf8(comm@) {
            assert(trim_char("unknown"@, '\0') =~= "unknown"@);
        }
    }
    trim_matches_char(text, '\0')
}

/// The kinds of process events.
#[derive(Clone, Copy, PartialEq, Eq, Structural, Debug)]
pub enum EventKind {
    Exec,
    Open,
    Memfd,
}

/// The kind of an event type number, if it is one.
pub open spec fn kind_of(event_type: u32) -> Option<EventKind> {
    if event_type == EVENT_EXEC {
        Some(EventKind::Exec)
    } else if event_type == EVENT_OPEN {
        Some(EventKind::Open)
    } else if event_type == EVENT_MEMFD {
        Some(EventKind::Memfd)
    } else {
        None
    }
}

/// Each event is reported as the kind of the probe that made it: the type
/// `sys_enter_execve` writes is reported as an exec, the one
/// `sys_enter_openat` writes as a file open, the one
/// `sys_enter_memfd_create` writes as an in-memory file, and no other type
/// is reported as any of these.
pub proof fn law_reported_kind_matches_probe(event_type: u32)
    ensures
        kind_of(event_type) == Some(EventKind::Exec) <==> event_type == EVENT_EXEC,
        kind_of(event_type) == Some(EventKind::Open) <==> event_type == EVENT_OPEN,
        kind_of(event_type) == Some(EventKind::Memfd) <==> event_type == EVENT_MEMFD,
        kind_of(event_type) is None <==> (event_type != EVENT_EXEC && event_type != EVENT_OPEN
            && event_type != EVENT_MEMFD),
{
}

/// What user space reports of a process event: its kind, pid, process
/// name and file name, or nothing for an unknown kind.
pub fn describe_process_event(e: &ProcessEvent) -> (r: Option<(EventKind, u32, String, String)>)
    ensures
        match r {
            Some((k, pid, comm, file)) => {
                &&& kind_of(e.event_type) == Some(k)
                &&& pid == e.pid
                &&& comm@ == lossy_text(e.comm@)
                &&& file@ == lossy_text(e.filename@)
            },
            None => kind_of(e.event_type) is None,
        },
{
    let kind = if e.event_type == EVENT_EXEC {
        EventKind::Exec
    } else if e.event_type == EVENT_OPEN {
        EventKind::Open
    } else if e.event_type == EVENT_MEMFD {
        EventKind::Memfd
    } else {
        return None;
    };
    let comm = buffer_text(e.comm.as_slice());
    let file = buffer_text(e.filename.as_slice());
    Some((kind, e.pid, comm, file))
}

} // verus!

//! The blocking file-open monitor: reading the kernel's fanotify event
//! records out of a read buffer, and the permission answer for each file.
use vstd::prelude::*;
use vstd::utf8::*;
use crate::text::{str_from_utf8, push_str, push_decimal, dec_digits};

verus! {

/// Permission answers.
pub const FAN_ALLOW: u32 = 0x01;
pub const FAN_DENY: u32 = 0x02;

/// Size of an event record header.
pub const METADATA_LEN: usize = 24;

/// The header of one fanotify event record.
#[derive(Clone, Copy, PartialEq, Eq, Structural, Debug)]
pub struct FanotifyEventMetadata {
    pub event_len: u32,
    pub vers: u8,
    pub reserved: u8,
    pub metadata_len: u16,
    pub mask: u64,
    pub fd: i32,
    pub pid: i32,
}

/// The answer written back for a file descriptor.
#[derive(Clone, Copy, PartialEq, Eq, Structural, Debug)]
pub struct FanotifyResponse {
    pub fd: i32,
    pub response: u32,
}

/// Little-endian 16-bit value at offset `i`.
pub open spec fn le16(b: Seq<u8>, i: int) -> u16 {
    (b[i] + b[i + 1] * 0x100) as u16
}

/// Little-endian 32-bit value at offset `i`.
pub open spec fn le32(b: Seq<u8>, i: int) -> u32 {
    (b[i] + b[i + 1] * 0x100 + b[i + 2] * 0x1_0000 + b[i + 3] * 0x100_0000) as u32
}

/// Little-endian 64-bit value at offset `i`.
pub open spec fn le64(b: Seq<u8>, i: int) -> u64 {
    (le32(b, i) + le32(b, i + 4) * 0x1_0000_0000) as u64
}

/// The record header at offset `o` (little-endian, declaration order).
pub open spec fn metadata_at(b: Seq<u8>, o: int) -> FanotifyEventMetadata {
    FanotifyEventMetadata {
        event_len: le32(b, o),
        vers: b[o + 4],
        reserved: b[o + 5],
        metadata_len: le16(b, o + 6),
        mask: le64(b, o + 8),
        fd: le32(b, o + 16) as i32,
        pid: le32(b, o + 20) as i32,
    }
}

fn read_le32(b: &[u8], i: usize) -> (r: u32)
    requires
        i + 4 <= b@.len(),
    ensures
        r == le32(b@, i as int),
{
    (b[i] as u32) + (b[i + 1] as u32) * 0x100 + (b[i + 2] as u32) * 0x1_0000 + (b[i + 3] as u32) * 0x100_0000
}

/// Reads the record header at offset `o`.
pub fn read_metadata(b: &[u8], o: usize) -> (r: FanotifyEventMetadata)
    requires
        o + METADATA_LEN <= b@.len(),
    ensures
        r == metadata_at(b@, o as int),
{
    let size = b.len();
    assert(o + METADATA_LEN <= size);
    let lo = read_le32(b, o + 8) as u64;
    let hi = read_le32(b, o + 12) as u64;
    let fd_bits = read_le32(b, o + 16);
    let pid_bits = read_le32(b, o + 20);
    FanotifyEventMetadata {
        event_len: read_le32(b, o),
        vers: b[o + 4],
        reserved: b[o + 5],
        metadata_len: (b[o + 6] as u16) + (b[o + 7] as u16) * 0x100,
        mask: lo + hi * 0x1_0000_0000,
        fd: fd_bits as i32,
        pid: pid_bits as i32,
    }
}

/// Whether walking the records of the first `n` bytes from offset `o`
/// reaches the end: no record on the way claims a length of zero.
pub open spec fn walk_ends(b: Seq<u8>, n: nat, o: nat) -> bool
    decreases n - o,
{
    if o + METADATA_LEN > n || n > b.len() {
        true
    } else {
        let len = metadata_at(b, o as int).event_len;
        if len == 0 {
            false
        } else if o + len > n {
            true
        } else {
            walk_ends(b, n, (o + len) as nat)
        }
    }
}

/// The record headers met walking the first `n` bytes from offset `o`:
/// a header is read wherever one fits, and the next starts `event_len`
/// bytes later.
pub open spec fn walk_events(b: Seq<u8>, n: nat, o: nat) -> Seq<FanotifyEventMetadata>
    decreases n - o,
{
    if o + METADATA_LEN > n || n > b.len() {
        Seq::empty()
    } else {
        let m = metadata_at(b, o as int);
        if m.event_len == 0 || o + m.event_len > n {
            seq![m]
        } else {
            seq![m] + walk_events(b, n, (o + m.event_len) as nat)
        }
    }
}

/// Whether the records of the first `n` bytes can be walked to the end
/// (no record on the way claims a length of zero).
pub fn events_walkable(buffer: &[u8], n: usize) -> (r: bool)
    requires
        n <= buffer@.len(),
    ensures
        r == walk_ends(buffer@, n as nat, 0),
{
    let mut offset: usize = 0;
    while n - offset >= METADATA_LEN
        invariant
            n <= buffer@.len(),
            offset <= n,
            walk_ends(buffer@, n as nat, 0) == walk_ends(buffer@, n as nat, offset as nat),
        decreases n - offset,
    {
        let len = read_le32(buffer, offset) as usize;
        if len == 0 {
            return false;
        }
        if len > n - offset {
            return true;
        }
        offset = offset + len;
    }
    true
}

/// The event headers in the first `n` bytes of a read buffer, in order.
pub fn read_events(buffer: &[u8], n: usize) -> (r: Vec<FanotifyEventMetadata>)
    requires
        n <= buffer@.len(),
        walk_ends(buffer@, n as nat, 0),
    ensures
        r@ == walk_events(buffer@, n as nat, 0),
{
    let mut out: Vec<FanotifyEventMetadata> = Vec::new();
    let mut offset: usize = 0;
    while n - offset >= METADATA_LEN
        invariant
            n <= buffer@.len(),
            offset <= n,
            walk_ends(buffer@, n as nat, offset as nat),
            walk_events(buffer@, n as nat, 0) == out@ + walk_events(buffer@, n as nat, offset as nat),
        decreases n - offset,
    {
        let m = read_metadata(buffer, offset);
        let ghost prev = out@;
        out.push(m);
        let step = m.event_len as usize;
        if step > n - offset {
            proof {
                assert(out@ =~= prev + seq![m]);
            }
            return out;
        }
        proof {
            assert(step > 0);
            assert(out@ + walk_events(buffer@, n as nat, (offset + step) as nat) =~= prev + (seq![m]
                + walk_events(buffer@, n as nat, (offset + step) as nat)));
        }
        offset = offset + step;
    }
    proof {
        assert(walk_events(buffer@, n as nat, offset as nat) =~= Seq::<FanotifyEventMetadata>::empty());
        assert(out@ =~= out@ + Seq::<FanotifyEventMetadata>::empty());
    }
    out
}

/// The text of a file's first bytes to scan: present when something was
/// read and it is valid UTF-8.
pub fn scan_text(content: &[u8]) -> (r: Option<&str>)
    ensures
        r is Some <==> (content@.len() > 0 && valid_utf8(content@)),
        r matches Some(t) ==> t@ == decode_utf8(content@),
{
    if content.len() == 0 {
        return None;
    }
    str_from_utf8(content)
}

/// The answer for a file: refused when its text matches a sensitive
/// pattern, allowed otherwise.
pub fn file_response(fd: i32, matched: bool) -> (r: FanotifyResponse)
    ensures
        r.fd == fd,
        r.response == if matched { FAN_DENY } else { FAN_ALLOW },
{
    FanotifyResponse { fd, response: if matched { FAN_DENY } else { FAN_ALLOW } }
}

/// The link naming the file behind one of this process's descriptors.
pub fn proc_fd_path(fd: i32) -> (r: String)
    requires
        fd >= 0,
    ensures
        r@ == "/proc/self/fd/"@ + dec_digits(fd as nat),
{
    let mut s = String::new();
    push_str(&mut s, "/proc/self/fd/");
    push_decimal(&mut s, fd as u64);
    s
}

} // verus!

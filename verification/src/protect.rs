//! The eBPF program guard: the whitelist key of a loaded program, which
//! pinned files to remove with an unauthorised program, and the alerts.
use vstd::prelude::*;
use vstd::utf8::*;
use crate::text::{str_eq, push_str, push_decimal, dec_digits};

verus! {

/// Length of a kernel object name buffer.
pub const BPF_OBJ_NAME_LEN: usize = 16;

/// Where the whitelist map is pinned; the guard never removes it.
pub open spec fn whitelist_pin_path() -> Seq<char> {
    "/sys/fs/bpf/fw_whitelist_map"@
}

/// A whitelist key: program type and name, the name zero padded.
#[derive(Clone, Copy, Debug)]
pub struct WhitelistKey {
    pub prog_type: u32,
    pub name: [u8; BPF_OBJ_NAME_LEN],
}

/// A program name as a key buffer: its first bytes, at most
/// `BPF_OBJ_NAME_LEN - 1`, then zeros.
pub open spec fn name_key(b: Seq<u8>) -> Seq<u8> {
    Seq::new(BPF_OBJ_NAME_LEN as nat, |i: int| if i < b.len() && i < BPF_OBJ_NAME_LEN - 1 { b[i] } else { 0u8 })
}

/// The whitelist key of a program.
pub fn whitelist_key(name: &str, prog_type: u32) -> (r: WhitelistKey)
    ensures
        r.prog_type == prog_type,
        r.name@ == name_key(encode_utf8(name@)),
{
    let src = name.as_bytes();
    let mut len = src.len();
    if len > BPF_OBJ_NAME_LEN - 1 {
        len = BPF_OBJ_NAME_LEN - 1;
    }
    let mut key = WhitelistKey { prog_type, name: [0u8; BPF_OBJ_NAME_LEN] };
    let mut i: usize = 0;
    while i < len
        invariant
            len <= src@.len(),
            len < BPF_OBJ_NAME_LEN,
            i <= len,
            src@ == encode_utf8(name@),
            key.prog_type == prog_type,
            forall|j: int| 0 <= j < i ==> key.name@[j] == src@[j],
            forall|j: int| i <= j < BPF_OBJ_NAME_LEN ==> key.name@[j] == 0u8,
        decreases len - i,
    {
        key.name[i] = src[i];
        i = i + 1;
    }
    assert(key.name@ =~= name_key(encode_utf8(name@)));
    key
}

/// Whether a pinned file goes with an unauthorised program: it is not the
/// whitelist's pin, and it is pinned to the program's id.
pub fn pin_to_remove(path: &str, pinned_id: Option<u32>, prog_id: u32) -> (r: bool)
    ensures
        r == (path@ != whitelist_pin_path() && pinned_id == Some(prog_id)),
{
    if str_eq(path, "/sys/fs/bpf/fw_whitelist_map") {
        return false;
    }
    match pinned_id {
        Some(id) => id == prog_id,
        None => false,
    }
}

/// The alert for an unauthorised program.
pub open spec fn alert_text(id: u32, name: Seq<char>, prog_type: u32) -> Seq<char> {
    "SECURITY_ALERT: Unauthorized eBPF program detected! ID="@ + dec_digits(id as nat) + ", Name='"@ + name
        + "', Type="@ + dec_digits(prog_type as nat) + ". Action: Force Unload."@
}

/// The alert for an unauthorised program.
pub fn alert_message(id: u32, name: &str, prog_type: u32) -> (r: String)
    ensures
        r@ == alert_text(id, name@, prog_type),
{
    let mut s = String::new();
    push_str(&mut s, "SECURITY_ALERT: Unauthorized eBPF program detected! ID=");
    push_decimal(&mut s, id as u64);
    push_str(&mut s, ", Name='");
    push_str(&mut s, name);
    push_str(&mut s, "', Type=");
    push_decimal(&mut s, prog_type as u64);
    push_str(&mut s, ". Action: Force Unload.");
    s
}

/// The notice once an unauthorised program is removed.
pub fn purged_message(id: u32) -> (r: String)
    ensures
        r@ == "eBPF program ID="@ + dec_digits(id as nat) + " has been purged .."@,
{
    let mut s = String::new();
    push_str(&mut s, "eBPF program ID=");
    push_decimal(&mut s, id as u64);
    push_str(&mut s, " has been purged ..");
    s
}

/// What the guard does with a loaded program.
pub enum Enforcement {
    /// The program is on the whitelist: leave it.
    Keep,
    /// The program is not: raise `alert`, detach and unpin it, then log `notice`.
    Unload { alert: String, notice: String },
}

/// The guard's decision on a loaded program, by whether its whitelist key
/// was found.
pub fn enforcement(id: u32, name: &str, prog_type: u32, whitelisted: bool) -> (r: Enforcement)
    ensures
        whitelisted ==> r is Keep,
        !whitelisted ==> (r matches Enforcement::Unload { alert, notice } && alert@ == alert_text(id, name@, prog_type)
            && notice@ == "eBPF program ID="@ + dec_digits(id as nat) + " has been purged .."@),
{
    if whitelisted {
        Enforcement::Keep
    } else {
        Enforcement::Unload { alert: alert_message(id, name, prog_type), notice: purged_message(id) }
    }
}

} // verus!

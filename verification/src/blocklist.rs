//! The firewall's block list: networks (an address and a prefix length)
//! kept as longest-prefix-match entries, the way the XDP program's
//! `BLOCKED_IPS` trie holds them.
use vstd::prelude::*;
use std::str::FromStr;
use ipnet::IpNet;
use crate::text::{chars_of, string_of, trim, trim_bounds};

verus! {

/// Key data of a block-list entry: the address family (4 or 6) and the
/// address, IPv4 in the first four bytes.
#[derive(Clone, Copy, Debug)]
pub struct IpKey {
    pub ip_type: u8,
    pub addr: [u8; 16],
}

/// An entry of the trie: key data and how many leading bits of it count
/// (the network's prefix length plus the 8 bits of `ip_type`).
#[derive(Clone, Copy, Debug)]
pub struct LpmEntry {
    pub prefix_len: u32,
    pub key: IpKey,
}

/// The bytes a trie compares for a key: `ip_type`, then the address.
pub open spec fn key_data(ip_type: u8, addr: Seq<u8>) -> Seq<u8> {
    seq![ip_type] + addr
}

/// Whether two byte strings agree on their first `bits` bits (most
/// significant bit of each byte first).
pub open spec fn prefix_equal(a: Seq<u8>, b: Seq<u8>, bits: nat) -> bool {
    let full = bits / 8;
    let rem = bits % 8;
    &&& full + (if rem > 0 { 1int } else { 0int }) <= a.len()
    &&& full + (if rem > 0 { 1int } else { 0int }) <= b.len()
    &&& forall|i: int| 0 <= i < full ==> a[i] == b[i]
    &&& rem > 0 ==> ((a[full as int] ^ b[full as int]) >> ((8 - rem) as u8)) == 0u8
}

/// Whether an entry covers a lookup key of `bits` significant bits.
pub open spec fn entry_matches(e: LpmEntry, data: Seq<u8>, bits: nat) -> bool {
    e.prefix_len <= bits && prefix_equal(key_data(e.key.ip_type, e.key.addr@), data, e.prefix_len as nat)
}

/// Bit `k` of a byte string, counting from the most significant bit of
/// its first byte.
pub open spec fn bit_of(a: Seq<u8>, k: int) -> u8 {
    (a[k / 8] >> ((7 - k % 8) as u8)) & 1u8
}

proof fn lemma_high_bits_agree(x: u8, y: u8, s: u8, t: u8)
    requires
        s <= t <= 7,
        ((x ^ y) >> s) == 0u8,
    ensures
        ((x >> t) & 1u8) == ((y >> t) & 1u8),
{
    assert(((x ^ y) >> s) == 0u8 && s <= t && t <= 7 ==> ((x >> t) & 1u8) == ((y >> t) & 1u8)) by (bit_vector);
}

proof fn lemma_high_bits_back(x: u8, y: u8, s: u8)
    requires
        1 <= s <= 7,
        s <= 0u8 ==> ((x >> 0u8) & 1u8) == ((y >> 0u8) & 1u8),
        s <= 1u8 ==> ((x >> 1u8) & 1u8) == ((y >> 1u8) & 1u8),
        s <= 2u8 ==> ((x >> 2u8) & 1u8) == ((y >> 2u8) & 1u8),
        s <= 3u8 ==> ((x >> 3u8) & 1u8) == ((y >> 3u8) & 1u8),
        s <= 4u8 ==> ((x >> 4u8) & 1u8) == ((y >> 4u8) & 1u8),
        s <= 5u8 ==> ((x >> 5u8) & 1u8) == ((y >> 5u8) & 1u8),
        s <= 6u8 ==> ((x >> 6u8) & 1u8) == ((y >> 6u8) & 1u8),
        s <= 7u8 ==> ((x >> 7u8) & 1u8) == ((y >> 7u8) & 1u8),
    ensures
        ((x ^ y) >> s) == 0u8,
{
    assert(
        1 <= s && s <= 7
        && (s <= 0u8 ==> ((x >> 0u8) & 1u8) == ((y >> 0u8) & 1u8))
        && (s <= 1u8 ==> ((x >> 1u8) & 1u8) == ((y >> 1u8) & 1u8))
        && (s <= 2u8 ==> ((x >> 2u8) & 1u8) == ((y >> 2u8) & 1u8))
        && (s <= 3u8 ==> ((x >> 3u8) & 1u8) == ((y >> 3u8) & 1u8))
        && (s <= 4u8 ==> ((x >> 4u8) & 1u8) == ((y >> 4u8) & 1u8))
        && (s <= 5u8 ==> ((x >> 5u8) & 1u8) == ((y >> 5u8) & 1u8))
        && (s <= 6u8 ==> ((x >> 6u8) & 1u8) == ((y >> 6u8) & 1u8))
        && (s <= 7u8 ==> ((x >> 7u8) & 1u8) == ((y >> 7u8) & 1u8))
        ==> ((x ^ y) >> s) == 0u8
    ) by (bit_vector);
}

proof fn lemma_all_bits_agree(x: u8, y: u8)
    requires
        ((x >> 0u8) & 1u8) == ((y >> 0u8) & 1u8),
        ((x >> 1u8) & 1u8) == ((y >> 1u8) & 1u8),
        ((x >> 2u8) & 1u8) == ((y >> 2u8) & 1u8),
        ((x >> 3u8) & 1u8) == ((y >> 3u8) & 1u8),
        ((x >> 4u8) & 1u8) == ((y >> 4u8) & 1u8),
        ((x >> 5u8) & 1u8) == ((y >> 5u8) & 1u8),
        ((x >> 6u8) & 1u8) == ((y >> 6u8) & 1u8),
        ((x >> 7u8) & 1u8) == ((y >> 7u8) & 1u8),
    ensures
        x == y,
{
    assert(
        ((x >> 0u8) & 1u8) == ((y >> 0u8) & 1u8)
        && ((x >> 1u8) & 1u8) == ((y >> 1u8) & 1u8)
        && ((x >> 2u8) & 1u8) == ((y >> 2u8) & 1u8)
        && ((x >> 3u8) & 1u8) == ((y >> 3u8) & 1u8)
        && ((x >> 4u8) & 1u8) == ((y >> 4u8) & 1u8)
        && ((x >> 5u8) & 1u8) == ((y >> 5u8) & 1u8)
        && ((x >> 6u8) & 1u8) == ((y >> 6u8) & 1u8)
        && ((x >> 7u8) & 1u8) == ((y >> 7u8) & 1u8)
        ==> x == y
    ) by (bit_vector);
}

/// The bits of byte `i` of two strings agree wherever they lie before bit `bits`.
proof fn lemma_byte_bits(a: Seq<u8>, b: Seq<u8>, bits: nat, i: int)
    requires
        0 <= i,
        i < a.len(),
        i < b.len(),
        forall|k: int| 0 <= k < bits ==> #[trigger] bit_of(a, k) == bit_of(b, k),
    ensures
        forall|t: u8| t <= 7 && 8 * i + 7 - t < bits ==> ((a[i] >> t) & 1u8) == ((b[i] >> t) & 1u8),
{
    assert forall|t: u8| t <= 7 && 8 * i + 7 - t < bits implies ((a[i] >> t) & 1u8) == ((b[i] >> t) & 1u8) by {
        let k = 8 * i + 7 - t;
        assert(k / 8 == i && k % 8 == 7 - t);
        assert(bit_of(a, k) == bit_of(b, k));
    }
}

/// A trie entry covers a key exactly as longest-prefix matching does bit by
/// bit: two strings agree on a prefix of `bits` bits exactly when both are
/// long enough and every one of those bits is the same in both.
pub proof fn law_prefix_match_is_bitwise(a: Seq<u8>, b: Seq<u8>, bits: nat)
    ensures
        prefix_equal(a, b, bits) <==> {
            &&& (bits + 7) / 8 <= a.len()
            &&& (bits + 7) / 8 <= b.len()
            &&& forall|k: int| 0 <= k < bits ==> #[trigger] bit_of(a, k) == bit_of(b, k)
        },
{
    let full = bits / 8;
    let rem = bits % 8;
    assert(full + (if rem > 0 { 1int } else { 0int }) == (bits + 7) / 8);
    if prefix_equal(a, b, bits) {
        assert forall|k: int| 0 <= k < bits implies #[trigger] bit_of(a, k) == bit_of(b, k) by {
            let i = k / 8;
            let j = k % 8;
            if i < full {
                assert(a[i] == b[i]);
            } else {
                assert(i == full && j < rem);
                lemma_high_bits_agree(a[i], b[i], (8 - rem) as u8, (7 - j) as u8);
            }
        }
    }
    if (bits + 7) / 8 <= a.len() && (bits + 7) / 8 <= b.len()
        && forall|k: int| 0 <= k < bits ==> #[trigger] bit_of(a, k) == bit_of(b, k) {
        assert forall|i: int| 0 <= i < full implies a[i] == b[i] by {
            lemma_byte_bits(a, b, bits, i);
            lemma_all_bits_agree(a[i], b[i]);
        }
        if rem > 0 {
            lemma_byte_bits(a, b, bits, full as int);
            lemma_high_bits_back(a[full as int], b[full as int], (8 - rem) as u8);
        }
    }
}

/// The entries of the block list.
#[derive(Clone, Debug)]
pub struct Blocklist {
    pub entries: Vec<LpmEntry>,
}

/// Whether some entry covers the key.
pub open spec fn blocked(entries: Seq<LpmEntry>, data: Seq<u8>, bits: nat) -> bool {
    exists|i: int| 0 <= i < entries.len() && #[trigger] entry_matches(entries[i], data, bits)
}

fn prefix_eq_exec(a: &[u8], b: &[u8], bits: u32) -> (r: bool)
    ensures
        r == prefix_equal(a@, b@, bits as nat),
{
    let full = (bits / 8) as usize;
    let rem = bits % 8;
    let need = if rem > 0 { full + 1 } else { full };
    if need > a.len() || need > b.len() {
        return false;
    }
    let mut i: usize = 0;
    while i < full
        invariant
            full == bits / 8,
            full <= a@.len(),
            full <= b@.len(),
            i <= full,
            forall|j: int| 0 <= j < i ==> a@[j] == b@[j],
        decreases full - i,
    {
        if a[i] != b[i] {
            return false;
        }
        i = i + 1;
    }
    if rem > 0 {
        let sh: u8 = (8 - rem) as u8;
        ((a[full] ^ b[full]) >> sh) == 0u8
    } else {
        true
    }
}

fn data_of(ip_type: u8, addr: &[u8; 16]) -> (r: Vec<u8>)
    ensures
        r@ == key_data(ip_type, addr@),
{
    let mut v: Vec<u8> = Vec::new();
    v.push(ip_type);
    let mut i: usize = 0;
    while i < 16
        invariant
            i <= 16,
            v@ == seq![ip_type] + addr@.take(i as int),
        decreases 16 - i,
    {
        v.push(addr[i]);
        assert(addr@.take(i + 1) =~= addr@.take(i as int).push(addr@[i as int]));
        assert(v@ =~= seq![ip_type] + addr@.take(i + 1));
        i = i + 1;
    }
    assert(addr@.take(16) =~= addr@);
    v
}

impl Blocklist {
    /// Whether some entry covers the key `ip_type`/`addr` looked up with
    /// `bits` significant bits.
    pub fn covers(&self, ip_type: u8, addr: &[u8; 16], bits: u32) -> (r: bool)
        ensures
            r == blocked(self.entries@, key_data(ip_type, addr@), bits as nat),
    {
        let data = data_of(ip_type, addr);
        let mut i: usize = 0;
        while i < self.entries.len()
            invariant
                i <= self.entries@.len(),
                data@ == key_data(ip_type, addr@),
                forall|j: int| 0 <= j < i ==> !#[trigger] entry_matches(self.entries@[j], data@, bits as nat),
            decreases self.entries@.len() - i,
        {
            let e = self.entries[i];
            if e.prefix_len <= bits {
                let ed = data_of(e.key.ip_type, &e.key.addr);
                if prefix_eq_exec(ed.as_slice(), data.as_slice(), e.prefix_len) {
                    assert(entry_matches(self.entries@[i as int], data@, bits as nat));
                    return true;
                }
            }
            i = i + 1;
        }
        false
    }
}


/// What `IpNet::from_str` from `ipnet` yields for a text: address family,
/// address bytes and prefix length.
pub uninterp spec fn ipnet_parse(text: Seq<char>) -> Option<(u8, Seq<u8>, u8)>;

/// `IpNet::from_str` from `ipnet`. The result is the one `ipnet_parse`
/// names; per the crate's parser a prefix is at most 32 for IPv4 and 128 for
/// IPv6. The address comes back in 16 bytes, IPv4 in the first four and
/// the rest zero.
#[verifier::external_body]
fn parse_ipnet(text: &str) -> (r: Option<(u8, [u8; 16], u8)>)
    ensures
        match r {
            Some((fam, addr, p)) => ipnet_parse(text@) == Some((fam, addr@, p))
                && ((fam == 4 && p <= 32 && forall|i: int| 4 <= i < 16 ==> addr@[i] == 0) || (fam == 6 && p <= 128)),
            None => ipnet_parse(text@) is None,
        },
{
    match IpNet::from_str(text) {
        Ok(IpNet::V4(n)) => {
            let mut a = [0u8; 16];
            a[..4].copy_from_slice(&n.addr().octets());
            Some((4, a, n.prefix_len()))
        },
        Ok(IpNet::V6(n)) => Some((6, n.addr().octets(), n.prefix_len())),
        Err(_) => None,
    }
}

/// Byte `i` of the network address of `b` under a prefix of `p` bits.
pub open spec fn mask_byte(b: u8, i: int, p: nat) -> u8 {
    if 8 * (i + 1) <= p {
        b
    } else if 8 * i >= p {
        0
    } else {
        b & ((0xFFu8 << ((8 - (p - 8 * i)) as u8)) as u8)
    }
}

/// The network address: the address with the bits past the prefix cleared.
pub open spec fn network_bytes(addr: Seq<u8>, p: nat) -> Seq<u8> {
    Seq::new(addr.len(), |i: int| mask_byte(addr[i], i, p))
}

/// An entry as (significant bits, address family, key address).
pub open spec fn entry_view(e: LpmEntry) -> (u32, u8, Seq<u8>) {
    (e.prefix_len, e.key.ip_type, e.key.addr@)
}

/// The trie entry of a network: the prefix plus the 8 bits of the family,
/// and the network address.
pub open spec fn net_entry(fam: u8, addr: Seq<u8>, p: u8) -> (u32, u8, Seq<u8>) {
    ((p + 8) as u32, fam, network_bytes(addr, p as nat))
}

proof fn lemma_mask_keeps_high_bits(b: u8, s: u8, t: u8)
    requires
        1 <= s <= t <= 7,
    ensures
        (((b & ((0xFFu8 << s) as u8)) >> t) & 1u8) == ((b >> t) & 1u8),
{
    assert(1 <= s && s <= t && t <= 7 ==> (((b & ((0xFFu8 << s) as u8)) >> t) & 1u8) == ((b >> t) & 1u8)) by (bit_vector);
}

/// The network address keeps every bit of the address inside the prefix.
proof fn lemma_network_bits(addr: Seq<u8>, p: nat, k: int)
    requires
        0 <= k < p,
        k < 8 * addr.len(),
    ensures
        bit_of(network_bytes(addr, p), k) == bit_of(addr, k),
{
    let i = k / 8;
    let j = k % 8;
    let nb = network_bytes(addr, p);
    assert(nb[i] == mask_byte(addr[i], i, p));
    if 8 * (i + 1) <= p {
    } else {
        let r = p - 8 * i;
        assert(1 <= r <= 7);
        assert(j < r);
        lemma_mask_keeps_high_bits(addr[i], (8 - r) as u8, (7 - j) as u8);
    }
}

/// The trie entry of a CIDR network covers exactly the addresses inside
/// the network: a key of the same family whose first `p` address bits are
/// those of the network's address, and no other key.
pub proof fn law_network_entry_covers_its_addresses(fam: u8, addr: Seq<u8>, p: u8, fam2: u8, addr2: Seq<u8>)
    requires
        addr.len() == 16,
        addr2.len() == 16,
        p <= 128,
    ensures
        prefix_equal(key_data(fam, network_bytes(addr, p as nat)), key_data(fam2, addr2), (p + 8) as nat) <==> {
            &&& fam == fam2
            &&& forall|k: int| 0 <= k < p ==> #[trigger] bit_of(addr, k) == bit_of(addr2, k)
        },
{
    let n = network_bytes(addr, p as nat);
    let a = key_data(fam, n);
    let b = key_data(fam2, addr2);
    let bits = (p + 8) as nat;
    law_prefix_match_is_bitwise(a, b, bits);
    assert(a.len() == 17 && b.len() == 17);
    assert forall|k: int| 8 <= k < bits implies bit_of(a, k) == bit_of(n, k - 8) && bit_of(b, k) == bit_of(addr2, k - 8) by {
        assert(k / 8 == (k - 8) / 8 + 1 && k % 8 == (k - 8) % 8);
        assert(a[k / 8] == n[(k - 8) / 8]);
        assert(b[k / 8] == addr2[(k - 8) / 8]);
    }
    if prefix_equal(a, b, bits) {
        assert forall|k: int| 0 <= k < p implies #[trigger] bit_of(addr, k) == bit_of(addr2, k) by {
            lemma_network_bits(addr, p as nat, k);
            assert(bit_of(a, k + 8) == bit_of(b, k + 8));
            assert(k + 8 - 8 == k);
        }
        lemma_byte_bits(a, b, bits, 0);
        lemma_all_bits_agree(a[0], b[0]);
    }
    if fam == fam2 && forall|k: int| 0 <= k < p ==> #[trigger] bit_of(addr, k) == bit_of(addr2, k) {
        assert forall|k: int| 0 <= k < bits implies #[trigger] bit_of(a, k) == bit_of(b, k) by {
            if k < 8 {
                assert(k / 8 == 0);
            } else {
                lemma_network_bits(addr, p as nat, k - 8);
                assert(bit_of(addr, k - 8) == bit_of(addr2, k - 8));
            }
        }
    }
}

/// How a line of the block-list file is read: blank lines and `#` comments
/// are skipped; a CIDR network gives its entry; any other text is to be read
/// as a single address.
pub enum LineKind {
    Skip,
    Network((u32, u8, Seq<u8>)),
    Address(Seq<char>),
}

pub open spec fn line_kind(line: Seq<char>) -> LineKind {
    let t = trim(line);
    if t.len() == 0 || t[0] == '#' {
        LineKind::Skip
    } else {
        match ipnet_parse(t) {
            Some((fam, addr, p)) => LineKind::Network(net_entry(fam, addr, p)),
            None => LineKind::Address(t),
        }
    }
}

/// What adding a line did.
#[derive(Debug)]
pub enum LineOutcome {
    /// A blank line or a comment.
    Skipped,
    /// A CIDR network; its entry is now in the list.
    Added,
    /// Not a CIDR network: this trimmed text is to be read as a single address.
    Address(String),
}

/// Entries after adding one: unchanged if it is already there.
pub open spec fn with_entry(es: Seq<(u32, u8, Seq<u8>)>, e: (u32, u8, Seq<u8>)) -> Seq<(u32, u8, Seq<u8>)> {
    if es.contains(e) { es } else { es.push(e) }
}

fn network_of(addr: &[u8; 16], p: u8) -> (r: [u8; 16])
    ensures
        r@ == network_bytes(addr@, p as nat),
{
    let mut out = [0u8; 16];
    let mut i: usize = 0;
    while i < 16
        invariant
            i <= 16,
            forall|j: int| 0 <= j < i ==> out@[j] == mask_byte(addr@[j], j, p as nat),
        decreases 16 - i,
    {
        let b = addr[i];
        let lo: u32 = 8 * (i as u32);
        let v: u8 = if lo + 8 <= p as u32 {
            b
        } else if lo >= p as u32 {
            0
        } else {
            let sh: u8 = (8 - (p as u32 - lo)) as u8;
            b & (0xFFu8 << sh)
        };
        out[i] = v;
        i = i + 1;
    }
    assert(out@ =~= network_bytes(addr@, p as nat));
    out
}

fn same_entry(x: &LpmEntry, y: &LpmEntry) -> (r: bool)
    ensures
        r == (entry_view(*x) == entry_view(*y)),
{
    if x.prefix_len != y.prefix_len || x.key.ip_type != y.key.ip_type {
        return false;
    }
    let mut i: usize = 0;
    while i < 16
        invariant
            i <= 16,
            forall|j: int| 0 <= j < i ==> x.key.addr@[j] == y.key.addr@[j],
        decreases 16 - i,
    {
        if x.key.addr[i] != y.key.addr[i] {
            return false;
        }
        i = i + 1;
    }
    assert(x.key.addr@ =~= y.key.addr@);
    true
}

/// Views of a sequence of entries.
pub open spec fn entries_view(es: Seq<LpmEntry>) -> Seq<(u32, u8, Seq<u8>)> {
    es.map_values(|e: LpmEntry| entry_view(e))
}

impl Blocklist {
    /// An empty block list.
    pub fn new() -> (r: Blocklist)
        ensures
            r.entries@.len() == 0,
    {
        Blocklist { entries: Vec::new() }
    }

    fn insert_entry(&mut self, e: LpmEntry)
        ensures
            entries_view(final(self).entries@) == with_entry(entries_view(old(self).entries@), entry_view(e)),
    {
        let mut seen = false;
        let mut k: usize = 0;
        while k < self.entries.len()
            invariant
                k <= self.entries@.len(),
                seen == (exists|t: int| 0 <= t < k && entry_view(self.entries@[t]) == entry_view(e)),
            decreases self.entries@.len() - k,
        {
            if same_entry(&self.entries[k], &e) {
                seen = true;
            }
            k = k + 1;
        }
        proof {
            let ev = entries_view(self.entries@);
            if seen {
                let t = choose|t: int| 0 <= t < k && entry_view(self.entries@[t]) == entry_view(e);
                assert(ev[t] == entry_view(e));
            } else {
                if ev.contains(entry_view(e)) {
                    let t = choose|t: int| 0 <= t < ev.len() && ev[t] == entry_view(e);
                    assert(entry_view(self.entries@[t]) == entry_view(e));
                }
            }
        }
        if !seen {
            let ghost prev = self.entries@;
            self.entries.push(e);
            assert(entries_view(self.entries@) =~= entries_view(prev).push(entry_view(e)));
        }
    }

    /// Reads one line of the block-list file: a CIDR network is added
    /// (each network once, by its network address and prefix).
    pub fn add_line(&mut self, line: &str) -> (r: LineOutcome)
        ensures
            match line_kind(line@) {
                LineKind::Skip => r is Skipped && final(self).entries@ == old(self).entries@,
                LineKind::Network(e) => r is Added
                    && entries_view(final(self).entries@) == with_entry(entries_view(old(self).entries@), e),
                LineKind::Address(t) => (r matches LineOutcome::Address(s) && s@ == t)
                    && final(self).entries@ == old(self).entries@,
            },
    {
        let cs = chars_of(line);
        let (a, b) = trim_bounds(cs.as_slice());
        if a == b || cs[a] == '#' {
            return LineOutcome::Skipped;
        }
        let t = string_of(cs.as_slice(), a, b);
        match parse_ipnet(t.as_str()) {
            Some((fam, addr, p)) => {
                let net = network_of(&addr, p);
                self.insert_entry(LpmEntry { prefix_len: (p as u32) + 8, key: IpKey { ip_type: fam, addr: net } });
                LineOutcome::Added
            },
            None => LineOutcome::Address(t),
        }
    }

    /// Adds a single address (family 4 or 6, IPv4 in the first four bytes)
    /// as a /32 or /128 network.
    pub fn add_address(&mut self, ip_type: u8, addr: [u8; 16])
        ensures
            entries_view(final(self).entries@) == with_entry(
                entries_view(old(self).entries@),
                net_entry(ip_type, addr@, if ip_type == 4 { 32u8 } else { 128u8 }),
            ),
    {
        let p: u8 = if ip_type == 4 { 32 } else { 128 };
        let net = network_of(&addr, p);
        self.insert_entry(LpmEntry { prefix_len: (p as u32) + 8, key: IpKey { ip_type, addr: net } });
    }
}

/// Each network is held once: adding an entry to a list without repeats
/// gives a list without repeats that holds it, and adding one already held
/// changes nothing.
pub proof fn law_entries_stay_distinct(es: Seq<(u32, u8, Seq<u8>)>, e: (u32, u8, Seq<u8>))
    requires
        es.no_duplicates(),
    ensures
        with_entry(es, e).no_duplicates(),
        with_entry(es, e).contains(e),
        es.contains(e) ==> with_entry(es, e) == es,
{
    if !es.contains(e) {
        let r = es.push(e);
        assert(r[es.len() as int] == e);
        assert forall|i: int, j: int| 0 <= i < r.len() && 0 <= j < r.len() && i != j implies r[i] != r[j] by {
            if i < es.len() && j < es.len() {
                assert(r[i] == es[i] && r[j] == es[j]);
            } else if i == es.len() {
                assert(r[j] == es[j]);
            } else {
                assert(r[i] == es[i]);
            }
        }
    }
}

} // verus!

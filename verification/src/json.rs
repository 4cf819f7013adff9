//! Byte-level JSON framing of strings, numbers and byte arrays in the
//! compact form that `serde_json` writes.
use vstd::prelude::*;
use vstd::string::StringSliceAdditionalSpecFns;

verus! {

/// ASCII decimal digits of a natural number.
pub open spec fn dec_ascii(n: nat) -> Seq<u8>
    decreases n,
{
    if n < 10 {
        seq![(48 + n) as u8]
    } else {
        dec_ascii(n / 10).push((48 + n % 10) as u8)
    }
}

/// Lower-case ASCII hex digit of a nibble.
pub open spec fn hex_ascii(d: nat) -> u8 {
    if d < 10 { (48 + d) as u8 } else { (87 + d) as u8 }
}

/// How one byte of a string's UTF-8 encoding appears inside a JSON string.
pub open spec fn json_escape_byte(b: u8) -> Seq<u8> {
    if b == 34 {
        seq![92u8, 34u8]
    } else if b == 92 {
        seq![92u8, 92u8]
    } else if b == 8 {
        seq![92u8, 98u8]
    } else if b == 9 {
        seq![92u8, 116u8]
    } else if b == 10 {
        seq![92u8, 110u8]
    } else if b == 12 {
        seq![92u8, 102u8]
    } else if b == 13 {
        seq![92u8, 114u8]
    } else if b < 32 {
        seq![92u8, 117u8, 48u8, 48u8, hex_ascii((b / 16) as nat), hex_ascii((b % 16) as nat)]
    } else {
        seq![b]
    }
}

/// Escaped contents of a JSON string.
pub open spec fn json_escape(bytes: Seq<u8>) -> Seq<u8>
    decreases bytes.len(),
{
    if bytes.len() == 0 {
        Seq::empty()
    } else {
        json_escape(bytes.drop_last()) + json_escape_byte(bytes.last())
    }
}

/// A JSON string literal holding the given UTF-8 bytes.
pub open spec fn json_string(bytes: Seq<u8>) -> Seq<u8> {
    seq![34u8] + json_escape(bytes) + seq![34u8]
}

/// Comma-separated decimal numbers of a byte sequence.
pub open spec fn dec_list(bytes: Seq<u8>) -> Seq<u8>
    decreases bytes.len(),
{
    if bytes.len() == 0 {
        Seq::empty()
    } else if bytes.len() == 1 {
        dec_ascii(bytes[0] as nat)
    } else {
        dec_list(bytes.drop_last()) + seq![44u8] + dec_ascii(bytes.last() as nat)
    }
}

/// A JSON array of the bytes as numbers, e.g. `[1,2,255]`.
pub open spec fn json_u8_array(bytes: Seq<u8>) -> Seq<u8> {
    seq![91u8] + dec_list(bytes) + seq![93u8]
}

/// Appends all of `src` to `out`.
pub fn push_bytes(out: &mut Vec<u8>, src: &[u8])
    ensures
        final(out)@ == old(out)@ + src@,
{
    let mut i: usize = 0;
    while i < src.len()
        invariant
            i <= src@.len(),
            out@ == old(out)@ + src@.take(i as int),
        decreases src@.len() - i,
    {
        out.push(src[i]);
        assert(src@.take(i + 1) =~= src@.take(i as int).push(src@[i as int]));
        i = i + 1;
    }
    assert(src@.take(i as int) =~= src@);
}

/// Appends the ASCII decimal digits of `n`.
pub fn push_dec(out: &mut Vec<u8>, n: u64)
    ensures
        final(out)@ == old(out)@ + dec_ascii(n as nat),
    decreases n,
{
    if n >= 10 {
        push_dec(out, n / 10);
    }
    let d: u8 = (n % 10) as u8;
    out.push(48u8 + d);
    proof {
        if n >= 10 {
            assert(old(out)@ + dec_ascii(n as nat) =~= old(out)@ + dec_ascii((n / 10) as nat) + seq![(48 + n % 10) as u8]);
        } else {
            assert(old(out)@ + dec_ascii(n as nat) =~= old(out)@ + seq![(48 + n) as u8]);
        }
    }
}

fn hex_nibble(d: u8) -> (r: u8)
    requires
        d < 16,
    ensures
        r == hex_ascii(d as nat),
{
    if d < 10 { 48 + d } else { 87 + d }
}

/// Appends the escaped form of one byte.
fn push_escaped_byte(out: &mut Vec<u8>, b: u8)
    ensures
        final(out)@ == old(out)@ + json_escape_byte(b),
{
    if b == 34 || b == 92 {
        out.push(92);
        out.push(b);
    } else if b == 8 {
        out.push(92);
        out.push(98);
    } else if b == 9 {
        out.push(92);
        out.push(116);
    } else if b == 10 {
        out.push(92);
        out.push(110);
    } else if b == 12 {
        out.push(92);
        out.push(102);
    } else if b == 13 {
        out.push(92);
        out.push(114);
    } else if b < 32 {
        out.push(92);
        out.push(117);
        out.push(48);
        out.push(48);
        out.push(hex_nibble(b / 16));
        out.push(hex_nibble(b % 16));
    } else {
        out.push(b);
    }
    assert(final(out)@ =~= old(out)@ + json_escape_byte(b));
}

/// Appends `s` as a JSON string literal.
pub fn push_json_string(out: &mut Vec<u8>, s: &str)
    ensures
        final(out)@ == old(out)@ + json_string(s.spec_bytes()),
{
    let bytes = s.as_bytes();
    out.push(34);
    let ghost start = out@;
    let mut i: usize = 0;
    while i < bytes.len()
        invariant
            i <= bytes@.len(),
            out@ == start + json_escape(bytes@.take(i as int)),
        decreases bytes@.len() - i,
    {
        push_escaped_byte(out, bytes[i]);
        assert(bytes@.take(i + 1).drop_last() =~= bytes@.take(i as int));
        assert(out@ =~= start + json_escape(bytes@.take(i + 1)));
        i = i + 1;
    }
    assert(bytes@.take(i as int) =~= bytes@);
    out.push(34);
    assert(out@ =~= old(out)@ + json_string(s.spec_bytes()));
}

/// Appends `bytes` as a JSON array of numbers.
pub fn push_u8_array(out: &mut Vec<u8>, bytes: &[u8])
    ensures
        final(out)@ == old(out)@ + json_u8_array(bytes@),
{
    out.push(91);
    let ghost start = out@;
    let mut i: usize = 0;
    while i < bytes.len()
        invariant
            i <= bytes@.len(),
            out@ == start + dec_list(bytes@.take(i as int)),
        decreases bytes@.len() - i,
    {
        if i > 0 {
            out.push(44);
        }
        push_dec(out, bytes[i] as u64);
        proof {
            let t = bytes@.take(i + 1);
            assert(t.drop_last() =~= bytes@.take(i as int));
            if i == 0 {
                assert(bytes@.take(i as int) =~= Seq::<u8>::empty());
                assert(out@ =~= start + dec_list(t));
            } else {
                assert(out@ =~= start + dec_list(t));
            }
        }
        i = i + 1;
    }
    assert(bytes@.take(i as int) =~= bytes@);
    out.push(93);
    assert(out@ =~= old(out)@ + json_u8_array(bytes@));
}

} // verus!

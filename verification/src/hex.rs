//! Hexadecimal strings: lower-case encoding of bytes and decoding of
//! two-digit groups, as used for addresses and digests.
use vstd::prelude::*;
use vstd::utf8::*;
use vstd::string::StringSliceAdditionalSpecFns;
use std::num::ParseIntError;
use crate::text::{ascii_lower, ascii_lower_char, hex_char, lemma_ascii_boundaries, push_char};

verus! {

#[verifier::external_type_specification]
#[verifier::external_body]
pub struct ExParseIntError(ParseIntError);

/// The two lower-case hex characters of a byte.
pub open spec fn hex_byte(b: u8) -> Seq<char> {
    seq![hex_char((b / 16) as nat), hex_char((b % 16) as nat)]
}

/// Lower-case hex rendering of a byte sequence, two characters per byte.
pub open spec fn hex_lower(bytes: Seq<u8>) -> Seq<char>
    decreases bytes.len(),
{
    if bytes.len() == 0 {
        Seq::empty()
    } else {
        hex_lower(bytes.drop_last()) + hex_byte(bytes.last())
    }
}

/// Value of an ASCII hex digit byte (either case), if it is one.
pub open spec fn hex_digit(b: u8) -> Option<nat> {
    if 48 <= b <= 57 {
        Some((b - 48) as nat)
    } else if 97 <= b <= 102 {
        Some((b - 87) as nat)
    } else if 65 <= b <= 70 {
        Some((b - 55) as nat)
    } else {
        None
    }
}

/// Whether every byte is a hex digit.
pub open spec fn all_hex_digits(b: Seq<u8>) -> bool {
    forall|i: int| 0 <= i < b.len() ==> (#[trigger] hex_digit(b[i])) is Some
}

/// Base-16 value of a sequence of hex digit bytes (most significant first).
pub open spec fn hex_value(b: Seq<u8>) -> nat
    decreases b.len(),
{
    if b.len() == 0 {
        0
    } else {
        16 * hex_value(b.drop_last()) + hex_digit(b.last()).unwrap()
    }
}

/// What `u8::from_str_radix(s, 16)` yields for a string with these bytes:
/// an optional `+`, then at least one hex digit, with a value that fits a byte.
pub open spec fn radix16_u8(b: Seq<u8>) -> Option<u8> {
    let digits = if b.len() > 0 && b[0] == 43 { b.drop_first() } else { b };
    if digits.len() > 0 && all_hex_digits(digits) && hex_value(digits) <= 255 {
        Some(hex_value(digits) as u8)
    } else {
        None
    }
}

/// `u8::from_str_radix(s, 16)`. Per its documentation the string is an
/// optional `+` sign followed by digits of the radix (`0-9`, `a-f`, `A-F`);
/// anything else, an empty digit string, or a value above 255 is an error.
/// The contract states the value on success and when an error comes, over
/// the string's UTF-8 bytes; it says nothing of the error's kind.
#[verifier::external_body]
pub(crate) fn u8_from_hex_str(s: &str) -> (r: Result<u8, ParseIntError>)
    ensures
        r is Ok <==> radix16_u8(s.spec_bytes()) is Some,
        r matches Ok(v) ==> radix16_u8(s.spec_bytes()) == Some(v),
{
    u8::from_str_radix(s, 16)
}

/// Lower-case hex encoding of `bytes` (two characters per byte).
pub fn encode(bytes: &[u8]) -> (r: String)
    ensures
        r@ == hex_lower(bytes@),
{
    let mut s = String::new();
    let mut i: usize = 0;
    while i < bytes.len()
        invariant
            0 <= i <= bytes@.len(),
            s@ == hex_lower(bytes@.take(i as int)),
        decreases bytes@.len() - i,
    {
        let b = bytes[i];
        let hi = b / 16;
        let lo = b % 16;
        let c1 = if hi < 10 { (48u8 + hi) as char } else { (87u8 + hi) as char };
        let c2 = if lo < 10 { (48u8 + lo) as char } else { (87u8 + lo) as char };
        push_char(&mut s, c1);
        push_char(&mut s, c2);
        assert(bytes@.take(i + 1).drop_last() =~= bytes@.take(i as int));
        assert(s@ =~= hex_lower(bytes@.take(i + 1)));
        i = i + 1;
    }
    assert(bytes@.take(i as int) =~= bytes@);
    s
}


/// Whether `b` has even length and a character boundary at every even offset.
spec fn even_char_boundaries(b: Seq<u8>) -> bool {
    &&& b.len() % 2 == 0
    &&& forall|i: int| 0 <= i <= b.len() && i % 2 == 0 ==> #[trigger] is_char_boundary(b, i)
}

/// Whether reading `b` as two-byte groups from offset `i` on, up to the end
/// or up to the first group that is not a base-16 `u8`, only ever cuts a
/// whole group that ends on a character boundary.
pub open spec fn hex_groups_sliceable(b: Seq<u8>, i: int) -> bool
    decreases b.len() - i,
{
    if i >= b.len() {
        true
    } else if i + 2 > b.len() || !is_char_boundary(b, i + 2) {
        false
    } else if radix16_u8(b.subrange(i, i + 2)) is None {
        true
    } else {
        hex_groups_sliceable(b, i + 2)
    }
}

proof fn lemma_even_boundaries_sliceable(b: Seq<u8>, i: int)
    requires
        even_char_boundaries(b),
        0 <= i,
        i % 2 == 0,
    ensures
        hex_groups_sliceable(b, i),
    decreases b.len() - i,
{
    if i < b.len() {
        assert(is_char_boundary(b, i + 2));
        lemma_even_boundaries_sliceable(b, i + 2);
    }
}

/// Decoding of two-digit hex groups, left to right; `None` as soon as a
/// group is not a valid `u8` in base 16.
pub open spec fn hex_decode(b: Seq<u8>) -> Option<Seq<u8>>
    decreases b.len(),
{
    if b.len() < 2 {
        Some(Seq::empty())
    } else {
        match radix16_u8(b.take(2)) {
            Some(v) => match hex_decode(b.skip(2)) {
                Some(rest) => Some(seq![v] + rest),
                None => None,
            },
            None => None,
        }
    }
}

proof fn lemma_boundary_in_suffix(b: Seq<u8>, i: int)
    requires
        valid_utf8(b),
        0 <= i,
        i + 2 <= b.len(),
        is_char_boundary(b, i),
        is_char_boundary(b, i + 2),
    ensures
        valid_utf8(b.subrange(i, b.len() as int)),
        is_char_boundary(b.subrange(i, b.len() as int), 2),
{
    broadcast use vstd::utf8::group_utf8_lib;
    let sub = b.subrange(i, b.len() as int);
    valid_utf8_split(b, i);
    if i + 2 == b.len() {
        is_char_boundary_start_end_of_seq(sub);
    } else {
        is_char_boundary_iff_not_is_continuation_byte(b, i + 2);
        is_char_boundary_iff_not_is_continuation_byte(sub, 2);
    }
}

/// Decodes a string of two-digit hex groups into bytes. The first group
/// that is not a valid base-16 `u8` gives its parse error.
pub fn decode(s: &str) -> (r: Result<Vec<u8>, ParseIntError>)
    requires
        hex_groups_sliceable(s.spec_bytes(), 0),
    ensures
        r is Ok <==> hex_decode(s.spec_bytes()) is Some,
        r matches Ok(v) ==> hex_decode(s.spec_bytes()) == Some(v@),
{
    broadcast use vstd::utf8::group_utf8_lib;
    let bytes = s.as_bytes();
    let ghost b = s.spec_bytes();
    let n = bytes.len();
    let mut out: Vec<u8> = Vec::new();
    let mut rest: &str = s;
    let mut i: usize = 0;
    proof {
        assert(valid_utf8(b));
        assert(b.skip(0) =~= b);
        assert(b.subrange(0, b.len() as int) =~= b);
    }
    while i < n
        invariant
            n == b.len(),
            b == s.spec_bytes(),
            hex_groups_sliceable(b, i as int),
            is_char_boundary(b, i as int),
            valid_utf8(b),
            i <= n,
            rest.spec_bytes() == b.subrange(i as int, n as int),
            match hex_decode(b.skip(i as int)) {
                Some(r) => hex_decode(b) == Some(out@ + r),
                None => hex_decode(b) is None,
            },
        decreases n - i,
    {
        proof {
            assert(i + 2 <= n && is_char_boundary(b, i + 2));
            lemma_boundary_in_suffix(b, i as int);
        }
        let (piece, tail) = rest.split_at(2);
        proof {
            assert(piece.spec_bytes() =~= b.skip(i as int).take(2));
            assert(b.skip(i as int).take(2) =~= b.subrange(i as int, i + 2));
            assert(b.skip(i as int).skip(2) =~= b.skip(i + 2));
            assert(tail.spec_bytes() =~= b.subrange(i + 2, n as int));
        }
        let ghost prev = out@;
        match u8_from_hex_str(piece) {
            Ok(v) => {
                out.push(v);
                proof {
                    match hex_decode(b.skip(i + 2)) {
                        Some(r2) => {
                            assert(out@ + r2 =~= prev + (seq![v] + r2));
                        },
                        None => {},
                    }
                }
                rest = tail;
                i = i + 2;
            },
            Err(e) => {
                assert(hex_decode(b.skip(i as int)) is None);
                return Err(e);
            },
        }
    }
    proof {
        assert(b.skip(i as int).len() == 0);
    }
    assert(out@ + Seq::<u8>::empty() =~= out@);
    Ok(out)
}

proof fn lemma_hex_lower_at(b: Seq<u8>)
    ensures
        hex_lower(b).len() == 2 * b.len(),
        forall|i: int| 0 <= i < b.len() ==> #[trigger] hex_lower(b)[2 * i] == hex_char((b[i] / 16) as nat)
            && hex_lower(b)[2 * i + 1] == hex_char((b[i] % 16) as nat),
    decreases b.len(),
{
    if b.len() > 0 {
        let d = b.drop_last();
        lemma_hex_lower_at(d);
        let h = hex_lower(b);
        assert(h == hex_lower(d) + hex_byte(b.last()));
        assert forall|i: int| 0 <= i < b.len() implies #[trigger] h[2 * i] == hex_char((b[i] / 16) as nat)
            && h[2 * i + 1] == hex_char((b[i] % 16) as nat) by {
            if i < d.len() {
                assert(b[i] == d[i]);
                assert(h[2 * i] == hex_lower(d)[2 * i]);
                assert(h[2 * i + 1] == hex_lower(d)[2 * i + 1]);
            } else {
                assert(h[2 * i] == hex_byte(b.last())[0]);
                assert(h[2 * i + 1] == hex_byte(b.last())[1]);
            }
        }
    }
}

proof fn lemma_hex_char_code(d: nat)
    requires
        d < 16,
    ensures
        '\0' <= hex_char(d) <= '\u{7f}',
        hex_digit(hex_char(d) as u8) == Some(d),
        hex_char(d) as u8 != 43,
{
}

proof fn lemma_radix16_pair(c1: u8, c2: u8, hi: nat, lo: nat)
    requires
        hex_digit(c1) == Some(hi),
        hex_digit(c2) == Some(lo),
        c1 != 43,
    ensures
        radix16_u8(seq![c1, c2]) == Some((16 * hi + lo) as u8),
{
    let s = seq![c1, c2];
    assert(s.drop_last() =~= seq![c1]);
    assert(seq![c1].drop_last() =~= Seq::<u8>::empty());
    assert(seq![c1].last() == c1);
    assert(hex_value(Seq::<u8>::empty()) == 0);
    assert(hex_value(seq![c1]) == hi);
    assert(hex_value(s) == 16 * hi + lo);
    assert(all_hex_digits(s));
}

proof fn lemma_hex_decode_pairs(e: Seq<u8>, b: Seq<u8>)
    requires
        e.len() == 2 * b.len(),
        forall|i: int| 0 <= i < b.len() ==> #[trigger] radix16_u8(e.subrange(2 * i, 2 * i + 2)) == Some(b[i]),
    ensures
        hex_decode(e) == Some(b),
    decreases b.len(),
{
    if b.len() == 0 {
        assert(b =~= Seq::<u8>::empty());
    } else {
        let e2 = e.skip(2);
        let b2 = b.drop_first();
        assert forall|i: int| 0 <= i < b2.len() implies #[trigger] radix16_u8(e2.subrange(2 * i, 2 * i + 2)) == Some(b2[i]) by {
            assert(e2.subrange(2 * i, 2 * i + 2) =~= e.subrange(2 * (i + 1), 2 * (i + 1) + 2));
            assert(radix16_u8(e.subrange(2 * (i + 1), 2 * (i + 1) + 2)) == Some(b[i + 1]));
        }
        lemma_hex_decode_pairs(e2, b2);
        assert(e.take(2) =~= e.subrange(0, 2));
        assert(radix16_u8(e.subrange(2 * 0int, 2 * 0int + 2)) == Some(b[0]));
        assert(seq![b[0]] + b2 =~= b);
    }
}

/// Decoding the hex text of bytes gives the bytes back, and that text can
/// be cut into two-character groups.
pub proof fn law_decode_inverts_encode(b: Seq<u8>)
    ensures
        hex_decode(encode_utf8(hex_lower(b))) == Some(b),
        hex_groups_sliceable(encode_utf8(hex_lower(b)), 0),
{
    broadcast use vstd::utf8::group_utf8_lib;
    let h = hex_lower(b);
    lemma_hex_lower_at(b);
    assert forall|k: int| 0 <= k < h.len() implies '\0' <= #[trigger] h[k] <= '\u{7f}' by {
        let i = k / 2;
        assert(0 <= i < b.len());
        if k % 2 == 0 {
            assert(k == 2 * i);
            assert(h[2 * i] == hex_char((b[i] / 16) as nat));
            lemma_hex_char_code((b[i] / 16) as nat);
        } else {
            assert(k == 2 * i + 1);
            assert(h[2 * i] == hex_char((b[i] / 16) as nat));
            assert(h[2 * i + 1] == hex_char((b[i] % 16) as nat));
            lemma_hex_char_code((b[i] % 16) as nat);
        }
    }
    assert(is_ascii_chars(h));
    is_ascii_chars_encode_utf8(h);
    let e = encode_utf8(h);
    assert forall|i: int| 0 <= i < b.len() implies #[trigger] radix16_u8(e.subrange(2 * i, 2 * i + 2)) == Some(b[i]) by {
        let hi = (b[i] / 16) as nat;
        let lo = (b[i] % 16) as nat;
        lemma_hex_char_code(hi);
        lemma_hex_char_code(lo);
        assert(h[2 * i] == hex_char(hi));
        assert(e[2 * i] == h[2 * i] as u8);
        assert(e[2 * i + 1] == h[2 * i + 1] as u8);
        assert(e.subrange(2 * i, 2 * i + 2) =~= seq![e[2 * i], e[2 * i + 1]]);
        lemma_radix16_pair(e[2 * i], e[2 * i + 1], hi, lo);
    }
    lemma_hex_decode_pairs(e, b);
    encode_utf8_valid_utf8(h);
    assert forall|i: int| 0 <= i <= e.len() && i % 2 == 0 implies #[trigger] is_char_boundary(e, i) by {
        if i < e.len() {
            is_char_boundary_iff_not_is_continuation_byte(e, i);
            assert(e[i] == h[i] as u8);
        } else {
            is_char_boundary_start_end_of_seq(e);
        }
    }
    lemma_even_boundaries_sliceable(e, 0);
}

/// Whether a character is an ASCII hex digit (`0-9`, `a-f`, `A-F`).
pub open spec fn is_hex_char(c: char) -> bool {
    ('0' <= c <= '9') || ('a' <= c <= 'f') || ('A' <= c <= 'F')
}

proof fn lemma_hex_char_back(c: char)
    requires
        is_hex_char(c),
    ensures
        hex_digit(c as u8) matches Some(d) && d < 16 && hex_char(d) == ascii_lower_char(c),
        c as u8 != 43,
        '\0' <= c <= '\u{7f}',
{
}

/// Encoding the bytes that a hex text decodes to gives the text back in
/// lower case: a text of hex digits of even length decodes without fault,
/// and its bytes encode to the text with `A`-`F` lowered.
pub proof fn law_encode_inverts_decode(s: Seq<char>)
    requires
        s.len() % 2 == 0,
        forall|i: int| 0 <= i < s.len() ==> #[trigger] is_hex_char(s[i]),
    ensures
        hex_groups_sliceable(encode_utf8(s), 0),
        hex_decode(encode_utf8(s)) matches Some(v) && hex_lower(v) == ascii_lower(s),
{
    broadcast use vstd::utf8::group_utf8_lib;
    let e = encode_utf8(s);
    assert(is_ascii_chars(s)) by {
        assert forall|i: int| 0 <= i < s.len() implies '\0' <= #[trigger] s[i] <= '\u{7f}' by {
            lemma_hex_char_back(s[i]);
        }
    }
    lemma_ascii_boundaries(s);
    is_ascii_chars_encode_utf8(s);
    assert(even_char_boundaries(e));
    lemma_even_boundaries_sliceable(e, 0);
    let n = s.len() / 2;
    let v = Seq::new(n as nat, |i: int| (16 * hex_digit(e[2 * i]).unwrap() + hex_digit(e[2 * i + 1]).unwrap()) as u8);
    assert forall|i: int| 0 <= i < v.len() implies #[trigger] radix16_u8(e.subrange(2 * i, 2 * i + 2)) == Some(v[i]) by {
        lemma_hex_char_back(s[2 * i]);
        lemma_hex_char_back(s[2 * i + 1]);
        assert(e[2 * i] == s[2 * i] as u8);
        assert(e[2 * i + 1] == s[2 * i + 1] as u8);
        assert(e.subrange(2 * i, 2 * i + 2) =~= seq![e[2 * i], e[2 * i + 1]]);
        lemma_radix16_pair(e[2 * i], e[2 * i + 1], hex_digit(e[2 * i]).unwrap(), hex_digit(e[2 * i + 1]).unwrap());
    }
    lemma_hex_decode_pairs(e, v);
    lemma_hex_lower_at(v);
    assert(hex_lower(v) =~= ascii_lower(s)) by {
        assert forall|k: int| 0 <= k < s.len() implies #[trigger] hex_lower(v)[k] == ascii_lower(s)[k] by {
            let i = k / 2;
            lemma_hex_char_back(s[2 * i]);
            lemma_hex_char_back(s[2 * i + 1]);
            assert(e[2 * i] == s[2 * i] as u8);
            assert(e[2 * i + 1] == s[2 * i + 1] as u8);
            let hi = hex_digit(e[2 * i]).unwrap();
            let lo = hex_digit(e[2 * i + 1]).unwrap();
            assert(v[i] == (16 * hi + lo) as u8);
            assert(v[i] / 16 == hi && v[i] % 16 == lo);
            assert(0 <= i < v.len());
            assert(hex_lower(v)[2 * i] == hex_char((v[i] / 16) as nat));
            assert(hex_lower(v)[2 * i + 1] == hex_char((v[i] % 16) as nat));
            assert(hex_char(hi) == ascii_lower_char(s[2 * i]));
            assert(hex_char(lo) == ascii_lower_char(s[2 * i + 1]));
            if k % 2 == 0 {
                assert(k == 2 * i);
                assert(ascii_lower(s)[k] == ascii_lower_char(s[k]));
            } else {
                assert(k == 2 * i + 1);
                assert(ascii_lower(s)[k] == ascii_lower_char(s[k]));
            }
        }
    }
}

} // verus!

//! The Luhn checksum used to tell real card numbers from look-alikes.
use vstd::prelude::*;

verus! {

/// Whether a character is an ASCII decimal digit.
pub open spec fn is_ascii_digit(c: char) -> bool {
    '0' <= c && c <= '9'
}

/// The values of the ASCII digits of a text, in order; other characters are skipped.
pub open spec fn digit_values(s: Seq<char>) -> Seq<nat>
    decreases s.len(),
{
    if s.len() == 0 {
        Seq::empty()
    } else if is_ascii_digit(s.last()) {
        digit_values(s.drop_last()).push((s.last() as nat - 48) as nat)
    } else {
        digit_values(s.drop_last())
    }
}

/// A digit's contribution: every second digit counted from the right is
/// doubled, and 9 is subtracted when the double exceeds 9.
pub open spec fn luhn_term(d: nat, doubled: bool) -> nat {
    if doubled {
        if 2 * d > 9 { (2 * d - 9) as nat } else { 2 * d }
    } else {
        d
    }
}

/// The Luhn sum of a digit sequence (the last digit is position 0).
pub open spec fn luhn_sum(ds: Seq<nat>) -> nat
    decreases ds.len(),
{
    if ds.len() == 0 {
        0
    } else {
        luhn_term(ds[0], (ds.len() - 1) % 2 == 1) + luhn_sum(ds.drop_first())
    }
}

/// Whether a text passes the card check: 13 to 19 digits whose Luhn sum is
/// a multiple of ten.
pub open spec fn luhn_valid(s: Seq<char>) -> bool {
    let ds = digit_values(s);
    13 <= ds.len() <= 19 && luhn_sum(ds) % 10 == 0
}

proof fn lemma_digit_values_bounded(s: Seq<char>)
    ensures
        digit_values(s).len() <= s.len(),
        forall|i: int| 0 <= i < digit_values(s).len() ==> #[trigger] digit_values(s)[i] < 10,
    decreases s.len(),
{
    if s.len() > 0 {
        lemma_digit_values_bounded(s.drop_last());
    }
}

proof fn lemma_digit_values_update(s: Seq<char>, k: int, c: char)
    requires
        0 <= k < s.len(),
        is_ascii_digit(s[k]),
        is_ascii_digit(c),
    ensures
        digit_values(s.take(k)).len() < digit_values(s).len(),
        digit_values(s).len() == digit_values(s.update(k, c)).len(),
        digit_values(s.update(k, c)) == digit_values(s).update(
            digit_values(s.take(k)).len() as int,
            (c as nat - 48) as nat,
        ),
        digit_values(s)[digit_values(s.take(k)).len() as int] == (s[k] as nat - 48) as nat,
    decreases s.len(),
{
    let u = s.update(k, c);
    let m = digit_values(s.take(k)).len() as int;
    if k == s.len() - 1 {
        assert(u.drop_last() =~= s.drop_last());
        assert(s.take(k) =~= s.drop_last());
        assert(u.last() == c);
        assert(digit_values(u) =~= digit_values(s).update(m, (c as nat - 48) as nat));
    } else {
        let d = s.drop_last();
        assert(u.drop_last() =~= d.update(k, c));
        assert(d.take(k) =~= s.take(k));
        assert(u.last() == s.last());
        assert(d[k] == s[k]);
        lemma_digit_values_update(d, k, c);
        if is_ascii_digit(s.last()) {
            assert(digit_values(u) =~= digit_values(s).update(m, (c as nat - 48) as nat));
        } else {
            assert(digit_values(u) =~= digit_values(s).update(m, (c as nat - 48) as nat));
        }
    }
}

proof fn lemma_luhn_sum_update(ds: Seq<nat>, m: int, v: nat)
    requires
        0 <= m < ds.len(),
    ensures
        luhn_sum(ds.update(m, v)) + luhn_term(ds[m], (ds.len() - 1 - m) % 2 == 1)
            == luhn_sum(ds) + luhn_term(v, (ds.len() - 1 - m) % 2 == 1),
    decreases ds.len(),
{
    let u = ds.update(m, v);
    if m == 0 {
        assert(u.drop_first() =~= ds.drop_first());
    } else {
        assert(u.drop_first() =~= ds.drop_first().update(m - 1, v));
        lemma_luhn_sum_update(ds.drop_first(), m - 1, v);
    }
}

/// The Luhn check catches every mistyped digit: when a text passes it,
/// changing any one of its digits to another digit makes it fail.
pub proof fn law_luhn_catches_single_digit_errors(s: Seq<char>, k: int, c: char)
    requires
        0 <= k < s.len(),
        is_ascii_digit(s[k]),
        is_ascii_digit(c),
        c != s[k],
        luhn_valid(s),
    ensures
        !luhn_valid(s.update(k, c)),
{
    lemma_digit_values_update(s, k, c);
    let ds = digit_values(s);
    let m = digit_values(s.take(k)).len() as int;
    let v = (c as nat - 48) as nat;
    let old_d = ds[m];
    let b = (ds.len() - 1 - m) % 2 == 1;
    lemma_luhn_sum_update(ds, m, v);
    assert(old_d != v);
    assert(old_d < 10 && v < 10);
    assert(luhn_term(old_d, b) != luhn_term(v, b));
    assert(luhn_term(old_d, b) < 10 && luhn_term(v, b) < 10);
}

/// Luhn check of a card number: the ASCII digits of the text (other
/// characters ignored) must number 13 to 19 and have a Luhn sum divisible by 10.
pub fn validate_luhn(card_number: &str) -> (r: bool)
    ensures
        r == luhn_valid(card_number@),
{
    broadcast use vstd::string::axiom_spec_iter;
    let mut digits: Vec<u32> = Vec::new();
    for c in it: card_number.chars()
        invariant
            it.seq() == card_number@,
            digits@.len() == digit_values(card_number@.take(it.index() as int)).len(),
            forall|i: int| 0 <= i < digits@.len() ==>
                #[trigger] digits@[i] as nat == digit_values(card_number@.take(it.index() as int))[i],
    {
        let ghost pre = card_number@.take(it.index() as int);
        assert(card_number@.take(it.index() + 1).drop_last() =~= pre);
        if '0' <= c && c <= '9' {
            let d: u32 = (c as u32) - 48;
            digits.push(d);
        }
    }
    let ghost s = card_number@;
    assert(s.take(s.len() as int) =~= s);
    let ghost ds = digit_values(s);
    proof {
        assert(digits@.map_values(|d: u32| d as nat) =~= ds);
        lemma_digit_values_bounded(s);
    }
    let n = digits.len();
    if n < 13 || n > 19 {
        return false;
    }
    let mut sum: u32 = 0;
    let mut i: usize = 0;
    assert(ds.skip(0) =~= ds);
    while i < n
        invariant
            n == digits@.len(),
            13 <= n <= 19,
            ds.len() == n,
            forall|j: int| 0 <= j < n ==> #[trigger] digits@[j] as nat == ds[j],
            forall|j: int| 0 <= j < ds.len() ==> #[trigger] ds[j] < 10,
            i <= n,
            sum as nat + luhn_sum(ds.skip(i as int)) == luhn_sum(ds),
            sum <= 9 * i,
        decreases n - i,
    {
        proof {
            let t = ds.skip(i as int);
            assert(t.drop_first() =~= ds.skip(i + 1));
            assert(t[0] == ds[i as int]);
            assert(t.len() - 1 == n - 1 - i);
        }
        let digit = digits[i];
        let term: u32 = if (n - 1 - i) % 2 == 1 {
            let d = digit * 2;
            if d > 9 { d - 9 } else { d }
        } else {
            digit
        };
        sum = sum + term;
        i = i + 1;
    }
    assert(ds.skip(n as int).len() == 0);
    sum % 10 == 0
}

} // verus!

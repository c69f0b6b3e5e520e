//! Decimal digit strings as exact representations of natural numbers.
//!
//! Prices come off the oracle as fixed-point integers; this module gives
//! the library an exact, verifiable notion of "the decimal rendering of a
//! value" so that rescaling by a power of ten is plain string surgery with
//! a proved meaning.

use vstd::prelude::*;

verus! {

/// ASCII code of the digit `0`.
pub const ZERO_DIGIT: u8 = 0x30;

/// Numeric value of one ASCII digit character (0 for anything else).
pub open spec fn digit_val(c: u8) -> nat {
    if 0x30 <= c && c <= 0x39 {
        (c - 0x30) as nat
    } else {
        0
    }
}

/// Every byte of `s` is an ASCII decimal digit.
pub open spec fn is_digits(s: Seq<u8>) -> bool {
    forall|i: int| 0 <= i < s.len() ==> 0x30 <= #[trigger] s[i] && s[i] <= 0x39
}

/// The natural number that the digit string `s` denotes, most significant
/// digit first.
pub open spec fn dv(s: Seq<u8>) -> nat
    decreases s.len(),
{
    if s.len() == 0 {
        0
    } else {
        dv(s.drop_last()) * 10 + digit_val(s.last())
    }
}

/// `10^n`.
pub open spec fn pow10(n: nat) -> nat
    decreases n,
{
    if n == 0 {
        1
    } else {
        10 * pow10((n - 1) as nat)
    }
}

/// The canonical (no leading zero) decimal rendering of `v`.
pub open spec fn digits_of(v: nat) -> Seq<u8>
    decreases v,
{
    if v < 10 {
        seq![(0x30 + v) as u8]
    } else {
        digits_of(v / 10).push((0x30 + v % 10) as u8)
    }
}

/// A digit string in canonical form: nonempty, and no leading zero unless
/// it is exactly "0".
pub open spec fn is_canonical(s: Seq<u8>) -> bool {
    &&& is_digits(s)
    &&& s.len() >= 1
    &&& (s.len() > 1 ==> s[0] != 0x30)
}

/// `s` left-padded with zero digits up to length `n` (unchanged if already
/// that long).
pub open spec fn pad_zeros(s: Seq<u8>, n: nat) -> Seq<u8> {
    if s.len() >= n {
        s
    } else {
        Seq::new((n - s.len()) as nat, |i: int| ZERO_DIGIT) + s
    }
}

/// A single digit character denotes its digit value.
pub proof fn lemma_dv_single(c: u8)
    ensures
        dv(seq![c]) == digit_val(c),
{
    let s = seq![c];
    assert(s.drop_last() =~= Seq::<u8>::empty());
    assert(s.last() == c);
    assert(dv(Seq::<u8>::empty()) == 0);
}

/// `pow10` is positive.
pub proof fn lemma_pow10_pos(n: nat)
    ensures
        pow10(n) >= 1,
    decreases n,
{
    if n > 0 {
        lemma_pow10_pos((n - 1) as nat);
    }
}

/// `pow10` is monotone.
pub proof fn lemma_pow10_mono(a: nat, b: nat)
    requires
        a <= b,
    ensures
        pow10(a) <= pow10(b),
    decreases b,
{
    if a < b {
        lemma_pow10_mono(a, (b - 1) as nat);
        lemma_pow10_pos((b - 1) as nat);
    }
}

/// A digit string of length `n` denotes a value below `10^n`.
pub proof fn lemma_dv_bound(s: Seq<u8>)
    requires
        is_digits(s),
    ensures
        dv(s) < pow10(s.len()),
    decreases s.len(),
{
    if s.len() > 0 {
        assert(is_digits(s.drop_last()));
        lemma_dv_bound(s.drop_last());
        assert(digit_val(s.last()) <= 9);
    }
}

/// Concatenation: the left part is shifted by `10^(right length)`.
pub proof fn lemma_dv_concat(a: Seq<u8>, b: Seq<u8>)
    ensures
        dv(a + b) == dv(a) * pow10(b.len()) + dv(b),
    decreases b.len(),
{
    if b.len() == 0 {
        assert(a + b =~= a);
        assert(pow10(b.len()) == 1);
        assert(dv(b) == 0);
        assert(dv(a) * 1 == dv(a)) by (nonlinear_arith);
    } else {
        assert((a + b).drop_last() =~= a + b.drop_last());
        assert((a + b).last() == b.last());
        lemma_dv_concat(a, b.drop_last());
        let p = pow10((b.len() - 1) as nat);
        assert(dv(a + b) == (dv(a) * p + dv(b.drop_last())) * 10 + digit_val(b.last())) by {
            assert(dv(a + b) == dv((a + b).drop_last()) * 10 + digit_val((a + b).last()));
        }
        assert((dv(a) * p + dv(b.drop_last())) * 10 + digit_val(b.last()) == dv(a) * (10 * p) + (
        dv(b.drop_last()) * 10 + digit_val(b.last()))) by (nonlinear_arith);
        assert(dv(b) == dv(b.drop_last()) * 10 + digit_val(b.last()));
        assert(pow10(b.len()) == 10 * p);
        assert(dv(a) * (10 * p) == dv(a) * pow10(b.len())) by (nonlinear_arith)
            requires pow10(b.len()) == 10 * p,
        ;
    }
}

/// The canonical rendering really is canonical.
pub proof fn lemma_digits_of_canonical(v: nat)
    ensures
        is_canonical(digits_of(v)),
        v >= 1 ==> digits_of(v)[0] != 0x30,
    decreases v,
{
    if v < 10 {
        let s = seq![(0x30 + v) as u8];
        assert(s[0] == (0x30 + v) as u8);
        assert(is_digits(s));
    } else {
        lemma_digits_of_canonical(v / 10);
        let t = digits_of(v / 10);
        let s = t.push((0x30 + v % 10) as u8);
        assert(v / 10 >= 1);
        assert(s[0] == t[0]);
        assert(forall|i: int| 0 <= i < s.len() ==> #[trigger] s[i] == if i < t.len() {
            t[i]
        } else {
            (0x30 + v % 10) as u8
        });
        assert(is_digits(s));
    }
}

/// Round trip: the canonical rendering denotes the value it was made from.
pub proof fn lemma_dv_digits_of(v: nat)
    ensures
        dv(digits_of(v)) == v,
    decreases v,
{
    if v < 10 {
        lemma_dv_single((0x30 + v) as u8);
        assert(digit_val((0x30 + v) as u8) == v);
    } else {
        lemma_dv_digits_of(v / 10);
        let s = digits_of(v / 10).push((0x30 + v % 10) as u8);
        assert(s.drop_last() =~= digits_of(v / 10));
        assert(dv(s) == (v / 10) * 10 + v % 10);
    }
}

/// A canonical string of length above one denotes at least `10^(len-1)`.
pub proof fn lemma_canonical_lower_bound(s: Seq<u8>)
    requires
        is_canonical(s),
    ensures
        s.len() > 1 ==> dv(s) >= pow10((s.len() - 1) as nat),
        dv(s) >= digit_val(s[0]),
    decreases s.len(),
{
    if s.len() == 1 {
        assert(s =~= seq![s[0]]);
        lemma_dv_single(s[0]);
    } else {
        let t = s.drop_last();
        assert(is_canonical(t));
        lemma_canonical_lower_bound(t);
        if t.len() > 1 {
            assert(dv(t) >= pow10((t.len() - 1) as nat));
            assert(pow10((s.len() - 1) as nat) == pow10((t.len() - 1) as nat) * 10);
            assert(dv(s) >= dv(t) * 10);
            assert(dv(t) * 10 >= pow10((t.len() - 1) as nat) * 10) by (nonlinear_arith)
                requires dv(t) >= pow10((t.len() - 1) as nat),
            ;
        } else {
            assert(t =~= seq![t[0]]);
            lemma_dv_single(t[0]);
            assert(t[0] == s[0]);
            assert(digit_val(s[0]) >= 1);
            assert(dv(s) >= 10);
            assert(pow10((s.len() - 1) as nat) == 10);
        }
        assert(dv(s) >= digit_val(s[0])) by {
            assert(dv(t) >= digit_val(t[0]));
            assert(t[0] == s[0]);
        }
    }
}

/// Two digit strings of equal length denoting the same value are equal.
pub proof fn lemma_dv_unique_fixed_len(s1: Seq<u8>, s2: Seq<u8>)
    requires
        is_digits(s1),
        is_digits(s2),
        s1.len() == s2.len(),
        dv(s1) == dv(s2),
    ensures
        s1 =~= s2,
    decreases s1.len(),
{
    if s1.len() > 0 {
        let a1 = s1.drop_last();
        let a2 = s2.drop_last();
        assert(is_digits(a1));
        assert(is_digits(a2));
        assert(dv(s1) == dv(a1) * 10 + digit_val(s1.last()));
        assert(dv(s2) == dv(a2) * 10 + digit_val(s2.last()));
        assert(digit_val(s1.last()) < 10);
        assert(digit_val(s2.last()) < 10);
        assert(dv(a1) == dv(a2) && digit_val(s1.last()) == digit_val(s2.last()))
            by (nonlinear_arith)
            requires
                dv(a1) * 10 + digit_val(s1.last()) == dv(a2) * 10 + digit_val(s2.last()),
                digit_val(s1.last()) < 10,
                digit_val(s2.last()) < 10,
        ;
        assert(s1.last() == s2.last());
        lemma_dv_unique_fixed_len(a1, a2);
        assert(s1 =~= a1.push(s1.last()));
        assert(s2 =~= a2.push(s2.last()));
    }
}

/// Two canonical digit strings denoting the same value are equal.
pub proof fn lemma_dv_unique_canonical(s1: Seq<u8>, s2: Seq<u8>)
    requires
        is_canonical(s1),
        is_canonical(s2),
        dv(s1) == dv(s2),
    ensures
        s1 =~= s2,
{
    lemma_dv_bound(s1);
    lemma_dv_bound(s2);
    lemma_canonical_lower_bound(s1);
    lemma_canonical_lower_bound(s2);
    if s1.len() < s2.len() {
        assert(s2.len() > 1);
        lemma_pow10_mono(s1.len(), (s2.len() - 1) as nat);
        assert(false);
    }
    if s2.len() < s1.len() {
        assert(s1.len() > 1);
        lemma_pow10_mono(s2.len(), (s1.len() - 1) as nat);
        assert(false);
    }
    lemma_dv_unique_fixed_len(s1, s2);
}

/// Left-padding with zero digits does not change the value.
pub proof fn lemma_dv_pad_zeros(s: Seq<u8>, n: nat)
    ensures
        dv(pad_zeros(s, n)) == dv(s),
        pad_zeros(s, n).len() == if s.len() >= n { s.len() } else { n },
        is_digits(s) ==> is_digits(pad_zeros(s, n)),
{
    if s.len() < n {
        let z = Seq::new((n - s.len()) as nat, |i: int| ZERO_DIGIT);
        lemma_dv_zeros(z);
        lemma_dv_concat(z, s);
    }
}

/// A string of zero digits denotes zero.
pub proof fn lemma_dv_zeros(z: Seq<u8>)
    requires
        forall|i: int| 0 <= i < z.len() ==> #[trigger] z[i] == ZERO_DIGIT,
    ensures
        dv(z) == 0,
    decreases z.len(),
{
    if z.len() > 0 {
        lemma_dv_zeros(z.drop_last());
    }
}

/// The canonical rendering of a value below `10^n` fits in `n` digits.
pub proof fn lemma_digits_of_len_upper(v: nat, n: nat)
    requires
        v < pow10(n),
        n >= 1,
    ensures
        digits_of(v).len() <= n,
{
    lemma_digits_of_canonical(v);
    lemma_dv_digits_of(v);
    lemma_canonical_lower_bound(digits_of(v));
    let s = digits_of(v);
    if s.len() > n {
        assert(s.len() > 1);
        lemma_pow10_mono(n, (s.len() - 1) as nat);
        assert(false);
    }
}

} // verus!

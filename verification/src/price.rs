//! Rescaling a raw fixed-point answer into a price.
//!
//! A feed encodes a price as an integer with `decimals` implied
//! fractional digits. Decoding splits the canonical decimal rendering of
//! the raw value into unit digits and exactly `decimals` fraction
//! digits, so the result is the raw value divided by `10^decimals`,
//! exactly, with no rounding at all. Turning those digits into a
//! floating-point number is the caller's affair.

use vstd::prelude::*;
use vstd::arithmetic::div_mod::{
    lemma_basic_div, lemma_fundamental_div_mod_converse, lemma_small_mod,
};
use crate::answer::{latest_answer_decimal, RawAnswer};
use crate::decimal::{
    digits_of, dv, is_canonical, is_digits, pad_zeros, pow10, lemma_digits_of_canonical,
    lemma_digits_of_len_upper, lemma_dv_bound, lemma_dv_concat, lemma_dv_digits_of,
    lemma_dv_pad_zeros, lemma_dv_unique_fixed_len, lemma_pow10_mono, lemma_pow10_pos,
};

verus! {

/// The fraction digits of `v` rescaled by `10^d`: the decimal rendering
/// of `v % 10^d`, left-padded with zeros to exactly `d` digits.
pub open spec fn frac_digits_of(v: nat, d: nat) -> Seq<u8> {
    if d == 0 {
        Seq::empty()
    } else {
        pad_zeros(digits_of(v % pow10(d)), d)
    }
}

/// A decoded price: an exact decimal number, `units` before the decimal
/// point and `frac` after it.
#[derive(Clone, Debug, PartialEq, Eq)]
pub struct DecodedPrice {
    /// Digits before the decimal point, canonical.
    pub units: Vec<u8>,
    /// Digits after the decimal point, exactly one per implied
    /// fractional digit of the feed.
    pub frac: Vec<u8>,
}

impl DecodedPrice {
    /// The decoded price is exactly the value `v` rescaled by `10^d`:
    /// its digits are pinned down as functions of `v` and `d`.
    pub open spec fn represents(&self, v: nat, d: nat) -> bool {
        &&& self.units@ == digits_of(v / pow10(d))
        &&& self.frac@ == frac_digits_of(v, d)
    }

    /// Shape of a well-formed decoded price for a feed with `d` implied
    /// fractional digits.
    pub open spec fn wf(&self, d: nat) -> bool {
        &&& is_canonical(self.units@)
        &&& is_digits(self.frac@)
        &&& self.frac@.len() == d
    }
}

/// Law: a decoded price is the raw value rescaled by `10^d`, exactly.
/// The unit digits denote the quotient, the fraction digits denote the
/// remainder, and the two recombine to the raw value.
pub proof fn lemma_decode_exact(p: DecodedPrice, v: nat, d: nat)
    requires
        p.represents(v, d),
    ensures
        dv(p.units@) == v / pow10(d),
        dv(p.frac@) == v % pow10(d),
        dv(p.units@) * pow10(d) + dv(p.frac@) == v,
        dv(p.frac@) < pow10(d),
        p.wf(d),
{
    lemma_pow10_pos(d);
    lemma_dv_digits_of(v / pow10(d));
    lemma_digits_of_canonical(v / pow10(d));
    vstd::arithmetic::div_mod::lemma_fundamental_div_mod(v as int, pow10(d) as int);
    if d == 0 {
        assert(p.frac@ =~= Seq::<u8>::empty());
        assert(dv(p.frac@) == 0);
        assert(v % pow10(0) == 0) by {
            lemma_small_mod(0, 1);
            assert(pow10(0) == 1);
            assert(v % 1 == 0) by (nonlinear_arith);
        }
        assert(v / 1 == v) by (nonlinear_arith);
        assert(dv(p.units@) * 1 == dv(p.units@)) by (nonlinear_arith);
    } else {
        let m = (v % pow10(d)) as nat;
        assert(m < pow10(d));
        lemma_dv_digits_of(m);
        lemma_digits_of_canonical(m);
        lemma_digits_of_len_upper(m, d);
        lemma_dv_pad_zeros(digits_of(m), d);
        assert(dv(p.frac@) == m);
        assert(p.frac@.len() == d);
    }
}

/// Law: decoding a raw value of zero gives zero, whatever the exponent:
/// the unit digits are exactly "0" and every digit denotes zero.
pub proof fn lemma_decode_zero(p: DecodedPrice, d: nat)
    requires
        p.represents(0, d),
    ensures
        dv(p.units@) == 0,
        dv(p.frac@) == 0,
        p.units@ =~= seq![0x30u8],
{
    lemma_decode_exact(p, 0, d);
    lemma_pow10_pos(d);
    lemma_basic_div(0, pow10(d) as int);
}

/// Law: decoding is a function of the raw value and the exponent alone;
/// two decodes of the same input are digit-for-digit identical.
pub proof fn lemma_decode_deterministic(p1: DecodedPrice, p2: DecodedPrice, v: nat, d: nat)
    requires
        p1.represents(v, d),
        p2.represents(v, d),
    ensures
        p1.units@ == p2.units@,
        p1.frac@ == p2.frac@,
{
}

/// Rescales a raw answer by `10^decimals`, exactly: the digit string of
/// the answer is split into units and exactly `decimals` fraction
/// digits. No input is rejected and nothing is rounded.
pub fn decode_price(raw: &RawAnswer, decimals: u32) -> (p: DecodedPrice)
    requires
        raw.wf(),
    ensures
        p.represents(raw.value(), decimals as nat),
        p.wf(decimals as nat),
        dv(p.units@) * pow10(decimals as nat) + dv(p.frac@) == raw.value(),
        dv(p.frac@) < pow10(decimals as nat),
{
    let digits = latest_answer_decimal(raw);
    let ghost v = raw.value();
    let ghost dd = decimals as nat;
    let n = digits.len();
    proof {
        lemma_digits_of_canonical(v);
        lemma_dv_digits_of(v);
        lemma_pow10_pos(dd);
    }
    if (decimals as usize) < n {
        let split = n - (decimals as usize);
        let mut units: Vec<u8> = Vec::new();
        let mut k: usize = 0;
        while k < split
            invariant
                k <= split,
                split <= n,
                n == digits@.len(),
                units@.len() == k,
                forall|i: int| 0 <= i < k ==> #[trigger] units@[i] == digits@[i],
            decreases split - k,
        {
            units.push(digits[k]);
            k = k + 1;
        }
        let mut frac: Vec<u8> = Vec::new();
        let mut k: usize = split;
        while k < n
            invariant
                split <= k <= n,
                n == digits@.len(),
                frac@.len() == k - split,
                forall|i: int| 0 <= i < k - split ==> #[trigger] frac@[i] == digits@[split + i],
            decreases n - k,
        {
            frac.push(digits[k]);
            k = k + 1;
        }
        let p = DecodedPrice { units, frac };
        proof {
            lemma_split_is_decode(digits@, v, dd, p.units@, p.frac@);
            lemma_decode_exact(p, v, dd);
        }
        p
    } else {
        let mut units: Vec<u8> = Vec::new();
        units.push(0x30);
        let mut frac: Vec<u8> = Vec::new();
        let pad = (decimals as usize) - n;
        let mut k: usize = 0;
        while k < pad
            invariant
                k <= pad,
                frac@.len() == k,
                forall|i: int| 0 <= i < k ==> #[trigger] frac@[i] == 0x30u8,
            decreases pad - k,
        {
            frac.push(0x30);
            k = k + 1;
        }
        let mut k: usize = 0;
        while k < n
            invariant
                k <= n,
                n == digits@.len(),
                frac@.len() == pad + k,
                forall|i: int| 0 <= i < pad ==> #[trigger] frac@[i] == 0x30u8,
                forall|i: int| 0 <= i < k ==> #[trigger] frac@[pad + i] == digits@[i],
            decreases n - k,
        {
            frac.push(digits[k]);
            k = k + 1;
        }
        let p = DecodedPrice { units, frac };
        proof {
            assert(p.units@ =~= seq![0x30u8]);
            lemma_pad_is_decode(digits@, v, dd, p.frac@);
            lemma_decode_exact(p, v, dd);
        }
        p
    }
}

/// When the rendering of `v` has more than `d` digits, splitting it `d`
/// digits from the right yields the decoded price of `v`.
proof fn lemma_split_is_decode(s: Seq<u8>, v: nat, d: nat, u: Seq<u8>, f: Seq<u8>)
    requires
        s == digits_of(v),
        s.len() > d,
        u =~= s.take(s.len() - d),
        f =~= s.skip(s.len() - d),
    ensures
        u == digits_of(v / pow10(d)),
        f == frac_digits_of(v, d),
{
    lemma_digits_of_canonical(v);
    lemma_dv_digits_of(v);
    lemma_pow10_pos(d);
    assert(s =~= u + f);
    lemma_dv_concat(u, f);
    assert(f.len() == d);
    assert(is_digits(f));
    assert(is_digits(u));
    lemma_dv_bound(f);
    lemma_fundamental_div_mod_converse(
        v as int,
        pow10(d) as int,
        dv(u) as int,
        dv(f) as int,
    );
    assert(dv(u) == v / pow10(d));
    assert(dv(f) == v % pow10(d));
    // The unit digits are canonical, so they are the canonical rendering
    // of the quotient.
    assert(is_canonical(u)) by {
        assert(u[0] == s[0]);
    }
    lemma_digits_of_canonical(v / pow10(d));
    lemma_dv_digits_of(v / pow10(d));
    crate::decimal::lemma_dv_unique_canonical(u, digits_of(v / pow10(d)));
    // The fraction digits have exactly `d` digits and the right value,
    // so they are the padded rendering of the remainder.
    if d > 0 {
        let m = (v % pow10(d)) as nat;
        lemma_digits_of_canonical(m);
        lemma_dv_digits_of(m);
        lemma_digits_of_len_upper(m, d);
        lemma_dv_pad_zeros(digits_of(m), d);
        lemma_dv_unique_fixed_len(f, pad_zeros(digits_of(m), d));
    } else {
        assert(f =~= Seq::<u8>::empty());
        assert(frac_digits_of(v, 0) =~= Seq::<u8>::empty());
    }
}

/// When the rendering of `v` has at most `d` digits, the units are "0"
/// and the fraction is the rendering left-padded with zeros.
proof fn lemma_pad_is_decode(s: Seq<u8>, v: nat, d: nat, f: Seq<u8>)
    requires
        s == digits_of(v),
        s.len() <= d,
        f.len() == d,
        forall|i: int| 0 <= i < d - s.len() ==> #[trigger] f[i] == 0x30u8,
        forall|i: int| 0 <= i < s.len() ==> #[trigger] f[d - s.len() + i] == s[i],
    ensures
        seq![0x30u8] == digits_of(v / pow10(d)),
        f == frac_digits_of(v, d),
{
    lemma_digits_of_canonical(v);
    lemma_dv_digits_of(v);
    lemma_pow10_pos(d);
    lemma_dv_bound(s);
    lemma_pow10_mono(s.len(), d);
    assert(v < pow10(d));
    lemma_basic_div(v as int, pow10(d) as int);
    assert(digits_of(v / pow10(d)) =~= seq![0x30u8]);
    lemma_small_mod(v, pow10(d));
    assert(v % pow10(d) == v);
    assert(d >= 1) by {
        assert(s.len() >= 1);
    }
    assert(f =~= pad_zeros(s, d)) by {
        if s.len() < d {
            let z = Seq::new((d - s.len()) as nat, |i: int| crate::decimal::ZERO_DIGIT);
            assert forall|j: int| 0 <= j < d implies f[j] == (z + s)[j] by {
                if j >= d - s.len() {
                    assert(f[d - s.len() + (j - (d - s.len()))] == s[j - (d - s.len())]);
                }
            }
            assert(f =~= z + s);
        } else {
            assert(s.len() == d);
            assert forall|j: int| 0 <= j < d implies f[j] == s[j] by {
                assert(f[d - s.len() + j] == s[j]);
            }
            assert(f =~= s);
        }
    }
    assert(frac_digits_of(v, d) == pad_zeros(digits_of(v), d));
}

} // verus!

//! The raw oracle answer: an unsigned integer of at most 256 bits, read
//! big-endian from the call response and rendered as decimal digits.
//!
//! The oracle declares its answer as a signed 256-bit integer, but this
//! client reads the response as unsigned throughout; that choice is part
//! of its documented behaviour and is kept here.

use vstd::prelude::*;
use crate::decimal::digits_of;
use crate::errors::PriceError;

verus! {

/// The natural number denoted by the byte string `s`, big-endian.
pub open spec fn be_value(s: Seq<u8>) -> nat
    decreases s.len(),
{
    if s.len() == 0 {
        0
    } else {
        be_value(s.drop_last()) * 256 + s.last() as nat
    }
}

/// `256^n`.
pub open spec fn pow256(n: nat) -> nat
    decreases n,
{
    if n == 0 {
        1
    } else {
        256 * pow256((n - 1) as nat)
    }
}

/// The value of `s` fits in 256 bits: any bytes beyond the low 32 are
/// zero.
pub open spec fn fits_256(s: Seq<u8>) -> bool {
    forall|i: int| 0 <= i < s.len() - 32 ==> #[trigger] s[i] == 0
}

/// Concatenation: the left part is shifted by `256^(right length)`.
pub proof fn lemma_be_concat(a: Seq<u8>, b: Seq<u8>)
    ensures
        be_value(a + b) == be_value(a) * pow256(b.len()) + be_value(b),
    decreases b.len(),
{
    if b.len() == 0 {
        assert(a + b =~= a);
        assert(pow256(b.len()) == 1);
        assert(be_value(b) == 0);
        assert(be_value(a) * 1 == be_value(a)) by (nonlinear_arith);
    } else {
        assert((a + b).drop_last() =~= a + b.drop_last());
        assert((a + b).last() == b.last());
        lemma_be_concat(a, b.drop_last());
        let p = pow256((b.len() - 1) as nat);
        assert(be_value(a + b) == (be_value(a) * p + be_value(b.drop_last())) * 256
            + b.last()) by {
            assert(be_value(a + b) == be_value((a + b).drop_last()) * 256 + (a + b).last());
        }
        assert((be_value(a) * p + be_value(b.drop_last())) * 256 + b.last() == be_value(a) * (256
            * p) + (be_value(b.drop_last()) * 256 + b.last())) by (nonlinear_arith);
        assert(be_value(b) == be_value(b.drop_last()) * 256 + b.last());
        assert(pow256(b.len()) == 256 * p);
    }
}

/// A string of zero bytes denotes zero.
pub proof fn lemma_be_zeros(z: Seq<u8>)
    requires
        forall|i: int| 0 <= i < z.len() ==> #[trigger] z[i] == 0,
    ensures
        be_value(z) == 0,
    decreases z.len(),
{
    if z.len() > 0 {
        lemma_be_zeros(z.drop_last());
    }
}

/// Zero bytes on the left do not change the value.
pub proof fn lemma_be_strip_zeros(s: Seq<u8>, k: int)
    requires
        0 <= k <= s.len(),
        forall|i: int| 0 <= i < k ==> #[trigger] s[i] == 0,
    ensures
        be_value(s.skip(k)) == be_value(s),
{
    let z = s.take(k);
    let t = s.skip(k);
    assert(s =~= z + t);
    lemma_be_zeros(z);
    lemma_be_concat(z, t);
}

/// A normalized raw oracle answer: exactly 32 big-endian bytes.
#[derive(Clone, Debug, PartialEq, Eq)]
pub struct RawAnswer {
    bytes: Vec<u8>,
}

impl View for RawAnswer {
    type V = Seq<u8>;

    closed spec fn view(&self) -> Seq<u8> {
        self.bytes@
    }
}

impl RawAnswer {
    /// A well-formed answer holds exactly 32 bytes.
    pub open spec fn wf(&self) -> bool {
        self@.len() == 32
    }

    /// The unsigned integer the answer denotes.
    pub open spec fn value(&self) -> nat {
        be_value(self@)
    }
}

/// Parses a call response into a raw answer. The response is read as one
/// big-endian unsigned integer; it is accepted exactly when that integer
/// fits in 256 bits, and is then normalized to 32 bytes. Anything larger
/// is a `Decode` error.
pub fn parse_raw_answer(response: &Vec<u8>) -> (r: Result<RawAnswer, PriceError>)
    ensures
        r is Ok <==> fits_256(response@),
        r matches Ok(a) ==> a.wf() && a.value() == be_value(response@),
        r matches Err(e) ==> e == PriceError::Decode,
{
    let n = response.len();
    let mut bytes: Vec<u8> = Vec::new();
    if n <= 32 {
        let pad = 32 - n;
        let mut k: usize = 0;
        while k < pad
            invariant
                k <= pad,
                pad == 32 - n,
                n == response@.len(),
                bytes@.len() == k,
                forall|i: int| 0 <= i < k ==> #[trigger] bytes@[i] == 0,
            decreases pad - k,
        {
            bytes.push(0);
            k = k + 1;
        }
        let mut k: usize = 0;
        while k < n
            invariant
                k <= n,
                pad == 32 - n,
                n == response@.len(),
                bytes@.len() == pad + k,
                forall|i: int| 0 <= i < pad ==> #[trigger] bytes@[i] == 0,
                forall|i: int| 0 <= i < k ==> #[trigger] bytes@[pad + i] == response@[i],
            decreases n - k,
        {
            bytes.push(response[k]);
            k = k + 1;
        }
        proof {
            let z = Seq::new(pad as nat, |i: int| 0u8);
            assert forall|j: int| 0 <= j < bytes@.len() implies bytes@[j] == (z + response@)[j] by {
                if j >= pad {
                    assert(bytes@[pad + (j - pad)] == response@[j - pad]);
                }
            }
            assert(bytes@ =~= z + response@);
            lemma_be_zeros(z);
            lemma_be_concat(z, response@);
        }
        Ok(RawAnswer { bytes })
    } else {
        let extra = n - 32;
        let mut k: usize = 0;
        while k < extra
            invariant
                k <= extra,
                extra == n - 32,
                n == response@.len(),
                forall|i: int| 0 <= i < k ==> #[trigger] response@[i] == 0,
            decreases extra - k,
        {
            if response[k] != 0 {
                return Err(PriceError::Decode);
            }
            k = k + 1;
        }
        let mut k: usize = extra;
        while k < n
            invariant
                extra <= k <= n,
                extra == n - 32,
                n == response@.len(),
                bytes@.len() == k - extra,
                forall|i: int|
                    0 <= i < k - extra ==> #[trigger] bytes@[i] == response@[extra + i],
            decreases n - k,
        {
            bytes.push(response[k]);
            k = k + 1;
        }
        proof {
            assert(bytes@ =~= response@.skip(extra as int));
            lemma_be_strip_zeros(response@, extra as int);
        }
        Ok(RawAnswer { bytes })
    }
}

/// Relies on alloy's `U256` (the `ruint` crate): `from_be_slice` reads a
/// slice of at most 32 bytes as a big-endian unsigned integer, and its
/// `Display` implementation renders exactly the canonical decimal digits
/// of that integer, no sign, no leading zeros.
#[verifier::external_body]
fn u256_decimal_digits(bytes: &Vec<u8>) -> (r: Vec<u8>)
    requires
        bytes@.len() == 32,
    ensures
        r@ == digits_of(be_value(bytes@)),
{
    let value = alloy::primitives::U256::from_be_slice(bytes.as_slice());
    value.to_string().into_bytes()
}

/// The decimal digits of a raw answer, canonical (no leading zeros).
pub fn latest_answer_decimal(raw: &RawAnswer) -> (r: Vec<u8>)
    requires
        raw.wf(),
    ensures
        r@ == digits_of(raw.value()),
{
    u256_decimal_digits(&raw.bytes)
}

} // verus!

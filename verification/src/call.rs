//! ABI call data for the oracle's `latestAnswer()` getter.
//!
//! The function takes no arguments, so the call data is exactly the
//! 4-byte selector: the first four bytes of the Keccak-256 digest of the
//! canonical signature string.

use vstd::prelude::*;

verus! {

/// The Keccak-256 digest of `input`, a function of the bytes alone.
pub uninterp spec fn keccak256_of(input: Seq<u8>) -> Seq<u8>;

/// The bytes of the canonical signature `latestAnswer()`.
pub open spec fn latest_answer_signature() -> Seq<u8> {
    seq![
        0x6cu8,
        0x61u8,
        0x74u8,
        0x65u8,
        0x73u8,
        0x74u8,
        0x41u8,
        0x6eu8,
        0x73u8,
        0x77u8,
        0x65u8,
        0x72u8,
        0x28u8,
        0x29u8,
    ]
}

/// Relies on alloy's `keccak256`: the Keccak-256 digest of the input, 32
/// bytes, depending on the input bytes alone.
#[verifier::external_body]
fn keccak256(input: &Vec<u8>) -> (r: Vec<u8>)
    ensures
        r@ == keccak256_of(input@),
        r@.len() == 32,
{
    alloy::primitives::keccak256(input.as_slice()).to_vec()
}

/// The call data for `latestAnswer()`: the first four bytes of the
/// Keccak-256 digest of the canonical signature. With no arguments to
/// encode, the selector is the whole of the call data.
pub fn latest_answer_call_data() -> (r: Vec<u8>)
    ensures
        r@ == keccak256_of(latest_answer_signature()).take(4),
        r@.len() == 4,
{
    let mut sig: Vec<u8> = Vec::new();
    sig.push(0x6c);
    sig.push(0x61);
    sig.push(0x74);
    sig.push(0x65);
    sig.push(0x73);
    sig.push(0x74);
    sig.push(0x41);
    sig.push(0x6e);
    sig.push(0x73);
    sig.push(0x77);
    sig.push(0x65);
    sig.push(0x72);
    sig.push(0x28);
    sig.push(0x29);
    proof {
        assert(sig@ =~= latest_answer_signature());
    }
    let digest = keccak256(&sig);
    let mut data: Vec<u8> = Vec::new();
    data.push(digest[0]);
    data.push(digest[1]);
    data.push(digest[2]);
    data.push(digest[3]);
    proof {
        assert(data@ =~= keccak256_of(latest_answer_signature()).take(4));
    }
    data
}

} // verus!

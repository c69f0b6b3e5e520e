//! Parsing of textual contract addresses.
//!
//! An address is 20 bytes, written as 40 hexadecimal digits with an
//! optional `0x` prefix. A string of the wrong length or with a non-hex
//! character is rejected; there is no fallback value.

use vstd::prelude::*;
use vstd::string::StringSliceAdditionalSpecFns;
use crate::errors::PriceError;

verus! {

/// `c` is an ASCII hexadecimal digit.
pub open spec fn is_hex_digit(c: u8) -> bool {
    (0x30 <= c && c <= 0x39) || (0x61 <= c && c <= 0x66) || (0x41 <= c && c <= 0x46)
}

/// Numeric value of an ASCII hexadecimal digit (0 for anything else).
pub open spec fn hex_val(c: u8) -> u8 {
    if 0x30 <= c && c <= 0x39 {
        (c - 0x30) as u8
    } else if 0x61 <= c && c <= 0x66 {
        (c - 0x61 + 10) as u8
    } else if 0x41 <= c && c <= 0x46 {
        (c - 0x41 + 10) as u8
    } else {
        0
    }
}

/// The digit portion of an address string: the bytes after a leading
/// `0x`, or the whole string when there is no such prefix.
pub open spec fn addr_digits(s: Seq<u8>) -> Seq<u8> {
    if s.len() >= 2 && s[0] == 0x30 && s[1] == 0x78 {
        s.skip(2)
    } else {
        s
    }
}

/// The digit portion is exactly 40 hexadecimal digits.
pub open spec fn valid_addr_digits(d: Seq<u8>) -> bool {
    d.len() == 40 && (forall|i: int| 0 <= i < 40 ==> is_hex_digit(#[trigger] d[i]))
}

/// The 20 bytes denoted by 40 hexadecimal digits, two digits per byte,
/// most significant first.
pub open spec fn addr_bytes_of(d: Seq<u8>) -> Seq<u8> {
    Seq::new(20, |i: int| (hex_val(d[2 * i]) * 16 + hex_val(d[2 * i + 1])) as u8)
}

/// A parsed 20-byte account address.
#[derive(Clone, Debug, PartialEq, Eq)]
pub struct Address {
    bytes: Vec<u8>,
}

impl View for Address {
    type V = Seq<u8>;

    closed spec fn view(&self) -> Seq<u8> {
        self.bytes@
    }
}

impl Address {
    /// A well-formed address holds exactly 20 bytes.
    pub open spec fn wf(&self) -> bool {
        self@.len() == 20
    }

    /// The raw bytes, most significant first.
    pub fn octets(&self) -> (r: &Vec<u8>)
        ensures
            r@ == self@,
    {
        &self.bytes
    }
}

/// Law: a valid 40-digit string denotes the same address with and
/// without the `0x` prefix, because stripping the prefix of the
/// prefixed form gives back exactly the bare digits.
pub proof fn lemma_prefix_irrelevant(s: Seq<u8>)
    requires
        valid_addr_digits(s),
    ensures
        addr_digits(s) == s,
        addr_digits(seq![0x30u8, 0x78u8] + s) == s,
{
    // 'x' is not a hexadecimal digit, so a valid digit string cannot
    // itself begin with "0x".
    if s.len() >= 2 && s[0] == 0x30 && s[1] == 0x78 {
        assert(is_hex_digit(s[1]));
        assert(false);
    }
    let p = seq![0x30u8, 0x78u8] + s;
    assert(p[0] == 0x30 && p[1] == 0x78);
    assert(p.skip(2) =~= s);
}

/// Executable twin of `is_hex_digit` / `hex_val`.
pub fn hex_digit(c: u8) -> (r: Option<u8>)
    ensures
        r == if is_hex_digit(c) {
            Some(hex_val(c))
        } else {
            None::<u8>
        },
{
    if 0x30 <= c && c <= 0x39 {
        Some(c - 0x30)
    } else if 0x61 <= c && c <= 0x66 {
        Some(c - 0x61 + 10)
    } else if 0x41 <= c && c <= 0x46 {
        Some(c - 0x41 + 10)
    } else {
        None
    }
}

/// Parses a textual address: an optional `0x` prefix followed by exactly
/// 40 hexadecimal digits. Succeeds exactly on such strings; anything else
/// is an `AddressParse` error.
pub fn parse_address(s: &str) -> (r: Result<Address, PriceError>)
    ensures
        r is Ok <==> valid_addr_digits(addr_digits(s.spec_bytes())),
        r matches Ok(a) ==> a.wf() && a@ == addr_bytes_of(addr_digits(s.spec_bytes())),
        r matches Err(e) ==> e == PriceError::AddressParse,
{
    let b = s.as_bytes();
    let n = b.len();
    let start: usize = if n >= 2 && b[0] == 0x30 && b[1] == 0x78 {
        2
    } else {
        0
    };
    let ghost d = addr_digits(s.spec_bytes());
    proof {
        assert(d =~= b@.skip(start as int));
    }
    if n - start != 40 {
        return Err(PriceError::AddressParse);
    }
    let mut bytes: Vec<u8> = Vec::new();
    let mut i: usize = 0;
    while i < 20
        invariant
            0 <= i <= 20,
            n == b.len(),
            start + 40 == n,
            start <= 2,
            d =~= b@.skip(start as int),
            d == addr_digits(s.spec_bytes()),
            d.len() == 40,
            bytes@.len() == i,
            forall|j: int| 0 <= j < 2 * i ==> is_hex_digit(#[trigger] d[j]),
            forall|j: int|
                0 <= j < i ==> #[trigger] bytes@[j] == (hex_val(d[2 * j]) * 16 + hex_val(
                    d[2 * j + 1],
                )) as u8,
        decreases 20 - i,
    {
        let hi = hex_digit(b[start + 2 * i]);
        let lo = hex_digit(b[start + 2 * i + 1]);
        match (hi, lo) {
            (Some(h), Some(l)) => {
                assert(h < 16 && l < 16);
                bytes.push(h * 16 + l);
            },
            _ => {
                proof {
                    assert(d[2 * i as int] == b@[start + 2 * i]);
                    assert(d[2 * i as int + 1] == b@[start + 2 * i + 1]);
                    assert(!is_hex_digit(d[2 * i as int]) || !is_hex_digit(
                        d[2 * i as int + 1],
                    ));
                }
                return Err(PriceError::AddressParse);
            },
        }
        i = i + 1;
    }
    let a = Address { bytes };
    proof {
        assert(a@ =~= addr_bytes_of(d));
    }
    Ok(a)
}

} // verus!

//! Decoding of the hexadecimal address strings of the address map.
//!
//! An address is written `0x` followed by one or more hexadecimal digits
//! (either case), and must fit in 64 bits.

use vstd::prelude::*;

verus! {

/// Why an address string could not be decoded.
#[derive(Debug, Clone, Copy, PartialEq, Eq, Structural)]
pub enum AddressError {
    /// The string does not start with `0x`.
    MissingPrefix,
    /// Nothing follows the prefix, or a character after it is not a hex digit.
    InvalidDigit,
    /// The digits denote a value of 2^64 or more.
    Overflow,
}

pub open spec fn is_hex_digit(c: char) -> bool {
    ('0' <= c && c <= '9') || ('a' <= c && c <= 'f') || ('A' <= c && c <= 'F')
}

pub open spec fn hex_digit_value(c: char) -> nat {
    if '0' <= c && c <= '9' {
        (c as nat - '0' as nat) as nat
    } else if 'a' <= c && c <= 'f' {
        (c as nat - 'a' as nat + 10) as nat
    } else {
        (c as nat - 'A' as nat + 10) as nat
    }
}

/// The number that a sequence of hex digits denotes, most significant first.
pub open spec fn hex_value(s: Seq<char>) -> nat
    decreases s.len(),
{
    if s.len() == 0 {
        0
    } else {
        hex_value(s.drop_last()) * 16 + hex_digit_value(s.last())
    }
}

pub open spec fn has_hex_prefix(s: Seq<char>) -> bool {
    s.len() >= 2 && s[0] == '0' && s[1] == 'x'
}

/// What follows the two-character prefix.
pub open spec fn address_digits(s: Seq<char>) -> Seq<char> {
    s.subrange(2, s.len() as int)
}

pub open spec fn all_hex_digits(d: Seq<char>) -> bool {
    d.len() > 0 && forall|i: int| 0 <= i < d.len() ==> is_hex_digit(#[trigger] d[i])
}

/// The outcome of decoding the address string `s`.
pub open spec fn address_result(s: Seq<char>) -> Result<u64, AddressError> {
    if !has_hex_prefix(s) {
        Err(AddressError::MissingPrefix)
    } else if !all_hex_digits(address_digits(s)) {
        Err(AddressError::InvalidDigit)
    } else if hex_value(address_digits(s)) > u64::MAX {
        Err(AddressError::Overflow)
    } else {
        Ok(hex_value(address_digits(s)) as u64)
    }
}

/// A longer digit string never denotes a smaller number than its prefix.
proof fn lemma_hex_value_prefix(d: Seq<char>, k: int)
    requires
        0 <= k <= d.len(),
    ensures
        hex_value(d.subrange(0, k)) <= hex_value(d),
    decreases d.len() - k,
{
    if k < d.len() {
        lemma_hex_value_prefix(d, k + 1);
        let p = d.subrange(0, k + 1);
        assert(p.drop_last() =~= d.subrange(0, k));
    } else {
        assert(d.subrange(0, k) =~= d);
    }
}

fn digit_value(c: char) -> (r: Option<u64>)
    ensures
        is_hex_digit(c) ==> r == Some(hex_digit_value(c) as u64),
        !is_hex_digit(c) ==> r is None,
        r matches Some(v) ==> v < 16,
{
    if '0' <= c && c <= '9' {
        Some((c as u32 - '0' as u32) as u64)
    } else if 'a' <= c && c <= 'f' {
        Some((c as u32 - 'a' as u32 + 10) as u64)
    } else if 'A' <= c && c <= 'F' {
        Some((c as u32 - 'A' as u32 + 10) as u64)
    } else {
        None
    }
}

/// Decodes an address string of the form `0x` followed by hex digits.
pub fn decode_address(s: &str) -> (r: Result<u64, AddressError>)
    ensures
        r == address_result(s@),
{
    let n = s.unicode_len();
    if n < 2 || s.get_char(0) != '0' || s.get_char(1) != 'x' {
        return Err(AddressError::MissingPrefix);
    }
    let ghost d = address_digits(s@);
    if n == 2 {
        return Err(AddressError::InvalidDigit);
    }
    let mut i: usize = 2;
    while i < n
        invariant
            2 <= i <= n,
            n == s@.len(),
            has_hex_prefix(s@),
            d == address_digits(s@),
            forall|j: int| 0 <= j < i - 2 ==> is_hex_digit(#[trigger] d[j]),
        decreases n - i,
    {
        assert(d[i - 2] == s@[i as int]);
        if digit_value(s.get_char(i)).is_none() {
            return Err(AddressError::InvalidDigit);
        }
        i = i + 1;
    }
    let mut acc: u64 = 0;
    let mut i: usize = 2;
    while i < n
        invariant
            2 <= i <= n,
            n == s@.len(),
            has_hex_prefix(s@),
            d == address_digits(s@),
            all_hex_digits(d),
            acc as nat == hex_value(d.subrange(0, i - 2)),
        decreases n - i,
    {
        assert(d[i - 2] == s@[i as int]);
        assert(is_hex_digit(d[i - 2]));
        let v = digit_value(s.get_char(i)).unwrap();
        proof {
            let p = d.subrange(0, i - 1);
            assert(p.drop_last() =~= d.subrange(0, i - 2));
            assert(p.last() == d[i - 2]);
            assert(hex_value(p) == hex_value(p.drop_last()) * 16 + hex_digit_value(p.last()));
        }
        if acc > (u64::MAX - v) / 16 {
            proof {
                assert(acc * 16 + v > u64::MAX) by (nonlinear_arith)
                    requires
                        acc > (u64::MAX - v) / 16,
                        v < 16,
                ;
                lemma_hex_value_prefix(d, i - 1);
            }
            return Err(AddressError::Overflow);
        }
        acc = acc * 16 + v;
        i = i + 1;
    }
    assert(d.subrange(0, n - 2) =~= d);
    Ok(acc)
}

} // verus!

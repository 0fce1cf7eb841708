//! Base-58 decoding of ledger identifiers, delegated to an outside decoder
//! whose result is pinned down exactly: leading `'1'` digits become leading
//! zero bytes and the digit string is read as one big-endian number.

use vstd::prelude::*;
use crate::validation::ValidationError;

verus! {

/// The base-58 digit alphabet (the Bitcoin alphabet).
pub open spec fn b58_alphabet() -> Seq<char> {
    "123456789ABCDEFGHJKLMNPQRSTUVWXYZabcdefghijkmnopqrstuvwxyz"@
}

/// Position of the first occurrence of `c` in `s`, or `-1` if absent.
pub open spec fn index_in(s: Seq<char>, c: char) -> int
    decreases s.len(),
{
    if s.len() == 0 {
        -1
    } else if s[0] == c {
        0
    } else if index_in(s.drop_first(), c) < 0 {
        -1
    } else {
        index_in(s.drop_first(), c) + 1
    }
}

/// Value of one base-58 digit, or `-1` if `c` is not a digit.
pub open spec fn b58_digit(c: char) -> int {
    index_in(b58_alphabet(), c)
}

/// Whether every character of `s` is a base-58 digit.
pub open spec fn b58_all_valid(s: Seq<char>) -> bool {
    forall|i: int| 0 <= i < s.len() ==> b58_digit(s[i]) >= 0
}

/// The number a digit string denotes, read most significant digit first.
pub open spec fn b58_value(s: Seq<char>) -> int
    decreases s.len(),
{
    if s.len() == 0 {
        0
    } else {
        58 * b58_value(s.drop_last()) + b58_digit(s.last())
    }
}

/// Minimal big-endian byte representation of a non-negative number.
pub open spec fn be_bytes_of(n: int) -> Seq<u8>
    decreases n,
{
    if n <= 0 {
        Seq::empty()
    } else {
        be_bytes_of(n / 256).push((n % 256) as u8)
    }
}

/// How many leading `'1'` digits (each denoting a zero byte) `s` starts with.
pub open spec fn b58_leading_ones(s: Seq<char>) -> int
    decreases s.len(),
{
    if s.len() > 0 && s[0] == '1' {
        1 + b58_leading_ones(s.drop_first())
    } else {
        0
    }
}

/// The bytes a base-58 string decodes to: one zero byte for each leading
/// `'1'`, then the big-endian bytes of the value of the digit string.
pub open spec fn b58_decoded(s: Seq<char>) -> Seq<u8> {
    Seq::new(b58_leading_ones(s) as nat, |i: int| 0u8) + be_bytes_of(b58_value(s))
}

/// Relies on `bs58::decode` with its default (Bitcoin) alphabet: it fails
/// exactly when some character is not a base-58 digit, and otherwise turns
/// each leading `'1'` into a leading zero byte and reads the remaining
/// digits as one big-endian number.
#[verifier::external_body]
pub fn from_base58(s: &str) -> (r: Result<Vec<u8>, ValidationError>)
    ensures
        r matches Ok(v) ==> b58_all_valid(s@) && v@ == b58_decoded(s@),
        r matches Err(e) ==> !b58_all_valid(s@) && e == ValidationError::InvalidFormat,
{
    match bs58::decode(s).into_vec() {
        Ok(v) => Ok(v),
        Err(_) => Err(ValidationError::InvalidFormat),
    }
}

} // verus!

//! The trusted boundary: the few outside calls the library relies on, each
//! behind a wrapper whose contract states what the callee's documentation
//! promises. Digest and case-mapping results are named rather than spelled
//! out; hex encoding is small enough to state exactly.

use vstd::prelude::*;

use sha2::Digest;

verus! {

/// The SHA-256 digest of a string's bytes. Named: the outside
/// implementation is its only definition, and the same string always
/// digests to the same 32 bytes.
pub uninterp spec fn spec_sha256_str(s: Seq<char>) -> Seq<u8>;

/// Relies on sha2's Sha256 (through the Digest trait): a 32-byte digest
/// of the string's bytes, a function of the input alone.
#[verifier::external_body]
pub fn sha256_str(s: &str) -> (r: Vec<u8>)
    ensures
        r@ == spec_sha256_str(s@),
        r@.len() == 32,
{
    let mut hasher = sha2::Sha256::new();
    hasher.update(s.as_bytes());
    let hash = hasher.finalize();
    hash.to_vec()
}

/// The lowercase hex digit for a value below sixteen.
pub open spec fn spec_hex_digit(n: int) -> char {
    if n < 10 {
        (48 + n) as char
    } else {
        (87 + n) as char
    }
}

/// Lowercase hex encoding: two digits per byte, high nibble first.
pub open spec fn spec_hex_lower(b: Seq<u8>) -> Seq<char>
    decreases b.len(),
{
    if b.len() == 0 {
        Seq::<char>::empty()
    } else {
        spec_hex_lower(b.drop_last()) + seq![
            spec_hex_digit(b.last() as int / 16),
            spec_hex_digit(b.last() as int % 16),
        ]
    }
}

/// Relies on hex::encode: each byte becomes exactly two lowercase hex
/// digits, in input order.
#[verifier::external_body]
pub fn hex_encode(b: &Vec<u8>) -> (r: String)
    ensures
        r@ == spec_hex_lower(b@),
{
    hex::encode(b.as_slice())
}

/// The epoch milliseconds encoded by an RFC 3339 date-time string, or
/// nothing when the string is not one. Named: validity and value are
/// functions of the characters alone.
pub uninterp spec fn spec_rfc3339_millis(s: Seq<char>) -> Option<i64>;

/// Relies on chrono's DateTime::parse_from_rfc3339 and timestamp_millis:
/// parsing does not depend on clock, locale or environment.
#[verifier::external_body]
pub fn parse_rfc3339_millis(s: &str) -> (r: Option<i64>)
    ensures
        r == spec_rfc3339_millis(s@),
{
    match chrono::DateTime::parse_from_rfc3339(s) {
        Ok(t) => Some(t.timestamp_millis()),
        Err(_) => None,
    }
}

/// The Unicode uppercase mapping of one character (possibly several
/// characters long). Named: a function of the character alone.
pub uninterp spec fn spec_char_upper(c: char) -> Seq<char>;

/// Relies on char::to_uppercase: the Unicode uppercase mapping, a
/// function of the character alone.
#[verifier::external_body]
pub fn char_to_uppercase(c: char) -> (r: String)
    ensures
        r@ == spec_char_upper(c),
{
    c.to_uppercase().collect::<String>()
}

/// The Unicode uppercase mapping of a whole string. Named: a function of
/// the characters alone.
pub uninterp spec fn spec_str_upper(s: Seq<char>) -> Seq<char>;

/// Relies on str::to_uppercase: the Unicode uppercase mapping, a function
/// of the characters alone.
#[verifier::external_body]
pub fn str_to_uppercase(s: &str) -> (r: String)
    ensures
        r@ == spec_str_upper(s@),
{
    s.to_uppercase()
}

} // verus!

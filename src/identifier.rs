//! Short identifiers: the last characters of the hexadecimal SHA-1 digest
//! of a text.
use vstd::prelude::*;

verus! {

/// Number of characters in a short identifier.
pub const SHORT_ID_LEN: usize = 9;

/// Number of hexadecimal digits in a SHA-1 digest.
pub const SHA1_HEX_LEN: usize = 40;

/// The SHA-1 digest of the UTF-8 encoding of `s`, in lowercase hexadecimal.
pub uninterp spec fn sha1_hex_of(s: Seq<char>) -> Seq<char>;

pub open spec fn is_lower_hex_digit(c: char) -> bool {
    ('0' <= c && c <= '9') || ('a' <= c && c <= 'f')
}

/// The last `n` characters of `s`.
pub open spec fn last_chars(s: Seq<char>, n: nat) -> Seq<char> {
    s.subrange(s.len() - n, s.len() as int)
}

/// The short identifier of a text: the last nine digits of its SHA-1 digest.
pub open spec fn short_id_of(s: Seq<char>) -> Seq<char> {
    last_chars(sha1_hex_of(s), SHORT_ID_LEN as nat)
}

/// Relies on `sha1::Sha1::from` and the `Display` impl of `sha1::Digest`:
/// the digest of the string's bytes, five 32-bit words each written as
/// eight lowercase hexadecimal digits.
#[verifier::external_body]
fn sha1_hex(s: &str) -> (r: String)
    ensures
        r@ == sha1_hex_of(s@),
        r@.len() == SHA1_HEX_LEN,
        forall|i: int| 0 <= i < r@.len() ==> is_lower_hex_digit(#[trigger] r@[i]),
{
    sha1::Sha1::from(s).digest().to_string()
}

/// Returns the last nine characters of `s`.
pub fn sha_short(s: &str) -> (r: String)
    requires
        s@.len() >= SHORT_ID_LEN,
    ensures
        r@ == last_chars(s@, SHORT_ID_LEN as nat),
{
    let n = s.unicode_len();
    String::from_str(s.substring_char(n - SHORT_ID_LEN, n))
}

/// The short identifier of `input`: nine lowercase hexadecimal digits,
/// the same for equal inputs.
pub fn short_id(input: &str) -> (r: String)
    ensures
        r@ == short_id_of(input@),
        r@.len() == SHORT_ID_LEN,
        forall|i: int| 0 <= i < r@.len() ==> is_lower_hex_digit(#[trigger] r@[i]),
{
    let digest = sha1_hex(input);
    let r = sha_short(digest.as_str());
    assert forall|i: int| 0 <= i < r@.len() implies is_lower_hex_digit(#[trigger] r@[i]) by {
        assert(r@[i] == digest@[i + (SHA1_HEX_LEN - SHORT_ID_LEN)]);
    }
    r
}

} // verus!

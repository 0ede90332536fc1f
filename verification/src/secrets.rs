//! Random identifiers and secrets, and the digests under which secrets are
//! stored and compared.
use vstd::prelude::*;

use crate::text::concat;
use sha2::Digest;

verus! {

/// A lower-case hexadecimal digit.
pub open spec fn is_lower_hex(c: char) -> bool {
    ('0' <= c && c <= '9') || ('a' <= c && c <= 'f')
}

/// 32 lower-case hexadecimal digits: the simple form of a UUID.
pub open spec fn is_hex_token(s: Seq<char>) -> bool {
    s.len() == 32 && forall|i: int| 0 <= i < s.len() ==> is_lower_hex(#[trigger] s[i])
}

/// A token of 32 zeros, of the shape that generated tokens have.
pub open spec fn zero_token() -> Seq<char> {
    Seq::new(32, |_i: int| '0')
}

pub proof fn lemma_zero_token()
    ensures
        is_hex_token(zero_token()),
{
}

/// A fresh random secret: `uuid::Uuid::new_v4().simple().to_string()`. The
/// value is random; the contract states only its documented shape (32
/// lower-case hexadecimal digits).
#[verifier::external_body]
pub(crate) fn opaque_secret() -> (s: String)
    ensures
        is_hex_token(s@),
{
    uuid::Uuid::new_v4().simple().to_string()
}

/// A fresh random identifier: `prefix` followed by a random token.
pub(crate) fn opaque_id(prefix: &str) -> (s: String)
    ensures
        exists|t: Seq<char>| is_hex_token(t) && s@ == prefix@ + t,
{
    let token = opaque_secret();
    let s = concat(prefix, token.as_str());
    assert(is_hex_token(token@) && s@ == prefix@ + token@);
    s
}

/// What `sha2::Sha256::digest` returns for the UTF-8 bytes of `text`.
pub uninterp spec fn sha256_of(text: Seq<char>) -> Seq<u8>;

/// `Sha256::digest(value.as_bytes())` as a vector. The digest is named, not
/// described; its length is SHA-256's 32 bytes.
#[verifier::external_body]
pub(crate) fn digest(value: &str) -> (d: Vec<u8>)
    ensures
        d@ == sha256_of(value@),
        d@.len() == 32,
{
    sha2::Sha256::digest(value.as_bytes()).to_vec()
}

/// `subtle::ConstantTimeEq::ct_eq` on byte slices: true exactly when both
/// slices have the same length and the same bytes.
#[verifier::external_body]
pub(crate) fn digests_match(a: &[u8], b: &[u8]) -> (r: bool)
    ensures
        r == (a@ == b@),
{
    subtle::ConstantTimeEq::ct_eq(a, b).into()
}

} // verus!

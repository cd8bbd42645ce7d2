//! Fingerprints.
use vstd::prelude::*;
use vstd::string::*;

verus! {

/// The SHA-256 digest of some bytes, in lower-case hexadecimal.
pub uninterp spec fn sha256_hex(bytes: Seq<u8>) -> Seq<char>;

/// `sha2::Sha256::digest` depends on the bytes alone; its 32 bytes are written as
/// 64 hexadecimal digits.
#[verifier::external_body]
fn sha256(bytes: &[u8]) -> (r: String)
    ensures
        r@ == sha256_hex(bytes@),
        r@.len() == 64,
{
    format!("{:x}", <sha2::Sha256 as sha2::Digest>::digest(bytes))
}

/// What `fingerprint` says of some bytes.
pub open spec fn print_of(bytes: Seq<u8>) -> Seq<char> {
    "sha256:"@ + sha256_hex(bytes)
}

/// The fingerprint of some bytes: the same bytes have the same one.
pub fn fingerprint(bytes: &[u8]) -> (r: String)
    ensures
        r@ == print_of(bytes@),
        r@.len() == 71,
{
    proof {
        reveal_strlit("sha256:");
    }
    let mut r = "sha256:".to_owned();
    let hex = sha256(bytes);
    r.append(hex.as_str());
    r
}

} // verus!

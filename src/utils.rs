use sha2::{Digest, Sha256};
use vstd::prelude::*;

verus! {

/// The lowercase hexadecimal SHA-256 digest of the UTF-8 text `s`.
pub uninterp spec fn sha256_hex(s: Seq<char>) -> Seq<char>;

/// Relies on sha2's `Sha256` (fed `operation`, then `previous_hash`, which
/// digests their concatenation) and on the lowercase-hex rendering of its
/// output: the result depends on the two texts alone.
#[verifier::external_body]
pub fn calculate_hash(operation: &str, previous_hash: &str) -> (r: String)
    ensures
        r@ == sha256_hex(operation@ + previous_hash@),
{
    let mut hasher = Sha256::new();
    hasher.update(operation.as_bytes());
    hasher.update(previous_hash.as_bytes());
    format!("{:x}", hasher.finalize())
}

} // verus!

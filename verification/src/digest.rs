//! The content digest by which messages are told apart.

use vstd::prelude::*;

verus! {

/// The MD5 digest of the UTF-8 bytes of `text`.
pub uninterp spec fn md5_digest(text: Seq<char>) -> Seq<u8>;

/// Calls `md5::compute` on the bytes of `text` and copies the sixteen bytes of
/// the digest out. Trusted: the result is a function of the text alone, named
/// `md5_digest`, and is sixteen bytes long.
#[verifier::external_body]
fn md5_of(text: &str) -> (digest: Vec<u8>)
    ensures
        digest@ == md5_digest(text@),
        digest@.len() == 16,
{
    md5::compute(text).0.to_vec()
}

/// The digest under which `message` is stored.
pub fn message_digest(message: &str) -> (digest: Vec<u8>)
    ensures
        digest@ == md5_digest(message@),
        digest@.len() == 16,
{
    md5_of(message)
}

/// Whether two byte strings are the same.
pub fn same_bytes(a: &Vec<u8>, b: &Vec<u8>) -> (same: bool)
    ensures
        same == (a@ == b@),
{
    if a.len() != b.len() {
        return false;
    }
    let mut i: usize = 0;
    while i < a.len()
        invariant
            a.len() == b.len(),
            i <= a.len(),
            forall|k: int| 0 <= k < i ==> a@[k] == b@[k],
        decreases a.len() - i,
    {
        if a[i] != b[i] {
            return false;
        }
        i += 1;
    }
    assert(a@ =~= b@);
    true
}

} // verus!

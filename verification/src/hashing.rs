//! The digest that identifies a book.

use vstd::prelude::*;
use frame_support::sp_runtime::traits::BlakeTwo256;
use crate::normalize::{lowercase, to_ascii_lowercase};
use crate::preimage::{encode, pre_image};

verus! {

/// The Blake2b digest of 256 bits of a byte string.
pub uninterp spec fn blake2_256(data: Seq<u8>) -> Seq<u8>;

/// Calls `Hash::hash` of `BlakeTwo256`, the hasher of `sp_runtime` that
/// `frame_support` hands on, which hashes `data` with Blake2b at an output
/// length of 32 bytes. Trusted: the digest is a function of the bytes of
/// `data` alone, here given the name `blake2_256`.
#[verifier::external_body]
pub(crate) fn blake2_256_digest(data: &Vec<u8>) -> (digest: [u8; 32])
    ensures
        digest@ == blake2_256(data@),
{
    <BlakeTwo256 as frame_support::sp_runtime::traits::Hash>::hash(data.as_slice()).0
}

/// The digest of a book: that of the pre-image of its case-folded title and
/// author.
pub open spec fn book_hash(title: Seq<u8>, author: Seq<u8>) -> Seq<u8> {
    blake2_256(pre_image(lowercase(title), lowercase(author)))
}

/// Computes the digest of a book from its title and author as given.
pub fn fingerprint(title: &Vec<u8>, author: &Vec<u8>) -> (hash: [u8; 32])
    ensures
        hash@ == book_hash(title@, author@),
{
    let title = to_ascii_lowercase(title);
    let author = to_ascii_lowercase(author);
    hash_folded(&title, &author)
}

/// Computes the digest of a book from its title and author already folded.
pub fn hash_folded(title: &Vec<u8>, author: &Vec<u8>) -> (hash: [u8; 32])
    ensures
        hash@ == blake2_256(pre_image(title@, author@)),
{
    let data = encode(title, author);
    blake2_256_digest(&data)
}

/// Whether two digests hold the same bytes.
pub fn same_hash(a: &[u8; 32], b: &[u8; 32]) -> (same: bool)
    ensures
        same == (a@ == b@),
{
    let mut i: usize = 0;
    while i < 32
        invariant
            i <= 32,
            forall|j: int| 0 <= j < i ==> a@[j] == b@[j],
        decreases 32 - i,
    {
        if a[i] != b[i] {
            return false;
        }
        i += 1;
    }
    assert(a@ =~= b@);
    true
}

} // verus!

//! What holds of the archive over any run of calls.

use vstd::prelude::*;
use crate::hashing::book_hash;
use crate::normalize::{differs_only_in_case, lemma_case_variants_fold_alike, lowercase};
use crate::pallet::{archived, new_summary, outcome, Error, Event, RawOrigin};
use crate::store::{lookup, Archive};

verus! {

/// The arguments of one call of `archive_book`.
pub struct Call<AccountId, BlockNumber> {
    pub origin: RawOrigin<AccountId>,
    pub now: BlockNumber,
    pub title: Seq<u8>,
    pub author: Seq<u8>,
    pub url: Seq<u8>,
}

impl<AccountId, BlockNumber> Call<AccountId, BlockNumber> {
    /// The digest of the book that the call names.
    pub open spec fn hash(self) -> Seq<u8> {
        book_hash(self.title, self.author)
    }

    /// What the call returns on `archive`.
    pub open spec fn outcome_on(self, archive: Archive<AccountId, BlockNumber>) -> Result<
        Event<AccountId>,
        Error,
    > {
        outcome(archive, self.origin, self.title, self.author)
    }

    /// The archive that the call leaves.
    pub open spec fn apply(self, archive: Archive<AccountId, BlockNumber>) -> Archive<
        AccountId,
        BlockNumber,
    > {
        archived(archive, self.origin, self.now, self.title, self.author, self.url)
    }
}

/// The archive after a run of calls, made one after the other.
pub open spec fn after_calls<AccountId, BlockNumber>(
    archive: Archive<AccountId, BlockNumber>,
    calls: Seq<Call<AccountId, BlockNumber>>,
) -> Archive<AccountId, BlockNumber>
    decreases calls.len(),
{
    if calls.len() == 0 {
        archive
    } else {
        calls.last().apply(after_calls(archive, calls.drop_last()))
    }
}

/// What the call at `index` of a run returns.
pub open spec fn outcome_at<AccountId, BlockNumber>(
    archive: Archive<AccountId, BlockNumber>,
    calls: Seq<Call<AccountId, BlockNumber>>,
    index: int,
) -> Result<Event<AccountId>, Error>
    recommends
        0 <= index < calls.len(),
{
    calls[index].outcome_on(after_calls(archive, calls.take(index)))
}

/// Determinism: titles that differ only in ASCII case, with authors that
/// differ only in ASCII case, have one digest.
pub proof fn lemma_hash_ignores_case(t1: Seq<u8>, a1: Seq<u8>, t2: Seq<u8>, a2: Seq<u8>)
    requires
        differs_only_in_case(t1, t2),
        differs_only_in_case(a1, a2),
    ensures
        book_hash(t1, a1) == book_hash(t2, a2),
{
    lemma_case_variants_fold_alike(t1, t2);
    lemma_case_variants_fold_alike(a1, a2);
}

/// Books whose folded titles and folded authors are the same bytes have one
/// digest, whatever else a call says of them.
pub proof fn lemma_hash_of_folded_pair(t1: Seq<u8>, a1: Seq<u8>, t2: Seq<u8>, a2: Seq<u8>)
    requires
        lowercase(t1) == lowercase(t2),
        lowercase(a1) == lowercase(a2),
    ensures
        book_hash(t1, a1) == book_hash(t2, a2),
{
}

/// Uniqueness: once a book is archived, a later call for the same title and
/// author, in whatever case and with whatever url, fails: with
/// `BookAlreadyExistInArchive` where its origin is signed, with `BadOrigin`
/// where it is not. The archive stays as the first call left it, and the url
/// that is stored stays the first.
pub proof fn lemma_archived_once<AccountId, BlockNumber>(
    archive: Archive<AccountId, BlockNumber>,
    first: Call<AccountId, BlockNumber>,
    second: Call<AccountId, BlockNumber>,
)
    requires
        first.outcome_on(archive) is Ok,
        differs_only_in_case(first.title, second.title),
        differs_only_in_case(first.author, second.author),
    ensures
        second.outcome_on(first.apply(archive)) == if second.origin is Signed {
            Err::<Event<AccountId>, Error>(Error::BookAlreadyExistInArchive)
        } else {
            Err::<Event<AccountId>, Error>(Error::BadOrigin)
        },
        second.apply(first.apply(archive)) == first.apply(archive),
        lookup(second.apply(first.apply(archive)), first.hash()) is Some,
        lookup(second.apply(first.apply(archive)), first.hash())->Some_0.url == first.url,
{
    lemma_hash_ignores_case(first.title, first.author, second.title, second.author);
}

/// A call never changes or removes a summary that is stored.
pub proof fn lemma_call_keeps_summaries<AccountId, BlockNumber>(
    archive: Archive<AccountId, BlockNumber>,
    call: Call<AccountId, BlockNumber>,
    hash: Seq<u8>,
)
    requires
        archive.contains_key(hash),
    ensures
        lookup(call.apply(archive), hash) == lookup(archive, hash),
{
}

/// Immutability: no run of calls changes or removes a summary that is
/// stored.
pub proof fn lemma_summaries_never_change<AccountId, BlockNumber>(
    archive: Archive<AccountId, BlockNumber>,
    calls: Seq<Call<AccountId, BlockNumber>>,
    hash: Seq<u8>,
)
    requires
        archive.contains_key(hash),
    ensures
        lookup(after_calls(archive, calls), hash) == lookup(archive, hash),
    decreases calls.len(),
{
    if calls.len() > 0 {
        lemma_summaries_never_change(archive, calls.drop_last(), hash);
        lemma_call_keeps_summaries(after_calls(archive, calls.drop_last()), calls.last(), hash);
    }
}

/// Lookup after an archive: a call that succeeds found nothing under the
/// book's digest, and leaves there exactly the summary of its arguments.
pub proof fn lemma_lookup_finds_archived<AccountId, BlockNumber>(
    archive: Archive<AccountId, BlockNumber>,
    call: Call<AccountId, BlockNumber>,
)
    requires
        call.outcome_on(archive) is Ok,
    ensures
        call.origin is Signed,
        lookup(archive, call.hash()) is None,
        lookup(call.apply(archive), call.hash()) == Some(
            new_summary(call.origin->Signed_0, call.now, call.title, call.author, call.url),
        ),
{
}

/// Lookup before an archive: a digest that the archive lacks stays absent
/// over a run in which no signed call names a book of that digest.
pub proof fn lemma_absent_until_archived<AccountId, BlockNumber>(
    archive: Archive<AccountId, BlockNumber>,
    calls: Seq<Call<AccountId, BlockNumber>>,
    hash: Seq<u8>,
)
    requires
        !archive.contains_key(hash),
        forall|i: int|
            0 <= i < calls.len() ==> !((#[trigger] calls[i]).origin is Signed && calls[i].hash()
                == hash),
    ensures
        lookup(after_calls(archive, calls), hash) is None,
    decreases calls.len(),
{
    if calls.len() > 0 {
        let front = calls.drop_last();
        assert forall|i: int| 0 <= i < front.len() implies !((#[trigger] front[i]).origin is Signed
            && front[i].hash() == hash) by {
            assert(front[i] == calls[i]);
        }
        lemma_absent_until_archived(archive, front, hash);
        assert(calls.last() == calls[calls.len() - 1]);
    }
}

/// All or nothing: a call that fails, for either reason, leaves the archive
/// as it was, so every lookup answers as before.
pub proof fn lemma_failure_changes_nothing<AccountId, BlockNumber>(
    archive: Archive<AccountId, BlockNumber>,
    call: Call<AccountId, BlockNumber>,
)
    requires
        call.outcome_on(archive) is Err,
    ensures
        call.apply(archive) == archive,
        forall|hash: Seq<u8>| lookup(call.apply(archive), hash) == lookup(archive, hash),
{
}

/// Once the first call of a run has succeeded, the digest of its book is
/// taken after every longer part of the run.
proof fn lemma_taken_after_first<AccountId, BlockNumber>(
    archive: Archive<AccountId, BlockNumber>,
    calls: Seq<Call<AccountId, BlockNumber>>,
    upto: int,
)
    requires
        1 <= upto <= calls.len(),
        calls[0].outcome_on(archive) is Ok,
    ensures
        after_calls(archive, calls.take(upto)).contains_key(calls[0].hash()),
    decreases upto,
{
    let part = calls.take(upto);
    assert(part.drop_last() =~= calls.take(upto - 1));
    assert(part.last() == calls[upto - 1]);
    if upto == 1 {
        assert(after_calls(archive, calls.take(0)) == archive);
    } else {
        lemma_taken_after_first(archive, calls, upto - 1);
        lemma_call_keeps_summaries(
            after_calls(archive, calls.take(upto - 1)),
            calls[upto - 1],
            calls[0].hash(),
        );
    }
}

/// One winner: of a run of signed calls for books of one digest, made on
/// an archive that lacks the digest, the first succeeds and every other
/// fails with `BookAlreadyExistInArchive`.
pub proof fn lemma_one_call_succeeds<AccountId, BlockNumber>(
    archive: Archive<AccountId, BlockNumber>,
    calls: Seq<Call<AccountId, BlockNumber>>,
)
    requires
        calls.len() > 0,
        forall|i: int| 0 <= i < calls.len() ==> (#[trigger] calls[i]).origin is Signed,
        forall|i: int| 0 <= i < calls.len() ==> (#[trigger] calls[i]).hash() == calls[0].hash(),
        !archive.contains_key(calls[0].hash()),
    ensures
        outcome_at(archive, calls, 0) is Ok,
        forall|i: int|
            1 <= i < calls.len() ==> #[trigger] outcome_at(archive, calls, i) == Err::<
                Event<AccountId>,
                Error,
            >(Error::BookAlreadyExistInArchive),
{
    assert(after_calls(archive, calls.take(0)) == archive);
    assert forall|i: int| 1 <= i < calls.len() implies #[trigger] outcome_at(archive, calls, i)
        == Err::<Event<AccountId>, Error>(Error::BookAlreadyExistInArchive) by {
        lemma_taken_after_first(archive, calls, i);
        assert(calls[i].origin is Signed);
        assert(calls[i].hash() == calls[0].hash());
    }
}

/// No winner on a taken digest: of a run of calls for books of a digest
/// that the archive holds already, every one fails.
pub proof fn lemma_no_call_succeeds_once_archived<AccountId, BlockNumber>(
    archive: Archive<AccountId, BlockNumber>,
    calls: Seq<Call<AccountId, BlockNumber>>,
    hash: Seq<u8>,
)
    requires
        archive.contains_key(hash),
        forall|i: int| 0 <= i < calls.len() ==> (#[trigger] calls[i]).hash() == hash,
    ensures
        forall|i: int| 0 <= i < calls.len() ==> #[trigger] outcome_at(archive, calls, i) is Err,
{
    assert forall|i: int| 0 <= i < calls.len() implies #[trigger] outcome_at(archive, calls, i)
        is Err by {
        lemma_summaries_never_change(archive, calls.take(i), hash);
        assert(calls[i].hash() == hash);
    }
}

} // verus!

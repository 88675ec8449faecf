//! The record store: a map from digest to summary that only grows.

use vstd::prelude::*;
use crate::hashing::same_hash;
use crate::summary::{BookSummary, BookSummaryView};

verus! {

/// What an archive holds: at most one summary for each digest.
pub type Archive<AccountId, BlockNumber> = Map<Seq<u8>, BookSummaryView<AccountId, BlockNumber>>;

/// What a lookup under `hash` finds in an archive.
pub open spec fn lookup<AccountId, BlockNumber>(
    archive: Archive<AccountId, BlockNumber>,
    hash: Seq<u8>,
) -> Option<BookSummaryView<AccountId, BlockNumber>> {
    if archive.contains_key(hash) {
        Some(archive[hash])
    } else {
        None
    }
}

/// The error of an insertion under a digest that is already taken.
#[derive(Clone, Copy, Debug, PartialEq, Eq)]
pub struct AlreadyExists;

/// One stored summary with the digest it is kept under.
pub struct Entry<AccountId, BlockNumber> {
    pub hash: [u8; 32],
    pub summary: BookSummary<AccountId, BlockNumber>,
}

/// The map that a sequence of entries stands for.
pub open spec fn archive_of<AccountId, BlockNumber>(
    entries: Seq<Entry<AccountId, BlockNumber>>,
) -> Archive<AccountId, BlockNumber>
    decreases entries.len(),
{
    if entries.len() == 0 {
        Map::empty()
    } else {
        archive_of(entries.drop_last()).insert(entries.last().hash@, entries.last().summary@)
    }
}

/// No two entries share a digest.
pub open spec fn distinct_hashes<AccountId, BlockNumber>(
    entries: Seq<Entry<AccountId, BlockNumber>>,
) -> bool {
    forall|i: int, j: int|
        0 <= i < j < entries.len() ==> (#[trigger] entries[i]).hash@ != (#[trigger] entries[j]).hash@
}

/// A digest that no entry carries is not a key of the map.
pub proof fn lemma_absent<AccountId, BlockNumber>(
    entries: Seq<Entry<AccountId, BlockNumber>>,
    hash: Seq<u8>,
)
    requires
        forall|i: int| 0 <= i < entries.len() ==> (#[trigger] entries[i]).hash@ != hash,
    ensures
        !archive_of(entries).contains_key(hash),
    decreases entries.len(),
{
    if entries.len() > 0 {
        let front = entries.drop_last();
        assert forall|i: int| 0 <= i < front.len() implies (#[trigger] front[i]).hash@ != hash by {
            assert(front[i] == entries[i]);
        }
        lemma_absent(front, hash);
        assert(entries.last() == entries[entries.len() - 1]);
    }
}

/// Where digests are distinct, each entry's digest maps to that entry's summary.
pub proof fn lemma_present<AccountId, BlockNumber>(
    entries: Seq<Entry<AccountId, BlockNumber>>,
    at: int,
)
    requires
        distinct_hashes(entries),
        0 <= at < entries.len(),
    ensures
        archive_of(entries).contains_key(entries[at].hash@),
        archive_of(entries)[entries[at].hash@] == entries[at].summary@,
    decreases entries.len(),
{
    let front = entries.drop_last();
    let last = entries.len() - 1;
    if at < last {
        assert forall|i: int, j: int| 0 <= i < j < front.len() implies (#[trigger] front[i]).hash@ != (
        #[trigger] front[j]).hash@ by {
            assert(front[i] == entries[i]);
            assert(front[j] == entries[j]);
        }
        lemma_present(front, at);
        assert(front[at] == entries[at]);
        assert(entries[at].hash@ != entries[last].hash@);
    }
}

/// The record store.
pub struct ArchiveStore<AccountId, BlockNumber> {
    entries: Vec<Entry<AccountId, BlockNumber>>,
}

impl<AccountId, BlockNumber> View for ArchiveStore<AccountId, BlockNumber> {
    type V = Archive<AccountId, BlockNumber>;

    closed spec fn view(&self) -> Archive<AccountId, BlockNumber> {
        archive_of(self.entries@)
    }
}

impl<AccountId: Copy, BlockNumber: Copy> ArchiveStore<AccountId, BlockNumber> {
    /// The store's invariant: every digest is stored once at most.
    pub closed spec fn wf(&self) -> bool {
        distinct_hashes(self.entries@)
    }

    /// An empty store.
    pub fn new() -> (store: Self)
        ensures
            store.wf(),
            store@ == Map::<Seq<u8>, BookSummaryView<AccountId, BlockNumber>>::empty(),
    {
        ArchiveStore { entries: Vec::new() }
    }

    /// Where the entry under `hash` stands, if there is one.
    fn position(&self, hash: &[u8; 32]) -> (found: Option<usize>)
        ensures
            match found {
                Some(at) => at < self.entries@.len() && self.entries@[at as int].hash@ == hash@,
                None => forall|i: int|
                    0 <= i < self.entries@.len() ==> (#[trigger] self.entries@[i]).hash@ != hash@,
            },
    {
        let mut i: usize = 0;
        while i < self.entries.len()
            invariant
                i <= self.entries@.len(),
                forall|j: int| 0 <= j < i ==> (#[trigger] self.entries@[j]).hash@ != hash@,
            decreases self.entries@.len() - i,
        {
            if same_hash(&self.entries[i].hash, hash) {
                return Some(i);
            }
            i += 1;
        }
        None
    }

    /// Whether a summary is stored under `hash`.
    pub fn contains_key(&self, hash: &[u8; 32]) -> (present: bool)
        requires
            self.wf(),
        ensures
            present == self@.contains_key(hash@),
    {
        match self.position(hash) {
            Some(at) => {
                proof {
                    lemma_present(self.entries@, at as int);
                }
                true
            },
            None => {
                proof {
                    lemma_absent(self.entries@, hash@);
                }
                false
            },
        }
    }

    /// A copy of the summary stored under `hash`, if there is one.
    pub fn get(&self, hash: &[u8; 32]) -> (found: Option<BookSummary<AccountId, BlockNumber>>)
        requires
            self.wf(),
        ensures
            match found {
                Some(summary) => lookup(self@, hash@) == Some(summary@),
                None => lookup(self@, hash@) is None,
            },
    {
        match self.position(hash) {
            Some(at) => {
                proof {
                    lemma_present(self.entries@, at as int);
                }
                Some(self.entries[at].summary.duplicate())
            },
            None => {
                proof {
                    lemma_absent(self.entries@, hash@);
                }
                None
            },
        }
    }

    /// Stores `summary` under `hash` unless the digest is taken; a taken
    /// digest leaves the store as it was.
    pub fn insert(&mut self, hash: [u8; 32], summary: BookSummary<AccountId, BlockNumber>) -> (result:
        Result<(), AlreadyExists>)
        requires
            old(self).wf(),
        ensures
            final(self).wf(),
            result is Ok <==> !old(self)@.contains_key(hash@),
            result is Ok ==> final(self)@ == old(self)@.insert(hash@, summary@),
            result is Err ==> final(self)@ == old(self)@,
    {
        match self.position(&hash) {
            Some(at) => {
                proof {
                    lemma_present(self.entries@, at as int);
                }
                Err(AlreadyExists)
            },
            None => {
                proof {
                    lemma_absent(self.entries@, hash@);
                }
                self.entries.push(Entry { hash, summary });
                proof {
                    assert(self.entries@.drop_last() =~= old(self).entries@);
                    assert forall|i: int, j: int| 0 <= i < j < self.entries@.len() implies (
                    #[trigger] self.entries@[i]).hash@ != (#[trigger] self.entries@[j]).hash@ by {
                        assert(self.entries@[i] == old(self).entries@[i]);
                        if j < old(self).entries@.len() {
                            assert(self.entries@[j] == old(self).entries@[j]);
                        }
                    }
                }
                Ok(())
            },
        }
    }
}

} // verus!

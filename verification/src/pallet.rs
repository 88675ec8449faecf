//! The archive itself: one mutating call, `archive_book`, and one lookup,
//! `book_summary`.

use vstd::prelude::*;
use crate::hashing::{book_hash, hash_folded};
use crate::normalize::{lowercase, to_ascii_lowercase};
use crate::store::{lookup, Archive, ArchiveStore};
use crate::summary::{BookSummary, BookSummaryView};

verus! {

/// Configure the pallet by specifying the types on which it depends.
pub trait Config {
    /// The identity of a caller.
    type AccountId: Copy;

    /// The logical time at which a call runs.
    type BlockNumber: Copy;
}

/// Where a call comes from.
#[derive(Clone, Copy, Debug, PartialEq, Eq)]
pub enum RawOrigin<AccountId> {
    /// The system itself.
    Root,
    /// A caller whose identity is established.
    Signed(AccountId),
    /// Nobody in particular.
    Unsigned,
}

/// What a successful call reports to the event sink.
#[derive(Clone, Copy, Debug, PartialEq, Eq)]
pub enum Event<AccountId> {
    /// Event emitted when a book is archived
    BookArchived { who: AccountId },
}

/// Why a call failed.
#[derive(Clone, Copy, Debug, PartialEq, Eq)]
pub enum Error {
    /// The call does not come from a signed origin
    BadOrigin,
    /// Book already exist in archive
    BookAlreadyExistInArchive,
}

/// The signer of a call, or `BadOrigin` where the origin is not a signed one.
pub fn ensure_signed<AccountId>(origin: RawOrigin<AccountId>) -> (signer: Result<AccountId, Error>)
    ensures
        signer == match origin {
            RawOrigin::Signed(who) => Ok::<AccountId, Error>(who),
            _ => Err(Error::BadOrigin),
        },
{
    match origin {
        RawOrigin::Signed(who) => Ok(who),
        _ => Err(Error::BadOrigin),
    }
}

/// The summary that a successful call stores: title and author folded to
/// lower case, the url as given, the signer and the time of the call.
pub open spec fn new_summary<AccountId, BlockNumber>(
    who: AccountId,
    now: BlockNumber,
    title: Seq<u8>,
    author: Seq<u8>,
    url: Seq<u8>,
) -> BookSummaryView<AccountId, BlockNumber> {
    BookSummaryView {
        title: lowercase(title),
        author: lowercase(author),
        url,
        archiver: who,
        timestamp: now,
    }
}

/// What a call of `archive_book` returns on a given archive: `BadOrigin`
/// unless the origin is signed, then `BookAlreadyExistInArchive` if the
/// book's digest is taken, else the event that names the signer.
pub open spec fn outcome<AccountId, BlockNumber>(
    archive: Archive<AccountId, BlockNumber>,
    origin: RawOrigin<AccountId>,
    title: Seq<u8>,
    author: Seq<u8>,
) -> Result<Event<AccountId>, Error> {
    match origin {
        RawOrigin::Signed(who) => if archive.contains_key(book_hash(title, author)) {
            Err(Error::BookAlreadyExistInArchive)
        } else {
            Ok(Event::BookArchived { who })
        },
        _ => Err(Error::BadOrigin),
    }
}

/// The archive after a call of `archive_book`: on success the archive with
/// the new summary under the book's digest, on failure the archive as it was.
pub open spec fn archived<AccountId, BlockNumber>(
    archive: Archive<AccountId, BlockNumber>,
    origin: RawOrigin<AccountId>,
    now: BlockNumber,
    title: Seq<u8>,
    author: Seq<u8>,
    url: Seq<u8>,
) -> Archive<AccountId, BlockNumber> {
    match outcome(archive, origin, title, author) {
        Ok(Event::BookArchived { who }) => archive.insert(
            book_hash(title, author),
            new_summary(who, now, title, author, url),
        ),
        Err(_) => archive,
    }
}

/// The archive of books.
pub struct Pallet<T: Config> {
    store: ArchiveStore<T::AccountId, T::BlockNumber>,
}

impl<T: Config> View for Pallet<T> {
    type V = Archive<T::AccountId, T::BlockNumber>;

    closed spec fn view(&self) -> Archive<T::AccountId, T::BlockNumber> {
        self.store@
    }
}

impl<T: Config> Pallet<T> {
    /// The archive's invariant, which `new` establishes and every call keeps.
    pub closed spec fn wf(&self) -> bool {
        self.store.wf()
    }

    /// An archive without any book.
    pub fn new() -> (pallet: Self)
        ensures
            pallet.wf(),
            pallet@ == Map::<Seq<u8>, BookSummaryView<T::AccountId, T::BlockNumber>>::empty(),
    {
        Pallet { store: ArchiveStore::new() }
    }

    /// Retrieve book summary from the archive: a copy of what is stored
    /// under `hash`, if anything is.
    pub fn book_summary(&self, hash: [u8; 32]) -> (found: Option<
        BookSummary<T::AccountId, T::BlockNumber>,
    >)
        requires
            self.wf(),
        ensures
            match found {
                Some(summary) => lookup(self@, hash@) == Some(summary@),
                None => lookup(self@, hash@) is None,
            },
    {
        self.store.get(&hash)
    }

    /// Archive a specified book for the signer of `origin` at time `now`.
    ///
    /// Fails with `BadOrigin` before anything else where the origin is not
    /// signed, and with `BookAlreadyExistInArchive` where a book of the same
    /// case-folded title and author is archived already. A failed call
    /// leaves the archive as it was and returns no event.
    pub fn archive_book(
        &mut self,
        origin: RawOrigin<T::AccountId>,
        now: T::BlockNumber,
        title: Vec<u8>,
        author: Vec<u8>,
        url: Vec<u8>,
    ) -> (result: Result<Event<T::AccountId>, Error>)
        requires
            old(self).wf(),
        ensures
            final(self).wf(),
            result == outcome(old(self)@, origin, title@, author@),
            final(self)@ == archived(old(self)@, origin, now, title@, author@, url@),
    {
        let signer = match ensure_signed(origin) {
            Ok(who) => who,
            Err(e) => {
                return Err(e);
            },
        };
        let title = to_ascii_lowercase(&title);
        let author = to_ascii_lowercase(&author);
        let book_hash = hash_folded(&title, &author);
        self.archive_hashed(signer, now, book_hash, title, author, url)
    }

    /// Stores the summary of a book whose digest is `hash`, unless the
    /// digest is taken: the step of `archive_book` that follows the hashing.
    pub fn archive_hashed(
        &mut self,
        signer: T::AccountId,
        now: T::BlockNumber,
        hash: [u8; 32],
        title: Vec<u8>,
        author: Vec<u8>,
        url: Vec<u8>,
    ) -> (result: Result<Event<T::AccountId>, Error>)
        requires
            old(self).wf(),
        ensures
            final(self).wf(),
            result == if old(self)@.contains_key(hash@) {
                Err::<Event<T::AccountId>, Error>(Error::BookAlreadyExistInArchive)
            } else {
                Ok(Event::BookArchived { who: signer })
            },
            final(self)@ == if old(self)@.contains_key(hash@) {
                old(self)@
            } else {
                old(self)@.insert(
                    hash@,
                    (BookSummaryView {
                        title: title@,
                        author: author@,
                        url: url@,
                        archiver: signer,
                        timestamp: now,
                    }),
                )
            },
    {
        let book_summary = BookSummary { title, author, url, archiver: signer, timestamp: now };
        match self.store.insert(hash, book_summary) {
            Ok(()) => Ok(Event::BookArchived { who: signer }),
            Err(_) => Err(Error::BookAlreadyExistInArchive),
        }
    }
}

} // verus!

//! The summary that the archive keeps of a book.

use vstd::prelude::*;

verus! {

/// Book summary
#[derive(Clone, Debug, Default, PartialEq, Eq)]
pub struct BookSummary<AccountId, BlockNumber> {
    /// title of book, folded to lower case
    pub title: Vec<u8>,
    /// author of book, folded to lower case
    pub author: Vec<u8>,
    /// web url to off-chain storage, kept as given
    pub url: Vec<u8>,
    /// account id of archiver
    pub archiver: AccountId,
    /// time when book was archived
    pub timestamp: BlockNumber,
}

/// What a summary holds: its byte strings as sequences, the rest as it is.
pub struct BookSummaryView<AccountId, BlockNumber> {
    pub title: Seq<u8>,
    pub author: Seq<u8>,
    pub url: Seq<u8>,
    pub archiver: AccountId,
    pub timestamp: BlockNumber,
}

impl<AccountId, BlockNumber> View for BookSummary<AccountId, BlockNumber> {
    type V = BookSummaryView<AccountId, BlockNumber>;

    open spec fn view(&self) -> BookSummaryView<AccountId, BlockNumber> {
        BookSummaryView {
            title: self.title@,
            author: self.author@,
            url: self.url@,
            archiver: self.archiver,
            timestamp: self.timestamp,
        }
    }
}

impl<AccountId: Copy, BlockNumber: Copy> BookSummary<AccountId, BlockNumber> {
    /// A copy of the summary, field for field.
    pub fn duplicate(&self) -> (copy: Self)
        ensures
            copy@ == self@,
    {
        let title = self.title.clone();
        let author = self.author.clone();
        let url = self.url.clone();
        BookSummary { title, author, url, archiver: self.archiver, timestamp: self.timestamp }
    }
}

} // verus!

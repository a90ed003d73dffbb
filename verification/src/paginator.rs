//! Listing asset identifiers page by page.
//!
//! The index service hands out at most `PAGE_SIZE` identifiers per request.
//! A `Pagination` records what has arrived and decides whether another
//! request is due; the caller performs the requests.

use crate::address::{normalize_address, normalized};
use crate::category::NFT;
use crate::error::ParseError;
use crate::json::{items, json_document, json_items, json_member, json_rendering, member,
    parse_document, render};
use crate::text::{decimal, strip_quotes, texts, u64_to_string, without_quotes};
use serde_json::Value;
use vstd::prelude::*;
use vstd::string::*;

verus! {

/// The number of identifiers in a full page.
pub const PAGE_SIZE: usize = 25;

/// The identifiers that a page's entries stand for: each entry's compact
/// rendering without its quotation marks.
pub open spec fn page_ids_of(entries: Seq<Value>) -> Seq<Seq<char>> {
    Seq::new(entries.len(), |i: int| without_quotes(json_rendering(entries[i])))
}

/// What the body of a page response holds for the asset kind `nft`.
pub open spec fn id_page(body: Seq<char>, nft: NFT) -> Result<Seq<Seq<char>>, ParseError> {
    match json_document(body) {
        None => Err(ParseError::InvalidJson),
        Some(doc) => match json_member(doc, nft.key_text()) {
            None => Err(ParseError::MissingField),
            Some(field) => match json_items(field) {
                None => Err(ParseError::NotAnArray),
                Some(entries) => Ok(page_ids_of(entries)),
            },
        },
    }
}

/// The address of the page of `nft` identifiers that starts at `offset`.
pub open spec fn page_url_text(host: Seq<char>, nft: NFT, address: Seq<char>, offset: nat) -> Seq<
    char,
> {
    host + "/ronin/nfts/"@ + nft.key_text() + "/"@ + normalized(address) + "?offset="@ + decimal(
        offset,
    )
}

/// Builds the address of one page request. The wallet address is brought
/// into canonical form first.
pub fn page_url(host: &str, nft: NFT, address: &str, offset: usize) -> (r: String)
    ensures
        r@ == page_url_text(host@, nft, address@, offset as nat),
{
    let canonical = normalize_address(address);
    let number = u64_to_string(offset as u64);
    let mut url = String::from_str(host);
    url.append("/ronin/nfts/");
    url.append(nft.key());
    url.append("/");
    url.append(canonical.as_str());
    url.append("?offset=");
    url.append(number.as_str());
    url
}

/// Turns the entries of a page into identifiers.
pub fn collect_ids(entries: &Vec<Value>) -> (r: Vec<String>)
    ensures
        texts(r@) == page_ids_of(entries@),
{
    let mut ids: Vec<String> = Vec::new();
    let mut i: usize = 0;
    while i < entries.len()
        invariant
            i <= entries.len(),
            ids@.len() == i,
            forall|j: int| 0 <= j < i ==> (#[trigger] ids@[j])@ == without_quotes(json_rendering(entries@[j])),
        decreases entries.len() - i,
    {
        let rendered = render(&entries[i]);
        ids.push(strip_quotes(rendered.as_str()));
        i += 1;
    }
    assert(texts(ids@) =~= page_ids_of(entries@));
    ids
}

/// Reads the identifiers from the body of a page response: the document's
/// field named after the asset kind must be an array, and a body that is
/// not a document, or lacks that field, is rejected.
pub fn parse_id_page(body: &str, nft: NFT) -> (r: Result<Vec<String>, ParseError>)
    ensures
        match r {
            Ok(ids) => id_page(body@, nft) == Ok::<Seq<Seq<char>>, ParseError>(texts(ids@)),
            Err(e) => id_page(body@, nft) == Err::<Seq<Seq<char>>, ParseError>(e),
        },
{
    let doc = match parse_document(body) {
        Ok(doc) => doc,
        Err(_) => {
            return Err(ParseError::InvalidJson);
        },
    };
    let field = match member(&doc, nft.key()) {
        Some(field) => field,
        None => {
            return Err(ParseError::MissingField);
        },
    };
    match items(field) {
        Some(entries) => Ok(collect_ids(entries)),
        None => Err(ParseError::NotAnArray),
    }
}

/// The identifiers that one address holds of one contract, as the index
/// service reports them.
#[derive(Debug)]
pub struct NFTIdList {
    pub address: String,
    pub contract: String,
    pub items: Option<Vec<String>>,
}

/// The progress of one listing: the identifiers gathered so far, and
/// whether the last page has been seen.
pub struct Pagination {
    pub ids: Vec<String>,
    pub finished: bool,
}

/// What a `Pagination` holds, as plain values.
pub struct ListingView {
    pub ids: Seq<Seq<char>>,
    pub finished: bool,
}

impl ListingView {
    /// The offset of the next request, if one is due.
    pub open spec fn pending(self) -> Option<nat> {
        if self.finished {
            None
        } else {
            Some(self.ids.len())
        }
    }

    /// The listing after `page` has answered the pending request. A
    /// listing that is finished takes nothing in.
    pub open spec fn absorbed(self, page: Seq<Seq<char>>) -> ListingView {
        if self.finished {
            self
        } else {
            ListingView { ids: self.ids + page, finished: page.len() != 25 }
        }
    }
}

impl View for Pagination {
    type V = ListingView;

    open spec fn view(&self) -> ListingView {
        ListingView { ids: texts(self.ids@), finished: self.finished }
    }
}

/// The listing that has taken in `pages`, one after the other.
pub open spec fn listing_of(pages: Seq<Seq<Seq<char>>>) -> ListingView
    decreases pages.len(),
{
    if pages.len() == 0 {
        ListingView { ids: Seq::empty(), finished: false }
    } else {
        listing_of(pages.drop_last()).absorbed(pages.last())
    }
}

/// The identifiers of `pages`, one page after the other.
pub open spec fn joined(pages: Seq<Seq<Seq<char>>>) -> Seq<Seq<char>>
    decreases pages.len(),
{
    if pages.len() == 0 {
        Seq::empty()
    } else {
        joined(pages.drop_last()) + pages.last()
    }
}

/// After full pages only, the listing holds all their identifiers and is
/// still open.
proof fn lemma_full_pages(pages: Seq<Seq<Seq<char>>>)
    requires
        forall|i: int| 0 <= i < pages.len() ==> (#[trigger] pages[i]).len() == 25,
    ensures
        !listing_of(pages).finished,
        listing_of(pages).ids == joined(pages),
        listing_of(pages).ids.len() == 25 * pages.len(),
    decreases pages.len(),
{
    if pages.len() > 0 {
        lemma_full_pages(pages.drop_last());
        assert(pages.last() == pages[pages.len() - 1]);
    }
}

/// A listing ends with its first page that is not full: when every page
/// but the last holds exactly 25 identifiers, each page is requested at an
/// offset of 25 times the number of pages before it, the last page ends the
/// listing, and the listing then holds the identifiers of all pages in
/// order.
pub proof fn lemma_listing_ends_with_short_page(pages: Seq<Seq<Seq<char>>>)
    requires
        pages.len() > 0,
        forall|i: int| 0 <= i < pages.len() - 1 ==> (#[trigger] pages[i]).len() == 25,
        pages.last().len() != 25,
    ensures
        listing_of(pages).finished,
        listing_of(pages).pending().is_none(),
        listing_of(pages).ids == joined(pages),
        listing_of(pages).ids.len() == 25 * (pages.len() - 1) + pages.last().len(),
        forall|i: int|
            0 <= i < pages.len() ==> listing_of(#[trigger] pages.take(i)).pending() == Some(
                (25 * i) as nat,
            ),
{
    lemma_full_pages(pages.drop_last());
    assert forall|i: int| 0 <= i < pages.len() implies listing_of(
        #[trigger] pages.take(i),
    ).pending() == Some((25 * i) as nat) by {
        lemma_full_pages(pages.take(i));
    }
}

impl Pagination {
    /// While pages are still due, only full pages have been absorbed.
    pub open spec fn well_formed(&self) -> bool {
        !self.finished ==> self.ids@.len() % 25 == 0
    }

    /// The offset of the next request, if one is due.
    pub open spec fn pending(&self) -> Option<nat> {
        self@.pending()
    }

    /// Tests whether only full pages came before a pending request.
    pub fn is_well_formed(&self) -> (r: bool)
        ensures
            r == self.well_formed(),
    {
        self.finished || self.ids.len() % PAGE_SIZE == 0
    }

    /// A listing of which nothing has been requested yet.
    pub fn start() -> (r: Pagination)
        ensures
            r.ids@.len() == 0,
            !r.finished,
            r.well_formed(),
            r.pending() == Some(0nat),
            r@ == listing_of(Seq::empty()),
    {
        let r = Pagination { ids: Vec::new(), finished: false };
        assert(texts(r.ids@) =~= Seq::<Seq<char>>::empty());
        r
    }

    /// The offset to request next, or `None` once the last page is in.
    pub fn next_offset(&self) -> (r: Option<usize>)
        ensures
            match r {
                Some(offset) => self.pending() == Some(offset as nat),
                None => self.pending().is_none(),
            },
    {
        if self.finished {
            None
        } else {
            Some(self.ids.len())
        }
    }

    /// Takes in the page that answered the pending request. A page of
    /// exactly `PAGE_SIZE` identifiers leaves one more request pending, at
    /// an offset `PAGE_SIZE` further on; any other page is the last. A page
    /// offered after the last one is ignored.
    pub fn absorb(&mut self, page: Vec<String>)
        ensures
            old(self).well_formed() ==> final(self).well_formed(),
            final(self)@ == old(self)@.absorbed(texts(page@)),
            old(self).finished ==> *final(self) == *old(self),
            !old(self).finished ==> final(self).ids@ == old(self).ids@ + page@,
            !old(self).finished ==> final(self).finished == (page@.len() != 25),
            !old(self).finished && page@.len() == 25 ==> final(self).pending() == Some(
                old(self).ids@.len() + 25,
            ),
            !old(self).finished && page@.len() != 25 ==> final(self).pending().is_none(),
    {
        if self.finished {
            return ;
        }
        let full = page.len() == PAGE_SIZE;
        let ghost taken = page@;
        let mut page = page;
        self.ids.append(&mut page);
        self.finished = !full;
        assert(texts(self.ids@) =~= texts(old(self).ids@) + texts(taken));
    }

    /// Takes in the body of the response to the pending request. A body
    /// that cannot be read is rejected and leaves the listing as it was.
    pub fn absorb_body(&mut self, body: &str, nft: NFT) -> (r: Result<(), ParseError>)
        ensures
            old(self).well_formed() ==> final(self).well_formed(),
            match id_page(body@, nft) {
                Ok(page) => r is Ok && final(self)@ == old(self)@.absorbed(page),
                Err(e) => r == Err::<(), ParseError>(e) && *final(self) == *old(self),
            },
    {
        match parse_id_page(body, nft) {
            Ok(page) => {
                self.absorb(page);
                Ok(())
            },
            Err(e) => Err(e),
        }
    }

    /// Ends the listing and hands out what was gathered.
    pub fn into_ids(self) -> (r: Vec<String>)
        ensures
            r@ == self.ids@,
    {
        self.ids
    }
}

} // verus!

//! Reading the transactions of a whole statement document, page by page.

use crate::parser::{get_transactions, transactions_in};
use crate::pattern::Patterns;
use crate::transaction::{records, Transaction, TransactionView};
use crate::window::{page_window, window_of};
use lopdf::Document;
use vstd::prelude::*;
use vstd::string::*;

verus! {

/// `lopdf::Document`, a loaded PDF document; opaque to the verifier.
#[verifier::external_type_specification]
#[verifier::external_body]
pub struct ExDocument(lopdf::Document);

/// `lopdf::Error`, the reason a page gave no text; opaque to the verifier.
#[verifier::external_type_specification]
#[verifier::external_body]
pub struct ExDocumentError(lopdf::Error);

/// The number of pages that `Document::get_pages` finds in the document.
pub uninterp spec fn page_count_of(document: Document) -> usize;

/// The text that `Document::extract_text` returns for one page number, or
/// nothing where it returns an error.
pub uninterp spec fn page_text_of(document: Document, page: u32) -> Option<Seq<char>>;

/// Calls `Document::get_pages` and counts the pages. Claims only that the
/// count is the named one.
#[verifier::external_body]
pub(crate) fn page_count(document: &Document) -> (n: usize)
    ensures
        n == page_count_of(*document),
{
    document.get_pages().len()
}

/// Calls `Document::extract_text` for a single page number. Claims only that
/// text and failure are the named outcome for that page.
#[verifier::external_body]
pub(crate) fn extract_page(document: &Document, page: u32) -> (r: Result<String, lopdf::Error>)
    ensures
        match r {
            Ok(text) => page_text_of(*document, page) == Some(text@),
            Err(_) => page_text_of(*document, page) is None,
        },
{
    document.extract_text(&[page])
}

/// The number of pages that are read: every page that a page number can name.
pub open spec fn pages_read(document: Document) -> nat {
    if page_count_of(document) <= u32::MAX {
        page_count_of(document) as nat
    } else {
        u32::MAX as nat
    }
}

/// The outcome of text extraction for each page, from page one on.
pub open spec fn page_texts(document: Document) -> Seq<Option<Seq<char>>> {
    Seq::new(pages_read(document), |i: int| page_text_of(document, (i + 1) as u32))
}

/// The records of one page: those in its window, or none where the page
/// gave no text.
pub open spec fn page_transactions(patterns: Patterns, page: Option<Seq<char>>) -> Seq<
    TransactionView,
> {
    match page {
        Some(text) => transactions_in(patterns, window_of(text)),
        None => Seq::empty(),
    }
}

/// The records of all pages, in page order.
pub open spec fn statement_transactions(
    patterns: Patterns,
    pages: Seq<Option<Seq<char>>>,
) -> Seq<TransactionView>
    decreases pages.len(),
{
    if pages.len() == 0 {
        Seq::empty()
    } else {
        statement_transactions(patterns, pages.drop_last()) + page_transactions(
            patterns,
            pages.last(),
        )
    }
}

/// The content of an optional string slice.
pub open spec fn text_view(page: Option<&str>) -> Option<Seq<char>> {
    match page {
        Some(text) => Some(text@),
        None => None,
    }
}

/// Reads the transactions of one page from the outcome of its text
/// extraction. A page without text contributes nothing.
pub fn get_transactions_from_page(patterns: &Patterns, page: Option<&str>) -> (list: Vec<
    Transaction,
>)
    ensures
        records(list@) == page_transactions(*patterns, text_view(page)),
        forall|i: int| 0 <= i < list@.len() ==> (#[trigger] list@[i]).wf(),
{
    match page {
        Some(text) => get_transactions(patterns, page_window(text)),
        None => {
            let list: Vec<Transaction> = Vec::new();
            proof {
                assert(records(list@) =~= Seq::<TransactionView>::empty());
            }
            list
        },
    }
}

/// Reads the transactions of every page of a document, in page order. A
/// page whose text cannot be extracted is passed over.
pub fn get_transactions_from_pdf(patterns: &Patterns, document: &Document) -> (list: Vec<
    Transaction,
>)
    ensures
        records(list@) == statement_transactions(*patterns, page_texts(*document)),
        forall|i: int| 0 <= i < list@.len() ==> (#[trigger] list@[i]).wf(),
{
    let count = page_count(document);
    let mut list: Vec<Transaction> = Vec::new();
    let mut page: u32 = 0;
    let ghost pages = page_texts(*document);
    proof {
        assert(pages.take(0) =~= Seq::<Option<Seq<char>>>::empty());
        assert(records(list@) =~= Seq::<TransactionView>::empty());
    }
    while page < u32::MAX && (page as usize) < count
        invariant
            count == page_count_of(*document),
            pages == page_texts(*document),
            page <= pages.len(),
            records(list@) == statement_transactions(*patterns, pages.take(page as int)),
            forall|i: int| 0 <= i < list@.len() ==> (#[trigger] list@[i]).wf(),
        decreases u32::MAX - page,
    {
        let ghost before = list@;
        let ghost done = page as int;
        page += 1;
        let mut found = match extract_page(document, page) {
            Ok(text) => get_transactions_from_page(patterns, Some(text.as_str())),
            Err(_) => get_transactions_from_page(patterns, None),
        };
        let ghost added = found@;
        list.append(&mut found);
        proof {
            assert(pages.take(done + 1).drop_last() =~= pages.take(done));
            assert(pages.take(done + 1).last() == page_text_of(*document, page));
            assert(records(list@) =~= records(before) + records(added));
        }
    }
    proof {
        assert(pages.take(page as int) =~= pages);
    }
    list
}

} // verus!

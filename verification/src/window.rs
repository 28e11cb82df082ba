//! The part of a page between the opening and the closing balance line.

use crate::text::{between, cut, find_first, find_marker, lemma_ends_are_cuts};
use vstd::prelude::*;
use vstd::string::*;
use vstd::utf8::*;

verus! {

broadcast use {vstd::string::group_string_axioms, vstd::utf8::group_utf8_lib};

/// The text of the opening balance line, where the window begins.
pub const STARTING_TEXT: &'static str = "ALTER SALDO";

/// The text of the closing balance line, before which the window ends.
pub const ENDING_TEXT: &'static str = "NEUER SALDO";

/// The byte offset at which the window begins: the first opening marker, or
/// the start of the page where there is none.
pub open spec fn window_start(page: Seq<char>) -> int {
    match find_first(page, STARTING_TEXT@) {
        Some(i) => i,
        None => 0,
    }
}

/// The byte offset at which the window ends: the first closing marker, or the
/// end of the page where there is none.
pub open spec fn window_end(page: Seq<char>) -> int {
    match find_first(page, ENDING_TEXT@) {
        Some(i) => i,
        None => encode_utf8(page).len() as int,
    }
}

/// The window of a page. It is empty where the closing marker comes before
/// the opening one.
pub open spec fn window_of(page: Seq<char>) -> Seq<char> {
    if window_start(page) <= window_end(page) {
        between(page, window_start(page), window_end(page))
    } else {
        Seq::empty()
    }
}

/// Narrows a page to its window.
pub fn page_window(page: &str) -> (w: &str)
    ensures
        w@ == window_of(page@),
{
    let start = match find_marker(page, STARTING_TEXT) {
        Some(i) => i,
        None => 0,
    };
    let end = match find_marker(page, ENDING_TEXT) {
        Some(i) => i,
        None => page.as_bytes().len(),
    };
    proof {
        lemma_ends_are_cuts(page@);
    }
    if start <= end {
        cut(page, start, end)
    } else {
        let w = cut(page, 0, 0);
        proof {
            assert(encode_utf8(page@).subrange(0, 0) =~= Seq::<u8>::empty());
            assert(w@.len() == 0) by {
                reveal_with_fuel(decode_utf8, 1);
            }
            assert(w@ =~= Seq::<char>::empty());
        }
        w
    }
}

} // verus!

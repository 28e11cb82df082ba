//! Splitting a window into fragments, one for each date marker.

use crate::pattern::{find_spans, regex_matches, spans_in_order};
use crate::text::{between, cut, is_cut, lemma_cut_in_bounds, lemma_ends_are_cuts};
use regex::Regex;
use vstd::prelude::*;
use vstd::string::*;
use vstd::utf8::*;

verus! {

broadcast use {vstd::string::group_string_axioms, vstd::utf8::group_utf8_lib};

/// The start offset of each span.
pub open spec fn span_starts(spans: Seq<(usize, usize)>) -> Seq<usize> {
    spans.map_values(|s: (usize, usize)| s.0)
}

/// Whether `starts` is a strictly increasing list of cuts of `text`.
pub open spec fn cuts_in_order(text: Seq<char>, starts: Seq<usize>) -> bool {
    &&& forall|i: int| 0 <= i < starts.len() ==> is_cut(text, #[trigger] starts[i] as int)
    &&& forall|i: int, j: int|
        0 <= i < j < starts.len() ==> (#[trigger] starts[i]) < (#[trigger] starts[j])
}

/// The text from the `i`-th start up to the next start, or to the end of
/// `text` for the last one.
pub open spec fn piece(text: Seq<char>, starts: Seq<usize>, i: int) -> Seq<char> {
    let end = if i + 1 < starts.len() {
        starts[i + 1] as int
    } else {
        encode_utf8(text).len() as int
    };
    between(text, starts[i] as int, end)
}

/// One piece for each start, in order.
pub open spec fn pieces(text: Seq<char>, starts: Seq<usize>) -> Seq<Seq<char>> {
    Seq::new(starts.len(), |i: int| piece(text, starts, i))
}

/// The test that a fragment holds at least one character.
pub open spec fn non_empty() -> spec_fn(Seq<char>) -> bool {
    |f: Seq<char>| f.len() > 0
}

/// The fragments of `text` for the given starts: its pieces, without the
/// empty ones. What stands before the first start belongs to no fragment.
pub open spec fn fragments(text: Seq<char>, starts: Seq<usize>) -> Seq<Seq<char>> {
    pieces(text, starts).filter(non_empty())
}

/// The character content of each string slice.
pub open spec fn views(parts: Seq<&str>) -> Seq<Seq<char>> {
    parts.map_values(|p: &str| p@)
}

/// Cuts `text` at each of `starts`. Every fragment begins at a start and
/// runs to the byte before the next one; the last runs to the end of `text`.
pub fn split_at_starts<'a>(text: &'a str, starts: &Vec<usize>) -> (parts: Vec<&'a str>)
    requires
        cuts_in_order(text@, starts@),
    ensures
        views(parts@) == fragments(text@, starts@),
{
    let n = starts.len();
    let total = text.as_bytes().len();
    let mut parts: Vec<&'a str> = Vec::new();
    let mut i: usize = 0;
    let ghost all = pieces(text@, starts@);
    proof {
        reveal(Seq::filter);
        lemma_ends_are_cuts(text@);
        assert(all.take(0) =~= Seq::<Seq<char>>::empty());
        assert(views(parts@) =~= Seq::<Seq<char>>::empty());
    }
    while i < n
        invariant
            i <= n,
            n == starts@.len(),
            total == encode_utf8(text@).len(),
            is_cut(text@, total as int),
            cuts_in_order(text@, starts@),
            all == pieces(text@, starts@),
            views(parts@) == all.take(i as int).filter(non_empty()),
        decreases n - i,
    {
        let end = if i + 1 < n {
            starts[i + 1]
        } else {
            total
        };
        proof {
            lemma_cut_in_bounds(text@, starts@[i as int] as int);
        }
        let part = cut(text, starts[i], end);
        let ghost before = parts@;
        if !part.is_empty() {
            parts.push(part);
        }
        proof {
            reveal(Seq::filter);
            assert(all.take(i + 1).drop_last() =~= all.take(i as int));
            assert(all.take(i + 1).last() == part@);
            if part@.len() > 0 {
                assert(views(parts@) =~= views(before).push(part@));
            }
        }
        i += 1;
    }
    proof {
        assert(all.take(n as int) =~= all);
    }
    parts
}

/// Splits `text` at the start of every match of `re`, so that each fragment
/// keeps its marker as its first characters.
pub fn split_by_regex<'a>(text: &'a str, re: &Regex) -> (parts: Vec<&'a str>)
    ensures
        views(parts@) == fragments(text@, span_starts(regex_matches(*re, text@))),
{
    let spans = find_spans(re, text);
    let n = spans.len();
    let mut starts: Vec<usize> = Vec::new();
    let mut i: usize = 0;
    while i < n
        invariant
            i <= n,
            n == spans@.len(),
            starts@ == span_starts(spans@.take(i as int)),
        decreases n - i,
    {
        starts.push(spans[i].0);
        proof {
            assert(span_starts(spans@.take(i + 1)) =~= span_starts(spans@.take(i as int)).push(
                spans@[i as int].0,
            ));
        }
        i += 1;
    }
    proof {
        assert(spans@.take(n as int) =~= spans@);
        assert forall|a: int, b: int| 0 <= a < b < starts@.len() implies (#[trigger] starts@[a])
            < (#[trigger] starts@[b]) by {
            assert(spans@[a].0 < spans@[b].0);
        }
        assert forall|a: int| 0 <= a < starts@.len() implies is_cut(
            text@,
            #[trigger] starts@[a] as int,
        ) by {
            assert(is_cut(text@, spans@[a].0 as int));
        }
    }
    split_at_starts(text, &starts)
}

} // verus!

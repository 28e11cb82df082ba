//! Reading one fragment as a transaction, and a window as a list of them.

use crate::amount::{
    is_money_number, is_zero, lemma_money_ends, lemma_parse_money_wf, parse_amount, parse_money,
    with_point, Amount, AmountView,
};
use crate::pattern::{
    find_span, find_spans, regex_first_match, regex_matches, span_in_text, spans_in_order, Patterns,
};
use crate::splitter::{fragments, span_starts, split_by_regex, views};
use crate::text::{
    between, collapse_newlines, cut, is_white_space, join_lines, lemma_between_concat,
    lemma_collapse_ends, lemma_cut_in_bounds, lemma_ends_are_cuts, lemma_split_once,
    lemma_trim_end_keeps_start, lemma_trimmed_ends, lemma_trimmed_fixed, split_first_line,
    split_once_newline, trim, trim_end, trim_start, trimmed,
};
use crate::transaction::{records, Transaction, TransactionView};
use regex::Regex;
use vstd::prelude::*;
use vstd::string::*;
use vstd::utf8::*;

verus! {

broadcast use {vstd::string::group_string_axioms, vstd::utf8::group_utf8_lib};

/// The description candidate: what stands before the last money number of
/// `rest`, trimmed. Earlier money numbers belong to it.
pub open spec fn description_part(rest: Seq<char>, spans: Seq<(usize, usize)>) -> Seq<char> {
    if spans.len() == 0 {
        Seq::empty()
    } else {
        trimmed(between(rest, 0, spans.last().0 as int))
    }
}

/// The amount candidate: `rest` from its last money number on, trimmed.
pub open spec fn amount_part(rest: Seq<char>, spans: Seq<(usize, usize)>) -> Seq<char> {
    if spans.len() == 0 {
        Seq::empty()
    } else {
        trimmed(between(rest, spans.last().0 as int, encode_utf8(rest).len() as int))
    }
}

/// The amount that the first money number of the candidate stands for,
/// given the span of that number.
pub open spec fn amount_in(candidate: Seq<char>, first: Option<(usize, usize)>) -> Option<
    AmountView,
> {
    match first {
        Some(span) => parse_money(between(candidate, span.0 as int, span.1 as int)),
        None => None,
    }
}

/// The record made of the three parts, or none where the date line or the
/// description is empty or there is no amount.
pub open spec fn assemble(
    date_line: Seq<char>,
    description: Seq<char>,
    amount: Option<AmountView>,
) -> Option<TransactionView> {
    match amount {
        Some(a) => if date_line.len() > 0 && description.len() > 0 {
            Some(
                TransactionView {
                    date: trimmed(date_line),
                    description: trimmed(collapse_newlines(description)),
                    amount: a,
                },
            )
        } else {
            None
        },
        None => None,
    }
}

/// The record that a date line and the text after it stand for.
pub open spec fn parse_lines(number: Regex, date_line: Seq<char>, rest: Seq<char>) -> Option<
    TransactionView,
> {
    let spans = regex_matches(number, rest);
    let candidate = amount_part(rest, spans);
    assemble(
        date_line,
        description_part(rest, spans),
        amount_in(candidate, regex_first_match(number, candidate)),
    )
}

/// The record that a fragment stands for. There is none where the trimmed
/// fragment has no line feed, or its first line holds no date marker.
pub open spec fn parse(patterns: Patterns, fragment: Seq<char>) -> Option<TransactionView> {
    match split_once_newline(trimmed(fragment)) {
        Some((date_line, rest)) => if regex_first_match(patterns.date, date_line) is Some {
            parse_lines(patterns.number, date_line, rest)
        } else {
            None
        },
        None => None,
    }
}

/// The records of those fragments that stand for one, in the fragments' order.
pub open spec fn parse_all(patterns: Patterns, frags: Seq<Seq<char>>) -> Seq<TransactionView>
    decreases frags.len(),
{
    if frags.len() == 0 {
        Seq::empty()
    } else {
        let init = parse_all(patterns, frags.drop_last());
        match parse(patterns, frags.last()) {
            Some(t) => init.push(t),
            None => init,
        }
    }
}

/// The records found in a window of text.
pub open spec fn transactions_in(patterns: Patterns, text: Seq<char>) -> Seq<TransactionView> {
    parse_all(patterns, fragments(text, span_starts(regex_matches(patterns.date, text))))
}

/// The content of an optional amount.
pub open spec fn amount_view(amount: Option<Amount>) -> Option<AmountView> {
    match amount {
        Some(a) => Some(a@),
        None => None,
    }
}

/// The content of an optional record.
pub open spec fn record_view(record: Option<Transaction>) -> Option<TransactionView> {
    match record {
        Some(t) => Some(t@),
        None => None,
    }
}

/// Every record that a fragment stands for is complete: its date and its
/// description are not empty, and its amount is a decimal other than zero.
pub proof fn lemma_parsed_record_is_complete(patterns: Patterns, fragment: Seq<char>)
    ensures
        parse(patterns, fragment) matches Some(t) ==> t.wf(),
{
    let part = trimmed(fragment);
    if let Some(t) = parse(patterns, fragment) {
        part.index_of_first_ensures('\n');
        let (date_line, rest) = split_once_newline(part).unwrap();
        let spans = regex_matches(patterns.number, rest);
        let candidate = amount_part(rest, spans);
        let description = description_part(rest, spans);
        assert(date_line.len() > 0 && description.len() > 0);
        lemma_trimmed_ends(fragment);
        assert(date_line[0] == part[0]);
        lemma_trim_end_keeps_start(date_line);
        assert(t.date.len() > 0);
        lemma_trimmed_ends(between(rest, 0, spans.last().0 as int));
        lemma_collapse_ends(description);
        lemma_trimmed_fixed(collapse_newlines(description));
        assert(t.description.len() > 0);
        let span = regex_first_match(patterns.number, candidate).unwrap();
        lemma_parse_money_wf(between(candidate, span.0 as int, span.1 as int));
    }
}

/// A fragment made of a date line, description text and a money number on
/// a last line of its own stands for exactly one record: the date as it is
/// printed, the description with its lines joined by a comma and a space,
/// and the amount with a point for the comma. The searches are taken to
/// report a date marker in the date line and the money number of the last
/// line as the last one of the text after the date line.
pub proof fn lemma_plain_fragment(
    patterns: Patterns,
    date: Seq<char>,
    body: Seq<char>,
    money: Seq<char>,
)
    requires
        date.len() > 0,
        !date.contains('\n'),
        !is_white_space(date[0]),
        !is_white_space(date.last()),
        regex_first_match(patterns.date, date) is Some,
        body.len() > 0,
        !is_white_space(body[0]),
        !is_white_space(body.last()),
        is_money_number(money),
        !is_zero(money),
        regex_matches(patterns.number, body.push('\n') + money).len() > 0,
        regex_matches(patterns.number, body.push('\n') + money).last().0 == encode_utf8(
            body.push('\n'),
        ).len(),
        regex_first_match(patterns.number, money) matches Some(span) && span.0 == 0 && span.1
            == encode_utf8(money).len(),
    ensures
        parse(patterns, date.push('\n') + (body.push('\n') + money)) == Some(
            TransactionView {
                date: date,
                description: collapse_newlines(body),
                amount: AmountView { negative: false, decimal: with_point(money) },
            },
        ),
{
    let rest = body.push('\n') + money;
    let fragment = date.push('\n') + rest;
    lemma_money_ends(money);
    assert(fragment[0] == date[0]);
    assert(fragment.last() == money.last());
    lemma_trimmed_fixed(fragment);
    lemma_split_once(date, rest);
    let spans = regex_matches(patterns.number, rest);
    lemma_between_concat(body.push('\n'), money);
    let lined = body.push('\n');
    assert(lined[0] == body[0]);
    assert(lined.drop_last() =~= body);
    assert(description_part(rest, spans) == body) by {
        assert(trim_start(lined) == lined);
        assert(trim_end(lined) == trim_end(body));
        assert(trim_end(body) == body);
    }
    lemma_trimmed_fixed(money);
    assert(amount_part(rest, spans) == money);
    assert(encode_utf8(money).subrange(0, encode_utf8(money).len() as int) =~= encode_utf8(money));
    assert(between(money, 0, encode_utf8(money).len() as int) == money);
    lemma_trimmed_fixed(date);
    lemma_collapse_ends(body);
    lemma_trimmed_fixed(collapse_newlines(body));
}

/// The amount is read from the last money number of the text after the
/// date line: the description is everything before it, and every earlier
/// money number lies within that text.
pub proof fn lemma_last_number_is_amount(rest: Seq<char>, spans: Seq<(usize, usize)>)
    requires
        spans_in_order(rest, spans),
        spans.len() > 0,
    ensures
        description_part(rest, spans) == trimmed(between(rest, 0, spans.last().0 as int)),
        amount_part(rest, spans) == trimmed(
            between(rest, spans.last().0 as int, encode_utf8(rest).len() as int),
        ),
        forall|i: int| 0 <= i < spans.len() - 1 ==> (#[trigger] spans[i]).1 <= spans.last().0,
{
}

/// A fragment stands for no record where its trimmed text has no line feed,
/// where the text after the date line holds no money number, or where the
/// first match in the amount candidate is no money number other than zero.
pub proof fn lemma_unreadable_fragment(patterns: Patterns, fragment: Seq<char>)
    requires
        ({
            match split_once_newline(trimmed(fragment)) {
                None => true,
                Some((date_line, rest)) => {
                    let spans = regex_matches(patterns.number, rest);
                    let candidate = amount_part(rest, spans);
                    ||| spans.len() == 0
                    ||| match regex_first_match(patterns.number, candidate) {
                        None => true,
                        Some(span) => {
                            let number = between(candidate, span.0 as int, span.1 as int);
                            !is_money_number(number) || is_zero(number)
                        },
                    }
                },
            }
        }),
    ensures
        parse(patterns, fragment) is None,
{
}

/// Where every fragment stands for a record, the records of the fragments
/// are exactly those, one for each fragment and in the same order.
pub proof fn lemma_every_fragment_read(
    patterns: Patterns,
    frags: Seq<Seq<char>>,
    expected: Seq<TransactionView>,
)
    requires
        frags.len() == expected.len(),
        forall|i: int|
            0 <= i < frags.len() ==> parse(patterns, #[trigger] frags[i]) == Some(expected[i]),
    ensures
        parse_all(patterns, frags) == expected,
    decreases frags.len(),
{
    if frags.len() > 0 {
        lemma_every_fragment_read(patterns, frags.drop_last(), expected.drop_last());
        assert(parse(patterns, frags.last()) == Some(expected.last()));
        assert(expected.drop_last().push(expected.last()) =~= expected);
    } else {
        assert(expected =~= Seq::<TransactionView>::empty());
    }
}

/// A fragment that stands for no record changes nothing for the others: the
/// records are those of the list without it.
pub proof fn lemma_unreadable_fragment_is_skipped(
    patterns: Patterns,
    frags: Seq<Seq<char>>,
    k: int,
)
    requires
        0 <= k < frags.len(),
        parse(patterns, frags[k]) is None,
    ensures
        parse_all(patterns, frags) == parse_all(patterns, frags.remove(k)),
    decreases frags.len(),
{
    if k == frags.len() - 1 {
        assert(frags.remove(k) =~= frags.drop_last());
    } else {
        lemma_unreadable_fragment_is_skipped(patterns, frags.drop_last(), k);
        assert(frags.remove(k).drop_last() =~= frags.drop_last().remove(k));
        assert(frags.remove(k).last() == frags.last());
    }
}

/// Splits the text after the date line at its last money number into the
/// description candidate and the amount candidate.
pub fn split_description_amount<'a>(rest: &'a str, spans: &Vec<(usize, usize)>) -> (r: (
    &'a str,
    &'a str,
))
    requires
        spans_in_order(rest@, spans@),
    ensures
        r.0@ == description_part(rest@, spans@),
        r.1@ == amount_part(rest@, spans@),
{
    let n = spans.len();
    if n == 0 {
        proof {
            reveal_strlit("");
            assert(""@ =~= Seq::<char>::empty());
        }
        ("", "")
    } else {
        let pos = spans[n - 1].0;
        let total = rest.as_bytes().len();
        proof {
            lemma_ends_are_cuts(rest@);
            lemma_cut_in_bounds(rest@, pos as int);
            assert(spans@.last() == spans@[n - 1]);
        }
        (trim(cut(rest, 0, pos)), trim(cut(rest, pos, total)))
    }
}

/// Reads the amount at the first money number of the candidate, given the
/// span of that number.
pub fn amount_from(candidate: &str, first: Option<(usize, usize)>) -> (r: Option<Amount>)
    requires
        first matches Some(span) ==> span_in_text(candidate@, span),
    ensures
        amount_view(r) == amount_in(candidate@, first),
        r matches Some(a) ==> a.wf(),
{
    match first {
        Some(span) => parse_amount(cut(candidate, span.0, span.1)),
        None => None,
    }
}

/// Makes the record, unless a part is missing.
pub fn build_transaction(date_line: &str, description: &str, amount: Option<Amount>) -> (r: Option<
    Transaction,
>)
    ensures
        record_view(r) == assemble(date_line@, description@, amount_view(amount)),
{
    match amount {
        Some(a) => {
            if date_line.is_empty() || description.is_empty() {
                None
            } else {
                let joined = join_lines(description);
                Some(
                    Transaction {
                        date: trim(date_line).to_owned(),
                        description: trim(joined.as_str()).to_owned(),
                        amount: a,
                    },
                )
            }
        },
        None => None,
    }
}

/// Reads one fragment. A fragment that cannot be read gives no record and
/// no error.
pub fn parse_fragment(patterns: &Patterns, fragment: &str) -> (r: Option<Transaction>)
    ensures
        record_view(r) == parse(*patterns, fragment@),
        r matches Some(t) ==> t.wf(),
{
    proof {
        lemma_parsed_record_is_complete(*patterns, fragment@);
    }
    let part = trim(fragment);
    match split_first_line(part) {
        None => None,
        Some((date_line, rest)) => {
            if find_span(&patterns.date, date_line).is_none() {
                return None;
            }
            let spans = find_spans(&patterns.number, rest);
            let (description, candidate) = split_description_amount(rest, &spans);
            let amount = amount_from(candidate, find_span(&patterns.number, candidate));
            build_transaction(date_line, description, amount)
        },
    }
}

/// Reads every transaction of a window of text, in the order of the text.
pub fn get_transactions(patterns: &Patterns, text: &str) -> (list: Vec<Transaction>)
    ensures
        records(list@) == transactions_in(*patterns, text@),
        forall|i: int| 0 <= i < list@.len() ==> (#[trigger] list@[i]).wf(),
{
    let parts = split_by_regex(text, &patterns.date);
    let n = parts.len();
    let mut list: Vec<Transaction> = Vec::new();
    let mut i: usize = 0;
    let ghost frags = views(parts@);
    proof {
        assert(frags.take(0) =~= Seq::<Seq<char>>::empty());
        assert(records(list@) =~= Seq::<TransactionView>::empty());
    }
    while i < n
        invariant
            i <= n,
            n == parts@.len(),
            frags == views(parts@),
            records(list@) == parse_all(*patterns, frags.take(i as int)),
            forall|j: int| 0 <= j < list@.len() ==> (#[trigger] list@[j]).wf(),
        decreases n - i,
    {
        let ghost before = list@;
        match parse_fragment(patterns, parts[i]) {
            Some(t) => {
                list.push(t);
                proof {
                    assert(records(list@) =~= records(before).push(t@));
                }
            },
            None => {},
        }
        proof {
            assert(frags.take(i + 1).drop_last() =~= frags.take(i as int));
            assert(frags.take(i + 1).last() == parts@[i as int]@);
        }
        i += 1;
    }
    proof {
        assert(frags.take(n as int) =~= frags);
    }
    list
}

} // verus!

//! The two text patterns of a statement and the searches made with them.

use crate::text::is_cut;
use regex::Regex;
use vstd::prelude::*;

verus! {

/// `regex::Regex`, a compiled regular expression; opaque to the verifier.
#[verifier::external_type_specification]
#[verifier::external_body]
pub struct ExRegex(regex::Regex);

/// `regex::Error`, the reason a pattern did not compile; opaque to the verifier.
#[verifier::external_type_specification]
#[verifier::external_body]
pub struct ExRegexError(regex::Error);

/// Whether `Regex::new` accepts the pattern text.
pub uninterp spec fn regex_compiles(pattern: Seq<char>) -> bool;

/// The pattern text a compiled expression was built from, as `Regex::as_str`
/// reports it.
pub uninterp spec fn regex_source(re: Regex) -> Seq<char>;

/// The byte spans `(start, end)` of the successive non-overlapping matches that
/// `Regex::find_iter` yields for `haystack`, in the order it yields them.
pub uninterp spec fn regex_matches(re: Regex, haystack: Seq<char>) -> Seq<(usize, usize)>;

/// The byte span `(start, end)` of the first match that `Regex::find` reports
/// for `haystack`, or nothing where it reports none.
pub uninterp spec fn regex_first_match(re: Regex, haystack: Seq<char>) -> Option<(usize, usize)>;

/// What every match reported for `text` satisfies: its span does not end
/// before it starts, and both ends are cuts of `text`.
pub open spec fn span_in_text(text: Seq<char>, span: (usize, usize)) -> bool {
    &&& span.0 <= span.1
    &&& is_cut(text, span.0 as int)
    &&& is_cut(text, span.1 as int)
}

/// What every list of matches reported for `text` satisfies: each span lies
/// in `text`, and later matches begin after earlier ones begin and not
/// before they end.
pub open spec fn spans_in_order(text: Seq<char>, spans: Seq<(usize, usize)>) -> bool {
    &&& forall|i: int| 0 <= i < spans.len() ==> span_in_text(text, #[trigger] spans[i])
    &&& forall|i: int, j: int|
        0 <= i < j < spans.len() ==> {
            &&& (#[trigger] spans[i]).1 <= (#[trigger] spans[j]).0
            &&& spans[i].0 < spans[j].0
        }
}

/// Calls `Regex::new`. Claims that whether it succeeds depends on the
/// pattern text alone, and that a compiled expression remembers the text it
/// was given. Nothing is claimed of which patterns compile.
#[verifier::external_body]
pub(crate) fn compile(pattern: &str) -> (r: Result<Regex, regex::Error>)
    ensures
        r is Ok == regex_compiles(pattern@),
        r matches Ok(re) ==> regex_source(re) == pattern@,
{
    Regex::new(pattern)
}

/// Calls `Regex::find_iter` and collects the byte span of each match.
/// Claims that the spans are the named matches of this expression in
/// `haystack`, and that they are ordered, non-overlapping and cut at
/// character boundaries.
#[verifier::external_body]
pub(crate) fn find_spans(re: &Regex, haystack: &str) -> (spans: Vec<(usize, usize)>)
    ensures
        spans@ == regex_matches(*re, haystack@),
        spans_in_order(haystack@, spans@),
{
    re.find_iter(haystack).map(|m| (m.start(), m.end())).collect()
}

/// Calls `Regex::find` and takes the byte span of the match. Claims that the
/// span is the named first match of this expression in `haystack`, and that
/// it is cut at character boundaries.
#[verifier::external_body]
pub(crate) fn find_span(re: &Regex, haystack: &str) -> (span: Option<(usize, usize)>)
    ensures
        span == regex_first_match(*re, haystack@),
        span matches Some(s) ==> span_in_text(haystack@, s),
{
    re.find(haystack).map(|m| (m.start(), m.end()))
}

/// The shape of a date marker: two digits, two digits and four digits,
/// separated by points.
pub const DATE_PATTERN: &'static str = r"\d{2}\.\d{2}\.\d{4}";

/// The shape of a money number: digits, a comma, digits.
pub const NUMBER_PATTERN: &'static str = r"\d+,\d+";

/// The two compiled patterns that every parsing call shares.
pub struct Patterns {
    pub date: Regex,
    pub number: Regex,
}

/// The pattern that did not compile.
#[derive(Debug, Clone, Copy, PartialEq, Eq, Structural)]
pub enum PatternError {
    DateMarker,
    MoneyNumber,
}

impl Patterns {
    /// Whether the two expressions were built from the date shape and the
    /// money-number shape.
    pub open spec fn wf(&self) -> bool {
        &&& regex_source(self.date) == DATE_PATTERN@
        &&& regex_source(self.number) == NUMBER_PATTERN@
    }

    /// Pairs two compilation results, or names the first pattern that failed.
    pub fn from_compiled(
        date: Result<Regex, regex::Error>,
        number: Result<Regex, regex::Error>,
    ) -> (r: Result<Patterns, PatternError>)
        ensures
            match (date, number) {
                (Ok(d), Ok(n)) => r == Ok::<Patterns, PatternError>(Patterns { date: d, number: n }),
                (Err(_), _) => r == Err::<Patterns, PatternError>(PatternError::DateMarker),
                (Ok(_), Err(_)) => r == Err::<Patterns, PatternError>(PatternError::MoneyNumber),
            },
    {
        match date {
            Ok(d) => match number {
                Ok(n) => Ok(Patterns { date: d, number: n }),
                Err(_) => Err(PatternError::MoneyNumber),
            },
            Err(_) => Err(PatternError::DateMarker),
        }
    }

    /// Compiles the date shape and the money-number shape. The error names
    /// the first of the two that did not compile.
    pub fn new() -> (r: Result<Patterns, PatternError>)
        ensures
            match r {
                Ok(p) => p.wf() && regex_compiles(DATE_PATTERN@) && regex_compiles(
                    NUMBER_PATTERN@,
                ),
                Err(PatternError::DateMarker) => !regex_compiles(DATE_PATTERN@),
                Err(PatternError::MoneyNumber) => regex_compiles(DATE_PATTERN@)
                    && !regex_compiles(NUMBER_PATTERN@),
            },
    {
        let date = compile(DATE_PATTERN);
        let number = compile(NUMBER_PATTERN);
        Patterns::from_compiled(date, number)
    }
}

} // verus!

//! Operations on statement text: white space, lines, markers, and cutting at
//! byte offsets.

use vstd::prelude::*;
use vstd::std_specs::iter::IteratorSpec;
use vstd::string::*;
use vstd::utf8::*;

verus! {

broadcast use {vstd::string::group_string_axioms, vstd::utf8::group_utf8_lib};

/// Whether `c` is white space as Unicode defines it (White_Space).
pub open spec fn is_white_space(c: char) -> bool {
    let u = c as u32;
    ||| 0x09 <= u <= 0x0D
    ||| u == 0x20
    ||| u == 0x85
    ||| u == 0xA0
    ||| u == 0x1680
    ||| 0x2000 <= u <= 0x200A
    ||| u == 0x2028
    ||| u == 0x2029
    ||| u == 0x202F
    ||| u == 0x205F
    ||| u == 0x3000
}

/// `s` without its leading white space.
pub open spec fn trim_start(s: Seq<char>) -> Seq<char>
    decreases s.len(),
{
    if s.len() > 0 && is_white_space(s[0]) {
        trim_start(s.drop_first())
    } else {
        s
    }
}

/// `s` without its trailing white space.
pub open spec fn trim_end(s: Seq<char>) -> Seq<char>
    decreases s.len(),
{
    if s.len() > 0 && is_white_space(s.last()) {
        trim_end(s.drop_last())
    } else {
        s
    }
}

/// `s` without its leading and trailing white space.
pub open spec fn trimmed(s: Seq<char>) -> Seq<char> {
    trim_end(trim_start(s))
}

/// Tests a character for being white space.
pub fn is_white_space_char(c: char) -> (b: bool)
    ensures
        b == is_white_space(c),
{
    let u: u32 = c as u32;
    (0x09 <= u && u <= 0x0D) || u == 0x20 || u == 0x85 || u == 0xA0 || u == 0x1680 || (0x2000 <= u
        && u <= 0x200A) || u == 0x2028 || u == 0x2029 || u == 0x202F || u == 0x205F || u == 0x3000
}

/// The characters of `s`, decoded once so that they can be indexed.
pub fn chars_of(s: &str) -> (v: Vec<char>)
    ensures
        v@ == s@,
{
    let mut v: Vec<char> = Vec::new();
    let chars = s.chars();
    for c in it: chars
        invariant
            v@ == it.history(),
            it.seq() == s@,
    {
        v.push(c);
    }
    v
}

/// What `trim_start` leaves when the first `a` characters are white space
/// and the next one, if any, is not.
pub proof fn lemma_trim_start(s: Seq<char>, a: int)
    requires
        0 <= a <= s.len(),
        forall|j: int| 0 <= j < a ==> is_white_space(s[j]),
        a < s.len() ==> !is_white_space(s[a]),
    ensures
        trim_start(s) == s.skip(a),
    decreases a,
{
    if a == 0 {
        assert(s.skip(0) =~= s);
    } else {
        let t = s.drop_first();
        assert forall|j: int| 0 <= j < a - 1 implies is_white_space(t[j]) by {
            assert(t[j] == s[j + 1]);
        }
        lemma_trim_start(t, a - 1);
        assert(t.skip(a - 1) =~= s.skip(a));
    }
}

/// What `trim_end` leaves when every character from index `b` on is white
/// space and the one before, if any, is not.
pub proof fn lemma_trim_end(s: Seq<char>, b: int)
    requires
        0 <= b <= s.len(),
        forall|j: int| b <= j < s.len() ==> is_white_space(s[j]),
        0 < b ==> !is_white_space(s[b - 1]),
    ensures
        trim_end(s) == s.take(b),
    decreases s.len() - b,
{
    if b == s.len() {
        assert(s.take(b) =~= s);
    } else {
        let t = s.drop_last();
        lemma_trim_end(t, b);
        assert(t.take(b) =~= s.take(b));
    }
}

/// Removes leading and trailing white space.
pub fn trim(s: &str) -> (r: &str)
    ensures
        r@ == trimmed(s@),
{
    let v = chars_of(s);
    let n = v.len();
    let mut a: usize = 0;
    while a < n && is_white_space_char(v[a])
        invariant
            a <= n,
            n == v@.len(),
            forall|j: int| 0 <= j < a ==> is_white_space(v@[j]),
        decreases n - a,
    {
        a += 1;
    }
    let mut b: usize = n;
    while b > a && is_white_space_char(v[b - 1])
        invariant
            a <= b <= n,
            n == v@.len(),
            forall|j: int| b <= j < n ==> is_white_space(v@[j]),
        decreases b,
    {
        b -= 1;
    }
    proof {
        let t = s@.skip(a as int);
        lemma_trim_start(s@, a as int);
        lemma_trim_end(t, b - a);
        assert(t.take(b - a) =~= s@.subrange(a as int, b as int));
    }
    s.substring_char(a, b)
}

/// The text before the first line feed and the text after it, when `s` has one.
pub open spec fn split_once_newline(s: Seq<char>) -> Option<(Seq<char>, Seq<char>)> {
    match s.index_of_first('\n') {
        Some(i) => Some((s.take(i), s.skip(i + 1))),
        None => None,
    }
}

/// Splits at the first line feed, which belongs to neither part.
pub fn split_first_line(s: &str) -> (r: Option<(&str, &str)>)
    ensures
        match r {
            Some((line, rest)) => split_once_newline(s@) == Some((line@, rest@)),
            None => split_once_newline(s@) is None,
        },
{
    let v = chars_of(s);
    let n = v.len();
    let mut i: usize = 0;
    while i < n && v[i] != '\n'
        invariant
            i <= n,
            n == v@.len(),
            forall|j: int| 0 <= j < i ==> v@[j] != '\n',
        decreases n - i,
    {
        i += 1;
    }
    proof {
        s@.index_of_first_ensures('\n');
    }
    if i < n {
        assert(s@.contains('\n'));
        Some((s.substring_char(0, i), s.substring_char(i + 1, n)))
    } else {
        None
    }
}

/// `s` with every line feed replaced by a comma and a space.
pub open spec fn collapse_newlines(s: Seq<char>) -> Seq<char>
    decreases s.len(),
{
    if s.len() == 0 {
        s
    } else if s.last() == '\n' {
        collapse_newlines(s.drop_last()).push(',').push(' ')
    } else {
        collapse_newlines(s.drop_last()).push(s.last())
    }
}

/// A stretch without line feeds passes through `collapse_newlines` unchanged.
pub proof fn lemma_collapse_plain(s: Seq<char>, a: int, b: int)
    requires
        0 <= a <= b <= s.len(),
        forall|j: int| a <= j < b ==> s[j] != '\n',
    ensures
        collapse_newlines(s.take(b)) == collapse_newlines(s.take(a)) + s.subrange(a, b),
    decreases b - a,
{
    if a == b {
        assert(s.subrange(a, b) =~= Seq::<char>::empty());
        assert(collapse_newlines(s.take(a)) + Seq::<char>::empty() =~= collapse_newlines(
            s.take(a),
        ));
    } else {
        lemma_collapse_plain(s, a, b - 1);
        assert(s.take(b).drop_last() =~= s.take(b - 1));
        assert(s.take(b).last() == s[b - 1]);
        assert(s.subrange(a, b) =~= s.subrange(a, b - 1).push(s[b - 1]));
        assert(collapse_newlines(s.take(b)) =~= collapse_newlines(s.take(a)) + s.subrange(a, b));
    }
}

/// Joins the lines of `s` with a comma and a space.
pub fn join_lines(s: &str) -> (r: String)
    ensures
        r@ == collapse_newlines(s@),
{
    let v = chars_of(s);
    let n = v.len();
    let mut out = String::new();
    let mut from: usize = 0;
    let mut i: usize = 0;
    proof {
        reveal_strlit(", ");
        assert(s@.take(0) =~= Seq::<char>::empty());
    }
    while i < n
        invariant
            from <= i <= n,
            n == v@.len(),
            v@ == s@,
            ", "@ == seq![',', ' '],
            out@ == collapse_newlines(s@.take(from as int)),
            forall|j: int| from <= j < i ==> s@[j] != '\n',
        decreases n - i,
    {
        if v[i] == '\n' {
            proof {
                lemma_collapse_plain(s@, from as int, i as int);
                assert(s@.take(i + 1).drop_last() =~= s@.take(i as int));
                assert(s@.take(i + 1).last() == '\n');
            }
            out.append(s.substring_char(from, i));
            out.append(", ");
            assert(out@ =~= collapse_newlines(s@.take(i + 1)));
            from = i + 1;
        }
        i += 1;
    }
    proof {
        lemma_collapse_plain(s@, from as int, n as int);
        assert(s@.take(n as int) =~= s@);
    }
    out.append(s.substring_char(from, n));
    out
}

/// Whether byte offset `i` of the UTF-8 encoding of `text` lies between two
/// characters, or at either end.
pub open spec fn is_cut(text: Seq<char>, i: int) -> bool {
    is_char_boundary(encode_utf8(text), i)
}

/// The characters that `text` holds between byte offsets `a` and `b` of its
/// UTF-8 encoding.
pub open spec fn between(text: Seq<char>, a: int, b: int) -> Seq<char> {
    decode_utf8(encode_utf8(text).subrange(a, b))
}

/// Both ends of a text are cuts.
pub proof fn lemma_ends_are_cuts(text: Seq<char>)
    ensures
        is_cut(text, 0),
        is_cut(text, encode_utf8(text).len() as int),
{
    is_char_boundary_start_end_of_seq(encode_utf8(text));
}

/// A cut never lies outside the encoding.
pub proof fn lemma_cut_in_bounds(text: Seq<char>, i: int)
    requires
        is_cut(text, i),
    ensures
        0 <= i <= encode_utf8(text).len(),
{
}

/// The part of `text` between two cuts, given as byte offsets.
pub fn cut<'a>(text: &'a str, a: usize, b: usize) -> (r: &'a str)
    requires
        is_cut(text@, a as int),
        is_cut(text@, b as int),
        a <= b,
    ensures
        r@ == between(text@, a as int, b as int),
{
    let ghost bytes = encode_utf8(text@);
    proof {
        lemma_cut_in_bounds(text@, b as int);
    }
    let (head, _) = text.split_at(b);
    proof {
        let hb = head.spec_bytes();
        assert(hb =~= bytes.subrange(0, b as int));
        assert(valid_utf8(hb));
        if a < b {
            is_char_boundary_iff_not_is_continuation_byte(bytes, a as int);
            assert(hb[a as int] == bytes[a as int]);
            is_char_boundary_iff_not_is_continuation_byte(hb, a as int);
        } else {
            is_char_boundary_start_end_of_seq(hb);
        }
        assert(is_char_boundary(hb, a as int));
    }
    let (_, r) = head.split_at(a);
    proof {
        assert(r.spec_bytes() =~= bytes.subrange(a as int, b as int));
        assert(decode_utf8(encode_utf8(r@)) == r@);
    }
    r
}

/// Whether the bytes of `needle` stand in `hay` from byte offset `i` on.
pub open spec fn occurs_at(hay: Seq<u8>, needle: Seq<u8>, i: int) -> bool {
    0 <= i && i + needle.len() <= hay.len() && hay.subrange(i, i + needle.len()) == needle
}

/// Whether `i` is the least byte offset at which `needle` stands in `hay`.
pub open spec fn is_first_occurrence(hay: Seq<u8>, needle: Seq<u8>, i: int) -> bool {
    occurs_at(hay, needle, i) && forall|j: int| 0 <= j < i ==> !occurs_at(hay, needle, j)
}

/// The byte offset in the encoding of `text` at which `marker` first occurs.
pub open spec fn find_first(text: Seq<char>, marker: Seq<char>) -> Option<int> {
    let hay = encode_utf8(text);
    let needle = encode_utf8(marker);
    if exists|i: int| occurs_at(hay, needle, i) {
        Some(choose|i: int| is_first_occurrence(hay, needle, i))
    } else {
        None
    }
}

/// An occurrence of encoded text inside encoded text starts at a cut.
pub proof fn lemma_occurrence_is_cut(text: Seq<char>, marker: Seq<char>, i: int)
    requires
        occurs_at(encode_utf8(text), encode_utf8(marker), i),
        marker.len() > 0,
    ensures
        is_cut(text, i),
{
    let hay = encode_utf8(text);
    let needle = encode_utf8(marker);
    assert(needle.len() > 0);
    assert(is_char_boundary(needle, 0));
    assert(!is_continuation_byte(needle[0]));
    assert(hay.subrange(i, i + needle.len())[0] == hay[i]);
}

/// Searches `text` for the first occurrence of `marker`.
pub fn find_marker(text: &str, marker: &str) -> (r: Option<usize>)
    ensures
        match r {
            Some(i) => find_first(text@, marker@) == Some(i as int) && is_cut(text@, i as int),
            None => find_first(text@, marker@) is None,
        },
{
    let hay = text.as_bytes();
    let needle = marker.as_bytes();
    let n = hay.len();
    let m = needle.len();
    if m > n {
        return None;
    }
    let mut i: usize = 0;
    while i <= n - m
        invariant
            m <= n,
            n == hay@.len(),
            m == needle@.len(),
            hay@ == encode_utf8(text@),
            needle@ == encode_utf8(marker@),
            i <= n - m + 1,
            forall|j: int| 0 <= j < i ==> !occurs_at(hay@, needle@, j),
        decreases n - m + 1 - i,
    {
        let mut k: usize = 0;
        while k < m && hay[i + k] == needle[k]
            invariant
                i + m <= n,
                n == hay@.len(),
                m == needle@.len(),
                k <= m,
                forall|t: int| 0 <= t < k ==> hay@[i + t] == needle@[t],
            decreases m - k,
        {
            k += 1;
        }
        if k == m {
            proof {
                assert(hay@.subrange(i as int, i + m) =~= needle@);
                assert(is_first_occurrence(hay@, needle@, i as int));
                let c = choose|x: int| is_first_occurrence(hay@, needle@, x);
                assert(c == i);
                if marker@.len() > 0 {
                    lemma_occurrence_is_cut(text@, marker@, i as int);
                } else {
                    assert(hay@.subrange(0, 0) =~= needle@);
                    assert(occurs_at(hay@, needle@, 0));
                }
            }
            return Some(i);
        }
        proof {
            assert(hay@.subrange(i as int, i + m)[k as int] == hay@[i + k]);
        }
        i += 1;
    }
    None
}

/// What is left of a text after trimming neither begins nor ends with
/// white space.
pub proof fn lemma_trimmed_ends(s: Seq<char>)
    ensures
        trimmed(s).len() > 0 ==> !is_white_space(trimmed(s)[0]) && !is_white_space(
            trimmed(s).last(),
        ),
{
    lemma_trim_start_begins(s);
    lemma_trim_end_keeps_start(trim_start(s));
}

/// What `trim_start` leaves does not begin with white space.
pub proof fn lemma_trim_start_begins(s: Seq<char>)
    ensures
        trim_start(s).len() > 0 ==> !is_white_space(trim_start(s)[0]),
    decreases s.len(),
{
    if s.len() > 0 && is_white_space(s[0]) {
        lemma_trim_start_begins(s.drop_first());
    }
}

/// What `trim_end` leaves is a prefix of the text that does not end with
/// white space; it is not empty where the text begins with another character.
pub proof fn lemma_trim_end_keeps_start(s: Seq<char>)
    ensures
        trim_end(s).len() <= s.len(),
        trim_end(s) == s.take(trim_end(s).len() as int),
        trim_end(s).len() > 0 ==> !is_white_space(trim_end(s).last()),
        s.len() > 0 && !is_white_space(s[0]) ==> trim_end(s).len() > 0,
    decreases s.len(),
{
    if s.len() > 0 && is_white_space(s.last()) {
        let t = s.drop_last();
        lemma_trim_end_keeps_start(t);
        assert(t.take(trim_end(t).len() as int) =~= s.take(trim_end(t).len() as int));
    } else {
        assert(s.take(s.len() as int) =~= s);
    }
}

/// A text that neither begins nor ends with white space is its own trimming.
pub proof fn lemma_trimmed_fixed(s: Seq<char>)
    requires
        s.len() > 0 ==> !is_white_space(s[0]) && !is_white_space(s.last()),
    ensures
        trimmed(s) == s,
{
}

/// Joining lines keeps the first and the last character, unless it is a
/// line feed.
pub proof fn lemma_collapse_ends(s: Seq<char>)
    requires
        s.len() > 0,
    ensures
        collapse_newlines(s).len() > 0,
        s[0] != '\n' ==> collapse_newlines(s)[0] == s[0],
        s.last() != '\n' ==> collapse_newlines(s).last() == s.last(),
    decreases s.len(),
{
    let t = s.drop_last();
    if s.len() > 1 {
        lemma_collapse_ends(t);
        assert(t[0] == s[0]);
    } else {
        assert(collapse_newlines(t) =~= Seq::<char>::empty());
    }
}

/// The encoding of two texts, one after the other, is the encoding of the
/// first followed by that of the second.
pub proof fn lemma_encode_concat(a: Seq<char>, b: Seq<char>)
    ensures
        encode_utf8(a + b) == encode_utf8(a) + encode_utf8(b),
    decreases a.len(),
{
    if a.len() == 0 {
        assert(a + b =~= b);
        assert(encode_utf8(a) + encode_utf8(b) =~= encode_utf8(b));
    } else {
        lemma_encode_concat(a.drop_first(), b);
        assert((a + b).drop_first() =~= a.drop_first() + b);
        assert(encode_utf8(a + b) =~= encode_utf8(a) + encode_utf8(b));
    }
}

/// Where one text follows another, the byte length of the first is a cut
/// that parts the two.
pub proof fn lemma_between_concat(a: Seq<char>, b: Seq<char>)
    ensures
        is_cut(a + b, encode_utf8(a).len() as int),
        between(a + b, 0, encode_utf8(a).len() as int) == a,
        between(a + b, encode_utf8(a).len() as int, encode_utf8(a + b).len() as int) == b,
{
    let ea = encode_utf8(a);
    let eb = encode_utf8(b);
    let whole = encode_utf8(a + b);
    lemma_encode_concat(a, b);
    assert(whole.subrange(0, ea.len() as int) =~= ea);
    assert(whole.subrange(ea.len() as int, whole.len() as int) =~= eb);
    if b.len() == 0 {
        is_char_boundary_start_end_of_seq(whole);
    } else {
        assert(eb.len() > 0);
        is_char_boundary_start_end_of_seq(eb);
        is_char_boundary_iff_not_is_continuation_byte(eb, 0);
        assert(whole[ea.len() as int] == eb[0]);
        is_char_boundary_iff_not_is_continuation_byte(whole, ea.len() as int);
    }
}

/// A text whose first line feed follows `line` splits into `line` and the rest.
pub proof fn lemma_split_once(line: Seq<char>, rest: Seq<char>)
    requires
        !line.contains('\n'),
    ensures
        split_once_newline(line.push('\n') + rest) == Some((line, rest)),
{
    let s = line.push('\n') + rest;
    s.index_of_first_ensures('\n');
    assert(s[line.len() as int] == '\n');
    assert(s.contains('\n'));
    let i = s.index_of_first('\n').unwrap();
    if i < line.len() {
        assert(s[i] == line[i]);
        assert(line.contains(line[i]));
    }
    assert(s.take(i) =~= line);
    assert(s.skip(i + 1) =~= rest);
}

} // verus!

//! Money amounts, kept as exact decimal text.

use crate::text::{chars_of, is_white_space};
use vstd::prelude::*;
use vstd::string::*;

verus! {

broadcast use vstd::string::group_string_axioms;

/// A signed decimal amount. `decimal` holds its absolute value as digits, a
/// point and digits.
#[derive(Debug, Clone, PartialEq, Eq)]
pub struct Amount {
    pub negative: bool,
    pub decimal: String,
}

/// The mathematical content of an [`Amount`].
pub struct AmountView {
    pub negative: bool,
    pub decimal: Seq<char>,
}

impl View for Amount {
    type V = AmountView;

    open spec fn view(&self) -> AmountView {
        AmountView { negative: self.negative, decimal: self.decimal@ }
    }
}

/// Whether `c` is one of the ten ASCII digits.
pub open spec fn is_digit(c: char) -> bool {
    0x30 <= c as u32 <= 0x39
}

/// Whether every character of `s` is an ASCII digit.
pub open spec fn all_digits(s: Seq<char>) -> bool {
    forall|i: int| 0 <= i < s.len() ==> is_digit(#[trigger] s[i])
}

/// Whether `s` is digits, the separator `sep` at index `k`, and digits, with
/// at least one digit on either side.
pub open spec fn splits_at(s: Seq<char>, sep: char, k: int) -> bool {
    &&& 0 < k < s.len() - 1
    &&& s[k] == sep
    &&& all_digits(s.take(k))
    &&& all_digits(s.skip(k + 1))
}

/// Whether `s` is a money number: digits, a comma, digits.
pub open spec fn is_money_number(s: Seq<char>) -> bool {
    exists|k: int| splits_at(s, ',', k)
}

/// Whether `s` is a decimal number: digits, a point, digits.
pub open spec fn is_decimal(s: Seq<char>) -> bool {
    exists|k: int| splits_at(s, '.', k)
}

/// Whether no digit of `s` differs from zero.
pub open spec fn is_zero(s: Seq<char>) -> bool {
    forall|i: int| 0 <= i < s.len() && is_digit(#[trigger] s[i]) ==> s[i] == '0'
}

/// `s` with each comma replaced by a point.
pub open spec fn with_point(s: Seq<char>) -> Seq<char> {
    s.map_values(
        |c: char|
            if c == ',' {
                '.'
            } else {
                c
            },
    )
}

/// The amount that a money number stands for. There is none where the text
/// is no money number, and none where its value is zero.
pub open spec fn parse_money(s: Seq<char>) -> Option<AmountView> {
    if is_money_number(s) && !is_zero(s) {
        Some(AmountView { negative: false, decimal: with_point(s) })
    } else {
        None
    }
}

impl AmountView {
    /// Whether the amount is a decimal number other than zero.
    pub open spec fn wf(self) -> bool {
        is_decimal(self.decimal) && !is_zero(self.decimal)
    }

    /// The same amount with the opposite sign.
    pub open spec fn negated(self) -> AmountView {
        AmountView { negative: !self.negative, decimal: self.decimal }
    }

    /// The amount as signed decimal text.
    pub open spec fn text(self) -> Seq<char> {
        if self.negative {
            seq!['-'] + self.decimal
        } else {
            self.decimal
        }
    }
}

impl Amount {
    /// Whether the amount is a decimal number other than zero.
    pub open spec fn wf(&self) -> bool {
        self@.wf()
    }

    /// The same amount with the opposite sign.
    pub fn negate(self) -> (r: Amount)
        ensures
            r@ == self@.negated(),
    {
        Amount { negative: !self.negative, decimal: self.decimal }
    }

    /// The amount as signed decimal text, such as `-18.30`.
    pub fn to_string(&self) -> (r: String)
        ensures
            r@ == self@.text(),
    {
        let mut out = String::new();
        proof {
            reveal_strlit("-");
        }
        if self.negative {
            out.append("-");
        }
        out.append(self.decimal.as_str());
        proof {
            assert(self.negative ==> out@ =~= seq!['-'] + self.decimal@);
            assert(!self.negative ==> out@ =~= self.decimal@);
        }
        out
    }
}

/// Tests a character for being an ASCII digit.
pub fn is_digit_char(c: char) -> (b: bool)
    ensures
        b == is_digit(c),
{
    let u: u32 = c as u32;
    0x30 <= u && u <= 0x39
}

/// A money number has its comma where its first run of digits ends.
pub proof fn lemma_money_comma(s: Seq<char>, k: int)
    requires
        0 <= k <= s.len(),
        forall|i: int| 0 <= i < k ==> is_digit(s[i]),
        k < s.len() ==> !is_digit(s[k]),
        is_money_number(s),
    ensures
        splits_at(s, ',', k),
{
    let c = choose|c: int| splits_at(s, ',', c);
    if c < k {
        assert(is_digit(s[c]));
    } else if k < c {
        assert(s.take(c)[k] == s[k]);
    }
}

/// Replacing the comma of a money number gives a decimal number with the
/// same digits.
pub proof fn lemma_with_point(s: Seq<char>, k: int)
    requires
        splits_at(s, ',', k),
    ensures
        with_point(s) == s.take(k).push('.') + s.skip(k + 1),
        splits_at(with_point(s), '.', k),
        is_zero(with_point(s)) == is_zero(s),
{
    let p = with_point(s);
    assert forall|i: int| 0 <= i < s.len() && i != k implies is_digit(s[i]) && p[i] == s[i] by {
        if i < k {
            assert(s.take(k)[i] == s[i]);
        } else {
            assert(s.skip(k + 1)[i - k - 1] == s[i]);
        }
    }
    assert(p =~= s.take(k).push('.') + s.skip(k + 1));
    assert(p.take(k) =~= s.take(k));
    assert(p.skip(k + 1) =~= s.skip(k + 1));
}

/// The amount of a money number is a positive decimal other than zero.
pub proof fn lemma_parse_money_wf(s: Seq<char>)
    ensures
        parse_money(s) matches Some(a) ==> a.wf() && !a.negative,
{
    if is_money_number(s) {
        let k = choose|k: int| splits_at(s, ',', k);
        lemma_with_point(s, k);
    }
}

/// A money number begins and ends with a digit, and no digit is white space.
pub proof fn lemma_money_ends(s: Seq<char>)
    requires
        is_money_number(s),
    ensures
        s.len() >= 3,
        is_digit(s[0]),
        is_digit(s.last()),
        !is_white_space(s[0]),
        !is_white_space(s.last()),
{
    let k = choose|k: int| splits_at(s, ',', k);
    assert(s.take(k)[0] == s[0]);
    assert(s.skip(k + 1)[s.len() - k - 2] == s.last());
}

/// Reads a money number such as `18,30`.
pub fn parse_amount(s: &str) -> (r: Option<Amount>)
    ensures
        match r {
            Some(a) => parse_money(s@) == Some(a@) && a.wf(),
            None => parse_money(s@) is None,
        },
{
    let v = chars_of(s);
    let n = v.len();
    let mut k: usize = 0;
    while k < n && is_digit_char(v[k])
        invariant
            k <= n,
            n == v@.len(),
            forall|i: int| 0 <= i < k ==> is_digit(v@[i]),
        decreases n - k,
    {
        k += 1;
    }
    proof {
        if is_money_number(s@) {
            lemma_money_comma(s@, k as int);
        }
    }
    if k == 0 || k >= n || v[k] != ',' {
        return None;
    }
    let mut j: usize = k + 1;
    while j < n && is_digit_char(v[j])
        invariant
            k < j <= n,
            n == v@.len(),
            forall|i: int| k < i < j ==> is_digit(v@[i]),
        decreases n - j,
    {
        j += 1;
    }
    if j < n || j == k + 1 {
        proof {
            if is_money_number(s@) {
                assert(j < n);
                assert(s@.skip(k + 1)[j - k - 1] == s@[j as int]);
            }
        }
        return None;
    }
    proof {
        assert(all_digits(s@.take(k as int)));
        assert(all_digits(s@.skip(k + 1)));
        assert(splits_at(s@, ',', k as int));
        lemma_with_point(s@, k as int);
    }
    let mut z: usize = 0;
    while z < n && (v[z] == '0' || v[z] == ',')
        invariant
            z <= n,
            n == v@.len(),
            forall|i: int| 0 <= i < z ==> v@[i] == '0' || v@[i] == ',',
        decreases n - z,
    {
        z += 1;
    }
    if z == n {
        assert(is_zero(s@));
        return None;
    }
    proof {
        assert(is_digit(s@[z as int])) by {
            if z < k {
            } else {
                assert(z != k);
            }
        }
        assert(!is_zero(s@));
        reveal_strlit(".");
    }
    let mut decimal = String::new();
    decimal.append(s.substring_char(0, k));
    decimal.append(".");
    decimal.append(s.substring_char(k + 1, n));
    proof {
        assert(decimal@ =~= s@.take(k as int).push('.') + s@.skip(k + 1));
    }
    Some(Amount { negative: false, decimal })
}

} // verus!

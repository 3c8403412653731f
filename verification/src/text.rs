//! Decimal text of integers.

use num_format::{Locale, ToFormattedString};
use vstd::prelude::*;

verus! {

/// The decimal digit for `d`, which is below ten.
pub open spec fn digit_char(d: nat) -> char {
    ('0' as nat + d) as char
}

/// The decimal text of a natural number, without leading zeros.
pub open spec fn decimal(n: nat) -> Seq<char>
    decreases n,
{
    if n < 10 {
        seq![digit_char(n)]
    } else {
        decimal(n / 10).push(digit_char(n % 10))
    }
}

pub(crate) proof fn lemma_decimal_len(n: nat)
    ensures
        decimal(n).len() >= 1,
        n >= 10 ==> decimal(n).len() >= 2,
    decreases n,
{
    if n >= 10 {
        lemma_decimal_len(n / 10);
    }
}

/// Different numbers have different decimal texts.
pub(crate) proof fn lemma_decimal_injective(a: nat, b: nat)
    requires
        decimal(a) == decimal(b),
    ensures
        a == b,
    decreases a,
{
    lemma_decimal_len(a);
    lemma_decimal_len(b);
    if a < 10 && b < 10 {
        assert(decimal(a)[0] == digit_char(a));
        assert(decimal(b)[0] == digit_char(b));
        assert(digit_char(a) as nat == '0' as nat + a);
        assert(digit_char(b) as nat == '0' as nat + b);
    } else if a >= 10 && b >= 10 {
        let (da, db) = (decimal(a), decimal(b));
        assert(da.last() == digit_char(a % 10));
        assert(db.last() == digit_char(b % 10));
        assert(digit_char(a % 10) as nat == '0' as nat + a % 10);
        assert(digit_char(b % 10) as nat == '0' as nat + b % 10);
        assert(da.drop_last() =~= decimal(a / 10));
        assert(db.drop_last() =~= decimal(b / 10));
        lemma_decimal_injective(a / 10, b / 10);
    }
}

/// The decimal text of an integer, with a leading `-` when it is negative.
pub open spec fn signed_decimal(i: int) -> Seq<char> {
    if i < 0 {
        seq!['-'] + decimal((-i) as nat)
    } else {
        decimal(i as nat)
    }
}

/// Collect characters into a `String`.
///
/// Calls `String::from_iter` over the characters; its documentation says the
/// string holds them in order.
#[verifier::external_body]
pub(crate) fn string_from_chars(cs: &Vec<char>) -> (s: String)
    ensures
        s@ == cs@,
{
    String::from_iter(cs.iter())
}

fn digit_of(d: u128) -> (c: char)
    requires
        d < 10,
    ensures
        c == digit_char(d as nat),
{
    if d == 0 {
        '0'
    } else if d == 1 {
        '1'
    } else if d == 2 {
        '2'
    } else if d == 3 {
        '3'
    } else if d == 4 {
        '4'
    } else if d == 5 {
        '5'
    } else if d == 6 {
        '6'
    } else if d == 7 {
        '7'
    } else if d == 8 {
        '8'
    } else {
        '9'
    }
}

/// The decimal characters of `n`.
pub fn decimal_chars(n: u128) -> (cs: Vec<char>)
    ensures
        cs@ == decimal(n as nat),
    decreases n,
{
    if n < 10 {
        let mut cs: Vec<char> = Vec::new();
        cs.push(digit_of(n));
        cs
    } else {
        let mut cs = decimal_chars(n / 10);
        cs.push(digit_of(n % 10));
        cs
    }
}

/// The decimal text of an unsigned integer.
pub fn unsigned_text(n: u128) -> (s: String)
    ensures
        s@ == decimal(n as nat),
{
    string_from_chars(&decimal_chars(n))
}

/// The decimal text of a signed integer.
pub fn signed_text(i: i128) -> (s: String)
    ensures
        s@ == signed_decimal(i as int),
{
    if i < 0 {
        let magnitude: u128 = if i == i128::MIN {
            170141183460469231731687303715884105728u128
        } else {
            (-i) as u128
        };
        let mut cs: Vec<char> = Vec::new();
        cs.push('-');
        let mut digits = decimal_chars(magnitude);
        cs.append(&mut digits);
        proof {
            assert(cs@ =~= seq!['-'] + decimal((-i) as nat));
        }
        string_from_chars(&cs)
    } else {
        string_from_chars(&decimal_chars(i as u128))
    }
}

/// The three decimal digits of `r`, which is below a thousand, with leading zeros.
pub open spec fn three_digits(r: nat) -> Seq<char> {
    seq![digit_char(r / 100), digit_char((r / 10) % 10), digit_char(r % 10)]
}

/// The decimal text of a natural number with its digits grouped by thousands and
/// the groups separated by commas, as in `1,234,567`.
pub open spec fn grouped_decimal(n: nat) -> Seq<char>
    decreases n,
{
    if n < 1000 {
        decimal(n)
    } else {
        grouped_decimal(n / 1000) + seq![','] + three_digits(n % 1000)
    }
}

/// Format a number with thousands separators.
///
/// Calls `num_format`'s `to_formatted_string` with the `en` locale, whose source
/// sets the separator to `,` and groups the digits by three: the text is the
/// decimal digits with a comma before each group of three from the right.
#[verifier::external_body]
pub(crate) fn format_number(number: usize) -> (s: String)
    ensures
        s@ == grouped_decimal(number as nat),
{
    number.to_formatted_string(&Locale::en)
}

/// `a` comes before `b` in the order of `String`, comparing from position `i` on:
/// the first differing character decides, and a text comes before its longer
/// continuations.
pub open spec fn text_less_from(a: Seq<char>, b: Seq<char>, i: nat) -> bool
    decreases a.len() - i,
{
    if i >= a.len() {
        i < b.len()
    } else if i >= b.len() {
        false
    } else if a[i as int] != b[i as int] {
        (a[i as int] as int) < (b[i as int] as int)
    } else {
        text_less_from(a, b, i + 1)
    }
}

/// `a` comes before `b` in the order of `String`: the first differing character
/// decides, and a text comes before its longer continuations.
pub open spec fn text_less(a: Seq<char>, b: Seq<char>) -> bool {
    text_less_from(a, b, 0)
}

/// The order of texts is irreflexive and total: of two different texts exactly
/// one comes first.
pub proof fn lemma_text_less_trichotomy(a: Seq<char>, b: Seq<char>, i: nat)
    requires
        i <= a.len(),
        i <= b.len(),
        a.take(i as int) == b.take(i as int),
    ensures
        a == b ==> !text_less_from(a, b, i),
        a != b ==> (text_less_from(a, b, i) != text_less_from(b, a, i)),
    decreases a.len() - i,
{
    if i >= a.len() || i >= b.len() {
        if a.len() == b.len() {
            assert(a =~= a.take(i as int));
            assert(b =~= b.take(i as int));
        }
    } else if a[i as int] != b[i as int] {
        assert(a[i as int] as int != b[i as int] as int);
    } else {
        assert(a.take((i + 1) as int) =~= a.take(i as int).push(a[i as int]));
        assert(b.take((i + 1) as int) =~= b.take(i as int).push(b[i as int]));
        lemma_text_less_trichotomy(a, b, i + 1);
    }
}

/// The order of texts is transitive.
pub proof fn lemma_text_less_transitive(a: Seq<char>, b: Seq<char>, c: Seq<char>, i: nat)
    requires
        text_less_from(a, b, i),
        text_less_from(b, c, i),
    ensures
        text_less_from(a, c, i),
    decreases a.len() - i,
{
    if i < a.len() && i < b.len() && i < c.len() && a[i as int] == b[i as int] && b[i as int] == c[i as int] {
        lemma_text_less_transitive(a, b, c, i + 1);
    }
}

/// Which of two texts comes first in the order of `String`: `Less` when `a` comes
/// before `b`, `Equal` when they are the same text, `Greater` otherwise.
#[derive(Clone, Copy, Debug, PartialEq, Eq, Structural)]
pub enum TextOrder {
    Less,
    Equal,
    Greater,
}

/// Compare two texts, character by character.
pub fn compare_text(a: &Vec<char>, b: &Vec<char>) -> (o: TextOrder)
    ensures
        o == TextOrder::Less <==> text_less(a@, b@),
        o == TextOrder::Equal <==> a@ == b@,
        o == TextOrder::Greater <==> text_less(b@, a@),
{
    let mut i: usize = 0;
    while i < a.len() && i < b.len() && a[i] == b[i]
        invariant
            i <= a.len(),
            i <= b.len(),
            a@.take(i as int) == b@.take(i as int),
            text_less(a@, b@) == text_less_from(a@, b@, i as nat),
            text_less(b@, a@) == text_less_from(b@, a@, i as nat),
        decreases a.len() - i,
    {
        assert(a@.take(i + 1) =~= a@.take(i as int).push(a@[i as int]));
        assert(b@.take(i + 1) =~= b@.take(i as int).push(b@[i as int]));
        i = i + 1;
    }
    proof {
        lemma_text_less_trichotomy(a@, b@, i as nat);
        lemma_text_less_trichotomy(b@, a@, i as nat);
    }
    if i < a.len() && i < b.len() {
        if a[i] < b[i] {
            TextOrder::Less
        } else {
            TextOrder::Greater
        }
    } else if a.len() < b.len() {
        TextOrder::Less
    } else if b.len() < a.len() {
        TextOrder::Greater
    } else {
        proof {
            assert(a@ =~= a@.take(i as int));
            assert(b@ =~= b@.take(i as int));
        }
        TextOrder::Equal
    }
}

/// `n` spaces.
pub open spec fn spaces(n: nat) -> Seq<char> {
    Seq::new(n, |i: int| ' ')
}

/// `s` followed by spaces up to `width` characters, as `{:<width}` writes it.
pub open spec fn padded(s: Seq<char>, width: nat) -> Seq<char> {
    if s.len() >= width {
        s
    } else {
        s + spaces((width - s.len()) as nat)
    }
}

/// `s` after spaces up to `width` characters, as `{:>width}` writes it.
pub open spec fn left_padded(s: Seq<char>, width: nat) -> Seq<char> {
    if s.len() >= width {
        s
    } else {
        spaces((width - s.len()) as nat) + s
    }
}

/// Append `n` spaces.
fn push_spaces(out: &mut String, n: usize)
    ensures
        final(out)@ == old(out)@ + spaces(n as nat),
{
    let ghost start = out@;
    let mut k: usize = 0;
    while k < n
        invariant
            k <= n,
            out@ == start + spaces(k as nat),
        decreases n - k,
    {
        out.append(" ");
        proof {
            reveal_strlit(" ");
            assert(start + spaces((k + 1) as nat) =~= start + spaces(k as nat) + " "@);
        }
        k = k + 1;
    }
}

/// Append `text` padded with spaces up to `width` characters.
pub fn push_padded(out: &mut String, text: &str, width: usize)
    ensures
        final(out)@ == old(out)@ + padded(text@, width as nat),
{
    let len = text.unicode_len();
    out.append(text);
    if len < width {
        push_spaces(out, width - len);
        proof {
            assert(old(out)@ + text@ + spaces((width - len) as nat) =~= old(out)@ + padded(text@, width as nat));
        }
    }
}

/// Append spaces up to `width` characters and then `text`.
pub fn push_left_padded(out: &mut String, text: &str, width: usize)
    ensures
        final(out)@ == old(out)@ + left_padded(text@, width as nat),
{
    let len = text.unicode_len();
    if len < width {
        push_spaces(out, width - len);
    }
    out.append(text);
    proof {
        if len < width {
            assert(old(out)@ + spaces((width - len) as nat) + text@ =~= old(out)@ + left_padded(text@, width as nat));
        }
    }
}

/// `pattern` occurs in `text` starting at position `i`.
pub open spec fn occurs_at(text: Seq<char>, pattern: Seq<char>, i: int) -> bool {
    0 <= i && i + pattern.len() <= text.len() && text.subrange(i, i + pattern.len()) == pattern
}

/// The first position at which `pattern` occurs in `text`, if it occurs at all.
pub open spec fn first_occurrence(text: Seq<char>, pattern: Seq<char>) -> Option<int> {
    if exists|i: int| occurs_at(text, pattern, i) {
        Some(choose|i: int| occurs_at(text, pattern, i) && forall|j: int| 0 <= j < i ==> !occurs_at(text, pattern, j))
    } else {
        None
    }
}

/// Find the first position at which `pattern` occurs in `text`.
pub fn find_text(text: &Vec<char>, pattern: &Vec<char>) -> (r: Option<usize>)
    ensures
        match r {
            Some(i) => occurs_at(text@, pattern@, i as int) && forall|j: int| 0 <= j < i ==> !occurs_at(text@, pattern@, j),
            None => forall|j: int| !occurs_at(text@, pattern@, j),
        },
{
    if pattern.len() > text.len() {
        return None;
    }
    let last = text.len() - pattern.len();
    let mut i: usize = 0;
    while i <= last
        invariant
            last == text.len() - pattern.len(),
            pattern.len() <= text.len(),
            i <= last + 1,
            forall|j: int| 0 <= j < i ==> !occurs_at(text@, pattern@, j),
        decreases last + 1 - i,
    {
        let mut k: usize = 0;
        let mut matched = true;
        while k < pattern.len() && matched
            invariant
                i <= last,
                last == text.len() - pattern.len(),
                k <= pattern.len(),
                forall|m: int| 0 <= m < k ==> text@[i + m] == pattern@[m],
                !matched ==> k < pattern.len() && text@[i + k] != pattern@[k as int],
            decreases (pattern.len() - k) * 2 + (if matched { 1int } else { 0int }),
        {
            if text[i + k] != pattern[k] {
                matched = false;
            } else {
                k = k + 1;
            }
        }
        if matched {
            proof {
                assert(text@.subrange(i as int, i + pattern@.len()) =~= pattern@);
            }
            return Some(i);
        }
        proof {
            assert(!occurs_at(text@, pattern@, i as int)) by {
                if occurs_at(text@, pattern@, i as int) {
                    assert(text@.subrange(i as int, i + pattern@.len())[k as int] == text@[i + k]);
                }
            }
        }
        i = i + 1;
    }
    proof {
        assert forall|j: int| !occurs_at(text@, pattern@, j) by {
            if 0 <= j && j < i {
            }
        }
    }
    None
}

} // verus!

//! The choice of how Coordinated Omission is mitigated, read from its name.

use vstd::prelude::*;

use crate::util::chars_of;
use crate::GooseError;

verus! {

/// How requests missing because of Coordinated Omission are backfilled.
#[derive(Clone, Copy, Debug, PartialEq, Eq, Structural)]
pub enum GooseCoordinatedOmissionMitigation {
    /// Backfill based on the average user cadence.
    Average,
    /// Backfill based on the maximum user cadence.
    Maximum,
    /// Backfill based on the minimum user cadence.
    Minimum,
    /// Completely disable coordinated omission mitigation (default).
    Disabled,
}

/// A character as case-insensitive matching compares it: ASCII capitals and the
/// long s, which fold to lower case letters of these names, are folded; the names
/// hold no other letter that any other character folds to.
pub open spec fn folded(c: char) -> char {
    if 'A' <= c && c <= 'Z' {
        ((c as u32) + 32) as char
    } else if c == '\u{17f}' {
        's'
    } else {
        c
    }
}

/// `s` is `word` (written in lower case), ignoring case.
pub open spec fn is_word(s: Seq<char>, word: Seq<char>) -> bool {
    s.len() == word.len() && forall|i: int| 0 <= i < s.len() ==> #[trigger] folded(s[i]) == word[i]
}

/// `s` is one of `words`, ignoring case.
pub open spec fn is_one_of(s: Seq<char>, words: Seq<Seq<char>>) -> bool {
    exists|i: int| 0 <= i < words.len() && is_word(s, #[trigger] words[i])
}

/// The names of averaging.
pub open spec fn average_names() -> Seq<Seq<char>> {
    seq!["average"@, "ave"@, "aver"@, "avg"@, "mean"@]
}

/// The names of the maximum.
pub open spec fn maximum_names() -> Seq<Seq<char>> {
    seq!["maximum"@, "ma"@, "max"@, "maxi"@]
}

/// The names of the minimum.
pub open spec fn minimum_names() -> Seq<Seq<char>> {
    seq!["minimum"@, "mi"@, "min"@, "mini"@]
}

/// The names of disabling.
pub open spec fn disabled_names() -> Seq<Seq<char>> {
    seq!["disabled"@, "di"@, "dis"@, "disable"@, "none"@, "no"@]
}

/// The text of `s` as `{:?}` writes a string: in double quotes, with quotes,
/// backslashes and characters that do not print escaped.
pub uninterp spec fn debug_text(s: Seq<char>) -> Seq<char>;

/// Write a string as `{:?}` does.
///
/// Calls `format!` with `{:?}` on the string: the quoted, escaped text, which is a
/// function of the string alone and is named, not spelled out.
#[verifier::external_body]
fn debug_quoted(s: &str) -> (d: String)
    ensures
        d@ == debug_text(s@),
{
    format!("{:?}", s)
}

fn fold_char(c: char) -> (f: char)
    ensures
        f == folded(c),
{
    if 'A' <= c && c <= 'Z' {
        let code: u8 = (c as u8) + 32;
        code as char
    } else if c == '\u{17f}' {
        's'
    } else {
        c
    }
}

/// Whether `s` is `word`, ignoring case.
fn matches_word(s: &Vec<char>, word: &str) -> (b: bool)
    ensures
        b == is_word(s@, word@),
{
    let w = chars_of(word);
    if s.len() != w.len() {
        return false;
    }
    let mut i: usize = 0;
    while i < s.len()
        invariant
            s@.len() == w@.len(),
            w@ == word@,
            i <= s@.len(),
            forall|j: int| 0 <= j < i ==> #[trigger] folded(s@[j]) == w@[j],
        decreases s@.len() - i,
    {
        if fold_char(s[i]) != w[i] {
            return false;
        }
        i = i + 1;
    }
    true
}

impl GooseCoordinatedOmissionMitigation {
    /// Read a mitigation from its name or one of its abbreviations and synonyms,
    /// ignoring case: average, ave, aver, avg or mean; maximum, ma, max or maxi;
    /// minimum, mi, min or mini; disabled, di, dis, disable, none or no.
    pub fn from_str(s: &str) -> (r: Result<Self, GooseError>)
        ensures
            is_one_of(s@, average_names()) ==> r == Ok::<Self, GooseError>(GooseCoordinatedOmissionMitigation::Average),
            !is_one_of(s@, average_names()) && is_one_of(s@, maximum_names()) ==> r == Ok::<Self, GooseError>(
                GooseCoordinatedOmissionMitigation::Maximum,
            ),
            !is_one_of(s@, average_names()) && !is_one_of(s@, maximum_names()) && is_one_of(s@, minimum_names())
                ==> r == Ok::<Self, GooseError>(GooseCoordinatedOmissionMitigation::Minimum),
            !is_one_of(s@, average_names()) && !is_one_of(s@, maximum_names()) && !is_one_of(s@, minimum_names())
                && is_one_of(s@, disabled_names()) ==> r == Ok::<Self, GooseError>(
                GooseCoordinatedOmissionMitigation::Disabled,
            ),
            !is_one_of(s@, average_names()) && !is_one_of(s@, maximum_names()) && !is_one_of(s@, minimum_names())
                && !is_one_of(s@, disabled_names()) ==> (r matches Err(GooseError::InvalidOption { option, value, detail })
                && option@ == "GooseCoordinatedOmissionMitigation::"@ + debug_text(s@) && value@ == s@
                && detail@ == "Invalid co_mitigation, expected: average, disabled, maximum, median, or minimum"@),
    {
        let cs = chars_of(s);
        proof {
            reveal_strlit("average");
            reveal_strlit("ave");
            reveal_strlit("aver");
            reveal_strlit("avg");
            reveal_strlit("mean");
            reveal_strlit("maximum");
            reveal_strlit("ma");
            reveal_strlit("max");
            reveal_strlit("maxi");
            reveal_strlit("minimum");
            reveal_strlit("mi");
            reveal_strlit("min");
            reveal_strlit("mini");
            reveal_strlit("disabled");
            reveal_strlit("di");
            reveal_strlit("dis");
            reveal_strlit("disable");
            reveal_strlit("none");
            reveal_strlit("no");
        }
        let average = matches_word(&cs, "average") || matches_word(&cs, "ave") || matches_word(&cs, "aver")
            || matches_word(&cs, "avg") || matches_word(&cs, "mean");
        proof {
            lemma_one_of_five(cs@, average_names());
        }
        if average {
            return Ok(GooseCoordinatedOmissionMitigation::Average);
        }
        let maximum = matches_word(&cs, "maximum") || matches_word(&cs, "ma") || matches_word(&cs, "max")
            || matches_word(&cs, "maxi");
        proof {
            lemma_one_of_four(cs@, maximum_names());
        }
        if maximum {
            return Ok(GooseCoordinatedOmissionMitigation::Maximum);
        }
        let minimum = matches_word(&cs, "minimum") || matches_word(&cs, "mi") || matches_word(&cs, "min")
            || matches_word(&cs, "mini");
        proof {
            lemma_one_of_four(cs@, minimum_names());
        }
        if minimum {
            return Ok(GooseCoordinatedOmissionMitigation::Minimum);
        }
        let disabled = matches_word(&cs, "disabled") || matches_word(&cs, "di") || matches_word(&cs, "dis")
            || matches_word(&cs, "disable") || matches_word(&cs, "none") || matches_word(&cs, "no");
        proof {
            lemma_one_of_six(cs@, disabled_names());
        }
        if disabled {
            return Ok(GooseCoordinatedOmissionMitigation::Disabled);
        }
        let mut option = String::from_str("GooseCoordinatedOmissionMitigation::");
        let quoted = debug_quoted(s);
        option.append(quoted.as_str());
        Err(
            GooseError::InvalidOption {
                option,
                value: String::from_str(s),
                detail: String::from_str(
                    "Invalid co_mitigation, expected: average, disabled, maximum, median, or minimum",
                ),
            },
        )
    }
}

proof fn lemma_one_of_four(s: Seq<char>, words: Seq<Seq<char>>)
    requires
        words.len() == 4,
    ensures
        is_one_of(s, words) <==> (is_word(s, words[0]) || is_word(s, words[1]) || is_word(s, words[2])
            || is_word(s, words[3])),
{
}

proof fn lemma_one_of_five(s: Seq<char>, words: Seq<Seq<char>>)
    requires
        words.len() == 5,
    ensures
        is_one_of(s, words) <==> (is_word(s, words[0]) || is_word(s, words[1]) || is_word(s, words[2])
            || is_word(s, words[3]) || is_word(s, words[4])),
{
}

proof fn lemma_one_of_six(s: Seq<char>, words: Seq<Seq<char>>)
    requires
        words.len() == 6,
    ensures
        is_one_of(s, words) <==> (is_word(s, words[0]) || is_word(s, words[1]) || is_word(s, words[2])
            || is_word(s, words[3]) || is_word(s, words[4]) || is_word(s, words[5])),
{
}

} // verus!

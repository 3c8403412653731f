//! Utility functions used by Goose, and available when writing load tests.

use std::collections::BTreeMap;
use vstd::prelude::*;
use vstd::string::*;

use crate::histogram::{find_reaching, half_of, median_of, running_totals_fit, sorted_keys};
use crate::GooseError;

verus! {

/// `d` divides `n`: some natural multiple of `d` equals `n`.
pub open spec fn divides(d: nat, n: nat) -> bool {
    exists|k: nat| #[trigger] (d * k) == n
}

/// `g` is the greatest common divisor of `u` and `v`: it divides both, and
/// every common divisor of `u` and `v` divides it.
pub open spec fn is_gcd(g: nat, u: nat, v: nat) -> bool {
    &&& divides(g, u)
    &&& divides(g, v)
    &&& forall|d: nat| divides(d, u) && divides(d, v) ==> #[trigger] divides(d, g)
}


/// The greatest common divisor of `u` and `v`, as a function.
pub open spec fn gcd_of(u: nat, v: nat) -> nat {
    choose|g: nat| is_gcd(g, u, v)
}

proof fn lemma_divides_antisymmetric(a: nat, b: nat)
    requires
        divides(a, b),
        divides(b, a),
    ensures
        a == b,
{
    let k = choose|k: nat| #[trigger] (a * k) == b;
    let j = choose|j: nat| #[trigger] (b * j) == a;
    assert(a == b) by (nonlinear_arith)
        requires
            a * k == b,
            b * j == a,
    {
        if a > 0 {
            assert(a * (k * j) == a * 1);
            assert(k * j == 1);
            assert(k == 1);
        } else {
            assert(b == 0);
        }
    }
}

/// Law: the greatest common divisor is unique, so `gcd_of` names it.
pub proof fn lemma_is_gcd_is_gcd_of(g: nat, u: nat, v: nat)
    requires
        is_gcd(g, u, v),
    ensures
        g == gcd_of(u, v),
{
    let h = gcd_of(u, v);
    assert(is_gcd(h, u, v));
    assert(divides(g, h));
    assert(divides(h, g));
    lemma_divides_antisymmetric(g, h);
}

proof fn lemma_divides_refl(n: nat)
    ensures
        divides(n, n),
{
    assert(n * 1 == n);
}

proof fn lemma_divides_double(d: nat, n: nat)
    requires
        divides(d, n),
    ensures
        divides(d, 2 * n),
{
    let k = choose|k: nat| #[trigger] (d * k) == n;
    assert(d * (2 * k) == 2 * n) by (nonlinear_arith)
        requires
            d * k == n,
    ;
}

proof fn lemma_divides_both_double(d: nat, n: nat)
    requires
        divides(d, n),
    ensures
        divides(2 * d, 2 * n),
{
    let k = choose|k: nat| #[trigger] (d * k) == n;
    assert((2 * d) * k == 2 * n) by (nonlinear_arith)
        requires
            d * k == n,
    ;
}

/// An odd divisor of an even number divides its half.
proof fn lemma_odd_divides_half(d: nat, n: nat)
    requires
        divides(d, 2 * n),
        d % 2 == 1,
    ensures
        divides(d, n),
{
    let k = choose|k: nat| #[trigger] (d * k) == 2 * n;
    let q = d / 2;
    assert(d == 2 * q + 1);
    assert(k % 2 == 0) by (nonlinear_arith)
        requires
            d * k == 2 * n,
            d == 2 * q + 1,
    {
        let j = k / 2;
        let r = k % 2;
        assert(k == 2 * j + r);
        assert(d * k == 2 * (q * k + j) + r);
    }
    let h: nat = k / 2;
    assert(d * h == n) by (nonlinear_arith)
        requires
            d * k == 2 * n,
            k == 2 * h,
    ;
}

/// An even divisor of an even number halves into a divisor of its half.
proof fn lemma_even_divides_half(d: nat, n: nat)
    requires
        divides(d, 2 * n),
        d % 2 == 0,
        d > 0,
    ensures
        divides(d / 2, n),
{
    let k = choose|k: nat| #[trigger] (d * k) == 2 * n;
    let h: nat = d / 2;
    assert(h * k == n) by (nonlinear_arith)
        requires
            d * k == 2 * n,
            d == 2 * h,
    ;
}

proof fn lemma_divides_sum(d: nat, a: nat, b: nat)
    requires
        divides(d, a),
        divides(d, b),
    ensures
        divides(d, a + b),
{
    let i = choose|k: nat| #[trigger] (d * k) == a;
    let j = choose|k: nat| #[trigger] (d * k) == b;
    assert(d * (i + j) == a + b) by (nonlinear_arith)
        requires
            d * i == a,
            d * j == b,
    ;
}

proof fn lemma_divides_diff(d: nat, a: nat, b: nat)
    requires
        divides(d, a),
        divides(d, b),
        a <= b,
    ensures
        divides(d, (b - a) as nat),
{
    let i = choose|k: nat| #[trigger] (d * k) == a;
    let j = choose|k: nat| #[trigger] (d * k) == b;
    if d == 0 {
        assert(a == 0 && b == 0) by (nonlinear_arith)
            requires
                d * i == a,
                d * j == b,
                d == 0,
        ;
        assert(d * 0 == (b - a) as nat);
    } else {
        assert(i <= j) by (nonlinear_arith)
            requires
                d * i == a,
                d * j == b,
                a <= b,
                d > 0,
        ;
        let m: nat = (j - i) as nat;
        assert(d * m == (b - a) as nat) by (nonlinear_arith)
            requires
                d * i == a,
                d * j == b,
                m == j - i,
        ;
    }
}

/// Calculate the greatest common divisor of two integers using the binary GCD
/// (Stein's) algorithm.
///
/// The algorithm does not terminate when exactly one argument is zero, so
/// either both arguments are positive or they are equal.
pub fn gcd(u: usize, v: usize) -> (g: usize)
    requires
        (u > 0 && v > 0) || u == v,
    ensures
        is_gcd(g as nat, u as nat, v as nat),
        g == gcd_of(u as nat, v as nat),
        g > 0 <==> u > 0,
        g <= u && g <= v,
    decreases u + v,
{
    if u == v {
        proof {
            lemma_divides_refl(u as nat);
            lemma_is_gcd_is_gcd_of(u as nat, u as nat, v as nat);
        }
        u
    } else if u % 2 == 0 && v % 2 == 1 {
        let g = gcd(u / 2, v);
        proof {
            lemma_gcd_even_odd(g as nat, u as nat, v as nat);
            lemma_is_gcd_is_gcd_of(g as nat, u as nat, v as nat);
        }
        g
    } else if u % 2 == 1 && v % 2 == 0 {
        let g = gcd(v / 2, u);
        proof {
            lemma_gcd_even_odd(g as nat, v as nat, u as nat);
            lemma_is_gcd_symmetric(g as nat, v as nat, u as nat);
            lemma_is_gcd_is_gcd_of(g as nat, u as nat, v as nat);
        }
        g
    } else if u % 2 == 0 {
        let h = gcd(u / 2, v / 2);
        proof {
            lemma_gcd_even_even(h as nat, u as nat, v as nat);
            lemma_is_gcd_is_gcd_of(2 * h as nat, u as nat, v as nat);
        }
        h * 2
    } else {
        let (x, y) = if u < v { (u, v) } else { (v, u) };
        let g = gcd((y - x) / 2, x);
        proof {
            lemma_gcd_odd_odd(g as nat, x as nat, y as nat);
            if u >= v {
                lemma_is_gcd_symmetric(g as nat, v as nat, u as nat);
            }
            lemma_is_gcd_is_gcd_of(g as nat, u as nat, v as nat);
        }
        g
    }
}

proof fn lemma_is_gcd_symmetric(g: nat, u: nat, v: nat)
    requires
        is_gcd(g, u, v),
    ensures
        is_gcd(g, v, u),
{
}

proof fn lemma_gcd_even_odd(g: nat, u: nat, v: nat)
    requires
        u % 2 == 0,
        v % 2 == 1,
        is_gcd(g, u / 2, v),
    ensures
        is_gcd(g, u, v),
{
    lemma_divides_double(g, u / 2);
    assert(2 * (u / 2) == u);
    assert forall|d: nat| divides(d, u) && divides(d, v) implies #[trigger] divides(d, g) by {
        lemma_divisor_of_odd_is_odd(d, v);
        lemma_odd_divides_half(d, u / 2);
    }
}

proof fn lemma_divisor_of_odd_is_odd(d: nat, v: nat)
    requires
        divides(d, v),
        v % 2 == 1,
    ensures
        d % 2 == 1,
{
    let k = choose|k: nat| #[trigger] (d * k) == v;
    if d % 2 == 0 {
        let h = d / 2;
        assert(d * k == 2 * (h * k)) by (nonlinear_arith)
            requires
                d == 2 * h,
        ;
    }
}

proof fn lemma_gcd_even_even(h: nat, u: nat, v: nat)
    requires
        u % 2 == 0,
        v % 2 == 0,
        is_gcd(h, u / 2, v / 2),
    ensures
        is_gcd(2 * h, u, v),
{
    assert(2 * (u / 2) == u);
    assert(2 * (v / 2) == v);
    lemma_divides_both_double(h, u / 2);
    lemma_divides_both_double(h, v / 2);
    assert forall|d: nat| divides(d, u) && divides(d, v) implies #[trigger] divides(d, 2 * h) by {
        if d % 2 == 1 {
            lemma_odd_divides_half(d, u / 2);
            lemma_odd_divides_half(d, v / 2);
            assert(divides(d, h));
            lemma_divides_double(d, h);
        } else if d == 0 {
            let k = choose|k: nat| #[trigger] (d * k) == u;
            assert(d * k == 0);
            let j = choose|k: nat| #[trigger] (d * k) == v;
            assert(d * j == 0);
            assert(divides(0, u / 2)) by {
                assert(0 * 0 == u / 2);
            }
            assert(divides(0, v / 2)) by {
                assert(0 * 0 == v / 2);
            }
            assert(divides(0, h));
            let m = choose|k: nat| #[trigger] (0 * k) == h;
            assert(h == 0);
            assert(d * 0 == 2 * h);
        } else {
            lemma_even_divides_half(d, u / 2);
            lemma_even_divides_half(d, v / 2);
            assert(divides(d / 2, h));
            lemma_divides_both_double(d / 2, h);
            assert(2 * (d / 2) == d);
        }
    }
}

proof fn lemma_gcd_odd_odd(g: nat, x: nat, y: nat)
    requires
        x % 2 == 1,
        y % 2 == 1,
        x < y,
        is_gcd(g, ((y - x) as nat) / 2, x),
    ensures
        is_gcd(g, x, y),
{
    let h: nat = ((y - x) as nat) / 2;
    assert(2 * h == (y - x) as nat);
    lemma_divides_double(g, h);
    lemma_divides_sum(g, (y - x) as nat, x);
    assert(((y - x) as nat) + x == y);
    assert forall|d: nat| divides(d, x) && divides(d, y) implies #[trigger] divides(d, g) by {
        lemma_divisor_of_odd_is_odd(d, x);
        lemma_divides_diff(d, x, y);
        lemma_odd_divides_half(d, h);
    }
}
/// Calculate median for a histogram of times.
///
/// This is the first time, in increasing order, by which half of `total_elements`
/// (rounded half up) were seen. As times are rounded, it may lie outside the
/// smallest and largest times actually seen: `max` is returned when it is above
/// `max`, `min` when it is below `min`. Zero is returned when half is never reached.
pub fn median(btree: &BTreeMap<usize, usize>, total_elements: usize, min: usize, max: usize) -> (m: usize)
    requires
        running_totals_fit(btree@, sorted_keys(btree@.dom()), half_of(total_elements as nat), 0),
    ensures
        m == median_of(btree@, total_elements as nat, min, max),
{
    let half_elements: usize = total_elements / 2 + total_elements % 2;
    match find_reaching(btree, half_elements) {
        Some(value) => {
            if value > max {
                max
            } else if value < min {
                min
            } else {
                value
            }
        },
        None => 0,
    }
}


/// A string shortened to at most `max_length` characters: when longer, the first
/// `max_length - 2` characters followed by "..".
pub open spec fn truncated(s: Seq<char>, max_length: nat) -> Seq<char> {
    if s.len() > max_length {
        s.take(max_length - 2) + seq!['.', '.']
    } else {
        s
    }
}

/// Truncate strings when they're too long to display.
///
/// If a string is longer than the specified max length, this function removes the
/// extra characters and replaces the last two with a double-period ellipsis. A
/// string that must be cut needs room for the ellipsis, so `max_length` is then at
/// least 2.
pub fn truncate_string(str_to_truncate: &str, max_length: usize) -> (t: String)
    requires
        str_to_truncate@.len() > max_length ==> max_length >= 2,
    ensures
        t@ == truncated(str_to_truncate@, max_length as nat),
{
    if str_to_truncate.unicode_len() > max_length {
        let kept = str_to_truncate.substring_char(0, max_length - 2);
        let mut truncated_string = String::from_str(kept);
        truncated_string.append("..");
        proof {
            reveal_strlit("..");
            assert(str_to_truncate@.subrange(0, max_length - 2) =~= str_to_truncate@.take(max_length - 2));
            assert(".."@ =~= seq!['.', '.']);
        }
        truncated_string
    } else {
        String::from_str(str_to_truncate)
    }
}

/// Declares `std::time::Instant`, a measurement of a monotonic clock.
#[verifier::external_type_specification]
#[verifier::external_body]
pub struct ExInstant(std::time::Instant);

/// Whole seconds elapsed since `started`.
///
/// Calls `std::time::Instant::elapsed` and `Duration::as_secs`. The result depends
/// on the clock, so nothing is claimed of it.
#[verifier::external_body]
fn elapsed_secs(started: &std::time::Instant) -> u64 {
    started.elapsed().as_secs()
}

/// Whole milliseconds elapsed since `started`.
///
/// Calls `std::time::Instant::elapsed` and `Duration::as_millis`. The result depends
/// on the clock, so nothing is claimed of it.
#[verifier::external_body]
fn elapsed_millis(started: &std::time::Instant) -> u128 {
    started.elapsed().as_millis()
}

/// Whether a timer of `run_time` units has expired after `elapsed` units; a timer
/// of zero never expires.
pub open spec fn expired(elapsed: int, run_time: int) -> bool {
    run_time > 0 && elapsed >= run_time
}

/// Determine if a timer expired after `elapsed_secs` seconds, with second granularity.
pub fn timer_expired_after(elapsed_secs: u64, run_time: usize) -> (e: bool)
    ensures
        e == expired(elapsed_secs as int, run_time as int),
{
    run_time > 0 && elapsed_secs as u128 >= run_time as u128
}

/// Determine if a timer expired, with second granularity.
///
/// If the timer was started at least `run_time` seconds ago return `true`,
/// otherwise return `false`. A `run_time` of zero disables the timer.
pub fn timer_expired(started: std::time::Instant, run_time: usize) -> (e: bool)
    ensures
        run_time == 0 ==> !e,
{
    let elapsed = elapsed_secs(&started);
    timer_expired_after(elapsed, run_time)
}

/// Determine if a timer expired after `elapsed_ms` milliseconds, with millisecond granularity.
pub fn ms_timer_expired_after(elapsed_ms: u128, elapsed: usize) -> (e: bool)
    ensures
        e == expired(elapsed_ms as int, elapsed as int),
{
    elapsed > 0 && elapsed_ms >= elapsed as u128
}

/// Determine if a timer expired, with millisecond granularity.
///
/// If the timer was started at least `elapsed` milliseconds ago return `true`,
/// otherwise return `false`. An `elapsed` of zero disables the timer.
pub fn ms_timer_expired(started: std::time::Instant, elapsed: usize) -> (e: bool)
    ensures
        elapsed == 0 ==> !e,
{
    let elapsed_ms = elapsed_millis(&started);
    ms_timer_expired_after(elapsed_ms, elapsed)
}

/// Whether `url::Url::parse` accepts this text.
pub uninterp spec fn url_parses(input: Seq<char>) -> bool;

/// Parse a URL, keeping only whether it parsed and the parse error.
///
/// Calls `url::Url::parse`. Whether it succeeds depends only on the text, which is
/// what the name `url_parses` stands for; which `ParseError` comes back on failure is
/// not stated.
#[verifier::external_body]
fn parse_url(input: &str) -> (r: Result<(), url::ParseError>)
    ensures
        r.is_ok() == url_parses(input@),
{
    url::Url::parse(input).map(|_url| ())
}

/// Determine if a host can be parsed as a URL.
///
/// A host is valid exactly when `url::Url::parse` accepts it; otherwise the error
/// names the host and carries the parse error.
pub fn is_valid_host(host: &str) -> (r: Result<bool, GooseError>)
    ensures
        r.is_ok() == url_parses(host@),
        r matches Ok(b) ==> b,
        r matches Err(e) ==> e matches GooseError::InvalidHost { host: h, detail, .. } && h@ == host@
            && detail@ == "Invalid host."@,
{
    match parse_url(host) {
        Ok(()) => Ok(true),
        Err(parse_error) => Err(
            GooseError::InvalidHost {
                host: String::from_str(host),
                detail: String::from_str("Invalid host."),
                parse_error,
            },
        ),
    }
}

/// An ASCII decimal digit.
pub open spec fn is_ascii_digit(c: char) -> bool {
    '0' <= c && c <= '9'
}

/// The value of a sequence of ASCII decimal digits.
pub open spec fn digits_value(d: Seq<char>) -> nat
    decreases d.len(),
{
    if d.len() == 0 {
        0
    } else {
        digits_value(d.drop_last()) * 10 + ((d.last() as int) - ('0' as int)) as nat
    }
}

/// The text after an optional leading `+`.
pub open spec fn unsigned_digits(s: Seq<char>) -> Seq<char> {
    if s.len() > 0 && s[0] == '+' {
        s.drop_first()
    } else {
        s
    }
}

/// `usize::from_str` accepts the text: an optional `+`, then one or more ASCII
/// digits whose value fits in a `usize`.
pub open spec fn parses_as_usize(s: Seq<char>) -> bool {
    let d = unsigned_digits(s);
    &&& d.len() > 0
    &&& forall|i: int| 0 <= i < d.len() ==> is_ascii_digit(#[trigger] d[i])
    &&& digits_value(d) <= usize::MAX
}

/// The end of the run of ASCII digits that starts at `i`.
pub open spec fn digit_run_end(s: Seq<char>, i: int) -> int
    decreases s.len() - i,
{
    if 0 <= i < s.len() && is_ascii_digit(s[i]) {
        digit_run_end(s, i + 1)
    } else {
        i
    }
}

/// At `i` stand one or more digits followed by `unit`.
pub open spec fn unit_at(s: Seq<char>, i: int, unit: char) -> bool {
    let j = digit_run_end(s, i);
    j > i && j < s.len() && s[j] == unit
}

/// The number written before `unit` at `i`, or zero when there is none.
pub open spec fn unit_value(s: Seq<char>, i: int, unit: char) -> nat {
    if unit_at(s, i, unit) {
        digits_value(s.subrange(i, digit_run_end(s, i)))
    } else {
        0
    }
}

/// Where reading continues after the optional `unit` part at `i`.
pub open spec fn unit_next(s: Seq<char>, i: int, unit: char) -> int {
    if unit_at(s, i, unit) {
        digit_run_end(s, i) + 1
    } else {
        i
    }
}

/// The hours, minutes and seconds written at the start of a time span, each
/// optional but in that order, as in `1h`, `2h30m`, `45s` or `1h5m13s`.
pub open spec fn timespan_fields(s: Seq<char>) -> (nat, nat, nat) {
    let p1 = unit_next(s, 0, 'h');
    let p2 = unit_next(s, p1, 'm');
    (unit_value(s, 0, 'h'), unit_value(s, p1, 'm'), unit_value(s, p2, 's'))
}

/// The number of seconds that a time span stands for: an integer is seconds;
/// otherwise hours, minutes and seconds are read from its start; text that holds
/// neither is zero seconds.
pub open spec fn timespan_seconds(s: Seq<char>) -> nat {
    if parses_as_usize(s) {
        digits_value(unsigned_digits(s))
    } else {
        let (h, m, sec) = timespan_fields(s);
        h * 3600 + m * 60 + sec
    }
}

/// A character that may be a decimal digit outside ASCII: Unicode places no such
/// digit below U+0660.
pub open spec fn may_be_wide_digit(c: char) -> bool {
    (c as int) >= 0x660
}

/// Reading the optional `unit` part at `i` meets no decimal digit outside ASCII
/// that the unit follows: after the ASCII digits at `i`, every later `unit` is
/// preceded by some character that is certainly not a digit.
pub open spec fn unit_reads_ascii(s: Seq<char>, i: int, unit: char) -> bool {
    let e = digit_run_end(s, i);
    forall|j: int|
        e < j < s.len() && #[trigger] s[j] == unit ==> exists|k: int|
            e <= k < j && !is_ascii_digit(#[trigger] s[k]) && !may_be_wide_digit(s[k])
}

/// The time span is one that the parser reads without error: an integer, or text
/// whose hours, minutes and seconds add up to a number of seconds that fits in a
/// `usize`, where no unit follows digits outside ASCII (which the parser would
/// read as a number and fail on).
pub open spec fn valid_timespan(s: Seq<char>) -> bool {
    parses_as_usize(s) || {
        let p1 = unit_next(s, 0, 'h');
        let p2 = unit_next(s, p1, 'm');
        let (h, m, sec) = timespan_fields(s);
        &&& unit_reads_ascii(s, 0, 'h')
        &&& unit_reads_ascii(s, p1, 'm')
        &&& unit_reads_ascii(s, p2, 's')
        &&& h * 3600 + m * 60 + sec <= usize::MAX
    }
}

pub fn chars_of(s: &str) -> (cs: Vec<char>)
    ensures
        cs@ == s@,
{
    let mut cs: Vec<char> = Vec::new();
    for c in it: s.chars()
        invariant
            cs@ == it.seq().take(it.index() as int),
            it.seq() == s@,
    {
        proof {
            assert(it.seq().take(it.index() + 1) =~= cs@.push(c));
        }
        cs.push(c);
    }
    proof {
        assert(s@.take(s@.len() as int) =~= s@);
    }
    cs
}

pub fn is_digit_char(c: char) -> (b: bool)
    ensures
        b == is_ascii_digit(c),
{
    '0' <= c && c <= '9'
}

pub fn find_digit_run_end(cs: &Vec<char>, start: usize) -> (end: usize)
    requires
        start <= cs@.len(),
    ensures
        end == digit_run_end(cs@, start as int),
        start <= end <= cs@.len(),
        forall|k: int| start <= k < end ==> is_ascii_digit(#[trigger] cs@[k]),
{
    let mut i = start;
    while i < cs.len() && is_digit_char(cs[i])
        invariant
            start <= i <= cs@.len(),
            digit_run_end(cs@, start as int) == digit_run_end(cs@, i as int),
            forall|k: int| start <= k < i ==> is_ascii_digit(#[trigger] cs@[k]),
        decreases cs@.len() - i,
    {
        i = i + 1;
    }
    i
}

proof fn lemma_digits_value_grows(d: Seq<char>, i: int)
    requires
        0 <= i <= d.len(),
    ensures
        digits_value(d.take(i)) <= digits_value(d),
    decreases d.len(),
{
    if i < d.len() {
        assert(d.drop_last().take(i) =~= d.take(i));
        lemma_digits_value_grows(d.drop_last(), i);
    } else {
        assert(d.take(i) =~= d);
    }
}

/// The value of the ASCII digits `cs[start..end]`, or `None` when it does not fit.
pub fn digits_to_usize(cs: &Vec<char>, start: usize, end: usize) -> (r: Option<usize>)
    requires
        start <= end <= cs@.len(),
        forall|k: int| start <= k < end ==> is_ascii_digit(#[trigger] cs@[k]),
    ensures
        r matches Some(v) ==> v == digits_value(cs@.subrange(start as int, end as int)),
        r is None <==> digits_value(cs@.subrange(start as int, end as int)) > usize::MAX,
{
    let ghost d = cs@.subrange(start as int, end as int);
    let mut value: usize = 0;
    let mut i = start;
    while i < end
        invariant
            start <= i <= end <= cs@.len(),
            d == cs@.subrange(start as int, end as int),
            forall|k: int| start <= k < end ==> is_ascii_digit(#[trigger] cs@[k]),
            value == digits_value(d.take(i - start)),
        decreases end - i,
    {
        let digit = (cs[i] as u32 - '0' as u32) as usize;
        assert(d.take(i - start + 1).drop_last() =~= d.take(i - start));
        assert(d.take(i - start + 1).last() == cs@[i as int]);
        match value.checked_mul(10) {
            Some(tens) => match tens.checked_add(digit) {
                Some(next) => {
                    value = next;
                },
                None => {
                    proof {
                        lemma_digits_value_grows(d, i - start + 1);
                    }
                    return None;
                },
            },
            None => {
                proof {
                    lemma_digits_value_grows(d, i - start + 1);
                }
                return None;
            },
        }
        i = i + 1;
    }
    assert(d.take(end - start) =~= d);
    Some(value)
}

/// Read the optional `unit` part at `i`: its number and where reading continues.
pub fn read_unit(cs: &Vec<char>, i: usize, unit: char) -> (r: (usize, usize))
    requires
        i <= cs@.len(),
        unit_value(cs@, i as int, unit) <= usize::MAX,
    ensures
        r.0 == unit_value(cs@, i as int, unit),
        r.1 == unit_next(cs@, i as int, unit),
        i <= r.1 <= cs@.len(),
{
    let end = find_digit_run_end(cs, i);
    if end > i && end < cs.len() && cs[end] == unit {
        match digits_to_usize(cs, i, end) {
            Some(value) => (value, end + 1),
            None => (0, i),
        }
    } else {
        (0, i)
    }
}

/// Parse a string representing a time span and return the number of seconds.
///
/// Can be specified as an integer, indicating seconds. Or can use integers
/// together with one or more of "h", "m", and "s", in that order, indicating
/// "hours", "minutes", and "seconds". Only the start of the text is read, and text
/// that holds no time span is zero seconds.
///
/// Valid formats include: 20, 20s, 3m, 2h, 1h20m, 3h30m10s, etc.
pub fn parse_timespan(time_str: &str) -> (seconds: usize)
    requires
        valid_timespan(time_str@),
    ensures
        seconds == timespan_seconds(time_str@),
{
    let cs = chars_of(time_str);
    timespan_of_chars(&cs)
}

/// The number of seconds that the time span `cs` stands for.
pub fn timespan_of_chars(cs: &Vec<char>) -> (seconds: usize)
    requires
        valid_timespan(cs@),
    ensures
        seconds == timespan_seconds(cs@),
{
    let len = cs.len();
    let start: usize = if len > 0 && cs[0] == '+' { 1 } else { 0 };
    proof {
        if len > 0 && cs@[0] == '+' {
            assert(cs@.subrange(1, len as int) =~= cs@.drop_first());
        } else {
            assert(cs@.subrange(0, len as int) =~= cs@);
        }
    }
    let end = find_digit_run_end(cs, start);
    if end == len && end > start {
        match digits_to_usize(cs, start, end) {
            Some(t) => {
                return t;
            },
            None => {},
        }
    }
    proof {
        let d = unsigned_digits(cs@);
        if parses_as_usize(cs@) {
            assert(d == cs@.subrange(start as int, len as int));
            assert forall|k: int| start <= k < len implies is_ascii_digit(#[trigger] cs@[k]) by {
                assert(cs@[k] == d[k - start]);
            }
            lemma_run_covers(cs@, start as int);
            assert(false);
        }
    }
    let (hours, p1) = read_unit(cs, 0, 'h');
    let (minutes, p2) = read_unit(cs, p1, 'm');
    let (seconds, _p3) = read_unit(cs, p2, 's');
    hours * 3600 + minutes * 60 + seconds
}

proof fn lemma_run_covers(s: Seq<char>, i: int)
    requires
        0 <= i <= s.len(),
        forall|k: int| i <= k < s.len() ==> is_ascii_digit(#[trigger] s[k]),
    ensures
        digit_run_end(s, i) == s.len(),
    decreases s.len() - i,
{
    if i < s.len() {
        lemma_run_covers(s, i + 1);
    }
}

/// Law: a truncated string fits in the length it was truncated to, and a string
/// that fits is kept as it is.
pub proof fn lemma_truncated_fits(s: Seq<char>, max_length: nat)
    requires
        s.len() > max_length ==> max_length >= 2,
    ensures
        truncated(s, max_length).len() <= max_length || truncated(s, max_length) == s,
        s.len() <= max_length ==> truncated(s, max_length) == s,
        s.len() > max_length ==> truncated(s, max_length).len() == max_length,
{
}

} // verus!

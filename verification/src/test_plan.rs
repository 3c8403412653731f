//! Test plans: the steps of a load test, each a number of users and a time span.

use vstd::prelude::*;

use crate::text::string_from_chars;
use crate::util::{
    chars_of, digit_run_end, digits_to_usize, digits_value, find_digit_run_end, is_ascii_digit,
    is_digit_char, parse_timespan, read_unit, timespan_of_chars, timespan_seconds, unit_next,
    valid_timespan,
};
use crate::{AttackPhase, GooseError};

verus! {

/// Internal data structure representing a test plan.
#[derive(Debug)]
pub struct TestPlan {
    /// A test plan is a vector of tuples each indicating a # of users and milliseconds.
    pub steps: Vec<(usize, usize)>,
    /// Which step of the test plan is currently running.
    pub current: usize,
}

/// The total number of users a list of steps needs: every increase over the
/// previous step's users adds to it.
pub open spec fn users_needed(steps: Seq<(usize, usize)>) -> nat
    decreases steps.len(),
{
    if steps.len() == 0 {
        0
    } else {
        let previous: nat = if steps.len() >= 2 { steps[steps.len() - 2].0 as nat } else { 0 };
        let last = steps.last().0 as nat;
        users_needed(steps.drop_last()) + if last > previous {
            (last - previous) as nat
        } else {
            0
        }
    }
}

/// A test plan step is performing one of the following actions.
#[derive(Clone, Copy, Debug, PartialEq, Eq, Structural)]
pub enum TestPlanStepAction {
    /// A test plan step that is increasing the number of users.
    Increasing,
    /// A test plan step that is maintaining the number of users.
    Maintaining,
    /// A test plan step that is decreasing the number of users.
    Decreasing,
    /// A test plan step that is canceling all users.
    Canceling,
    /// The final step indicating that the load test is finished.
    Finished,
}

/// What starting the current step means: the last step shuts down when it has no
/// users and maintains them otherwise; an earlier step increases, decreases or
/// maintains the users towards the next step.
pub open spec fn step_action(steps: Seq<(usize, usize)>, current: int) -> (TestPlanStepAction, AttackPhase) {
    if current == steps.len() - 1 {
        if steps[current].0 == 0 {
            (TestPlanStepAction::Finished, AttackPhase::Shutdown)
        } else {
            (TestPlanStepAction::Maintaining, AttackPhase::Maintain)
        }
    } else if steps[current].0 < steps[current + 1].0 {
        (TestPlanStepAction::Increasing, AttackPhase::Increase)
    } else if steps[current].0 > steps[current + 1].0 {
        (TestPlanStepAction::Decreasing, AttackPhase::Decrease)
    } else {
        (TestPlanStepAction::Maintaining, AttackPhase::Maintain)
    }
}

/// Law: starting the last step shuts the load test down exactly when that step
/// has no users; with users, it keeps them running until the test is canceled. An
/// earlier step increases, decreases or maintains the users as the next step has
/// more, fewer or as many. So a plan whose last step has users never finishes by
/// itself, and no step cancels.
pub proof fn lemma_step_action_by_users(steps: Seq<(usize, usize)>, current: int)
    requires
        0 <= current < steps.len(),
    ensures
        current == steps.len() - 1 && steps[current].0 > 0 ==> step_action(steps, current) == (
        TestPlanStepAction::Maintaining,
        AttackPhase::Maintain,
        ),
        current == steps.len() - 1 && steps[current].0 == 0 ==> step_action(steps, current) == (
        TestPlanStepAction::Finished,
        AttackPhase::Shutdown,
        ),
        step_action(steps, current).0 == TestPlanStepAction::Finished <==> (current == steps.len() - 1
            && steps[current].0 == 0),
        step_action(steps, current).0 == TestPlanStepAction::Finished <==> step_action(steps, current).1
            == AttackPhase::Shutdown,
        steps.last().0 > 0 ==> step_action(steps, current).0 != TestPlanStepAction::Finished,
        step_action(steps, current).0 != TestPlanStepAction::Canceling,
        current < steps.len() - 1 ==> {
            &&& (step_action(steps, current).0 == TestPlanStepAction::Increasing <==> steps[current].0
                < steps[current + 1].0)
            &&& (step_action(steps, current).0 == TestPlanStepAction::Decreasing <==> steps[current].0
                > steps[current + 1].0)
            &&& (step_action(steps, current).0 == TestPlanStepAction::Maintaining <==> steps[current].0
                == steps[current + 1].0)
            &&& step_action(steps, current).1 == match step_action(steps, current).0 {
                TestPlanStepAction::Increasing => AttackPhase::Increase,
                TestPlanStepAction::Decreasing => AttackPhase::Decrease,
                _ => AttackPhase::Maintain,
            }
        },
{
}

impl TestPlan {
    /// Create a new, empty test plan.
    pub fn new() -> (plan: TestPlan)
        ensures
            plan.steps@ == Seq::<(usize, usize)>::empty(),
            plan.current == 0,
    {
        TestPlan { steps: Vec::new(), current: 0 }
    }

    /// Determine the total number of users required by the test plan.
    pub fn total_users(&self) -> (total: usize)
        requires
            users_needed(self.steps@) <= usize::MAX,
        ensures
            total == users_needed(self.steps@),
    {
        let mut total_users: usize = 0;
        let mut previous: usize = 0;
        for i in 0..self.steps.len()
            invariant
                users_needed(self.steps@) <= usize::MAX,
                total_users == users_needed(self.steps@.take(i as int)),
                previous == if i == 0 { 0 } else { self.steps@[i - 1].0 },
        {
            let step = self.steps[i];
            proof {
                assert(self.steps@.take(i + 1).drop_last() =~= self.steps@.take(i as int));
                lemma_users_needed_prefix(self.steps@, i + 1);
            }
            if step.0 > previous {
                total_users = total_users + (step.0 - previous);
            }
            previous = step.0;
        }
        proof {
            assert(self.steps@.take(self.steps@.len() as int) =~= self.steps@);
        }
        total_users
    }

    /// Start the current step: what it does, which phase the load test enters, and
    /// how many users the step starts with. The plan then moves to the next step.
    pub fn advance(&mut self) -> (r: (TestPlanStepAction, AttackPhase, usize))
        requires
            old(self).current < old(self).steps@.len(),
        ensures
            (r.0, r.1) == step_action(old(self).steps@, old(self).current as int),
            r.2 == old(self).steps@[old(self).current as int].0,
            final(self).steps@ == old(self).steps@,
            final(self).current == old(self).current + 1,
            old(self).current == old(self).steps@.len() - 1 && r.2 > 0 ==> r.0
                == TestPlanStepAction::Maintaining && r.1 == AttackPhase::Maintain,
            r.0 == TestPlanStepAction::Finished <==> (old(self).current == old(self).steps@.len() - 1
                && r.2 == 0),
            r.0 == TestPlanStepAction::Finished <==> r.1 == AttackPhase::Shutdown,
            old(self).current < old(self).steps@.len() - 1 ==> {
                let next = old(self).steps@[old(self).current + 1].0;
                &&& (r.0 == TestPlanStepAction::Increasing <==> r.2 < next)
                &&& (r.0 == TestPlanStepAction::Decreasing <==> r.2 > next)
                &&& (r.0 == TestPlanStepAction::Maintaining <==> r.2 == next)
            },
    {
        proof {
            lemma_step_action_by_users(self.steps@, self.current as int);
        }
        let current = self.current;
        let users = self.steps[current].0;
        let (action, phase) = if current == self.steps.len() - 1 {
            if users == 0 {
                (TestPlanStepAction::Finished, AttackPhase::Shutdown)
            } else {
                (TestPlanStepAction::Maintaining, AttackPhase::Maintain)
            }
        } else {
            let next = self.steps[current + 1].0;
            if users < next {
                (TestPlanStepAction::Increasing, AttackPhase::Increase)
            } else if users > next {
                (TestPlanStepAction::Decreasing, AttackPhase::Decrease)
            } else {
                (TestPlanStepAction::Maintaining, AttackPhase::Maintain)
            }
        };
        self.current = current + 1;
        (action, phase, users)
    }
}

proof fn lemma_users_needed_prefix(steps: Seq<(usize, usize)>, i: int)
    requires
        0 <= i <= steps.len(),
    ensures
        users_needed(steps.take(i)) <= users_needed(steps),
    decreases steps.len(),
{
    if i < steps.len() {
        assert(steps.drop_last().take(i) =~= steps.take(i));
        lemma_users_needed_prefix(steps.drop_last(), i);
    } else {
        assert(steps.take(i) =~= steps);
    }
}

/// White space as Unicode defines it (the `White_Space` property).
pub open spec fn is_space(c: char) -> bool {
    let n = c as int;
    (9 <= n <= 13) || n == 32 || n == 0x85 || n == 0xA0 || n == 0x1680 || (0x2000 <= n <= 0x200A)
        || n == 0x2028 || n == 0x2029 || n == 0x202F || n == 0x205F || n == 0x3000
}

/// The first index at or after `i` that is not white space.
pub open spec fn skip_spaces(s: Seq<char>, i: int) -> int
    decreases s.len() - i,
{
    if 0 <= i < s.len() && is_space(s[i]) {
        skip_spaces(s, i + 1)
    } else {
        i
    }
}

/// Where the white space at the end of `s` starts.
pub open spec fn trailing_spaces_start(s: Seq<char>) -> int
    decreases s.len(),
{
    if s.len() > 0 && is_space(s.last()) {
        trailing_spaces_start(s.drop_last())
    } else {
        s.len() as int
    }
}

/// A time span of a plan line: one or more digits, or hours, minutes and seconds,
/// each optional but in that order, with nothing else.
pub open spec fn plan_timespan(t: Seq<char>) -> bool {
    ||| (t.len() > 0 && forall|i: int| 0 <= i < t.len() ==> is_ascii_digit(#[trigger] t[i]))
    ||| unit_next(t, unit_next(t, unit_next(t, 0, 'h'), 'm'), 's') == t.len()
}

/// Where the time span starts in a plan line whose comma stands at `c`.
pub open spec fn timespan_start(line: Seq<char>, c: int) -> int {
    skip_spaces(line, c + 1)
}

/// Where the time span ends in a plan line whose comma stands at `c`.
pub open spec fn timespan_end(line: Seq<char>, c: int) -> int {
    let d = skip_spaces(line, c + 1);
    let e = trailing_spaces_start(line);
    if e < d {
        d
    } else {
        e
    }
}

/// No white space in `t`.
pub open spec fn no_spaces(t: Seq<char>) -> bool {
    forall|i: int| 0 <= i < t.len() ==> !is_space(#[trigger] t[i])
}

/// A line of a test plan, `{users},{timespan}` with white space allowed around
/// both: the users, and the time span in milliseconds; `None` when the line is not
/// of that form.
pub open spec fn plan_line(line: Seq<char>) -> Option<(nat, nat)> {
    let a = skip_spaces(line, 0);
    let b = digit_run_end(line, a);
    let c = skip_spaces(line, b);
    let t = line.subrange(timespan_start(line, c), timespan_end(line, c));
    if b > a && c < line.len() && line[c] == ',' && no_spaces(t) && plan_timespan(t) {
        Some((digits_value(line.subrange(a, b)), timespan_seconds(t) * 1000))
    } else {
        None
    }
}

/// The index of the first `;` at or after `i`, or the length when there is none.
pub open spec fn next_semicolon(s: Seq<char>, i: int) -> int
    decreases s.len() - i,
{
    if 0 <= i < s.len() && s[i] != ';' {
        next_semicolon(s, i + 1)
    } else {
        i
    }
}

/// The lines of a test plan, separated by `;`, from index `i` on.
pub open spec fn plan_lines_from(s: Seq<char>, i: int) -> Seq<Seq<char>>
    decreases s.len() - i,
{
    let j = next_semicolon(s, i);
    if 0 <= i && j < s.len() && i <= j {
        seq![s.subrange(i, j)] + plan_lines_from(s, j + 1)
    } else {
        seq![s.subrange(i, s.len() as int)]
    }
}

/// The steps of the lines, or the first line that is not of the right form.
pub open spec fn plan_steps(lines: Seq<Seq<char>>) -> Result<Seq<(nat, nat)>, Seq<char>>
    decreases lines.len(),
{
    if lines.len() == 0 {
        Ok(Seq::empty())
    } else {
        match plan_line(lines[0]) {
            None => Err(lines[0]),
            Some(step) => match plan_steps(lines.drop_first()) {
                Ok(rest) => Ok(seq![step] + rest),
                Err(line) => Err(line),
            },
        }
    }
}

/// Each line up to the first one that is not of the right form holds users and a
/// time span in milliseconds that fit in a `usize`.
pub open spec fn plan_fits(lines: Seq<Seq<char>>) -> bool
    decreases lines.len(),
{
    lines.len() > 0 ==> match plan_line(lines[0]) {
        None => true,
        Some(step) => step.0 <= usize::MAX && step.1 <= usize::MAX && plan_fits(lines.drop_first()),
    }
}

/// The text of a test plan is ASCII, but for Unicode white space.
pub open spec fn plan_text_ok(s: Seq<char>) -> bool {
    forall|i: int| 0 <= i < s.len() ==> (s[i] as int) < 128 || is_space(#[trigger] s[i])
}

fn is_space_char(c: char) -> (b: bool)
    ensures
        b == is_space(c),
{
    let n = c as u32;
    (9 <= n && n <= 13) || n == 32 || n == 0x85 || n == 0xA0 || n == 0x1680 || (0x2000 <= n && n <= 0x200A)
        || n == 0x2028 || n == 0x2029 || n == 0x202F || n == 0x205F || n == 0x3000
}

fn skip_spaces_exec(cs: &Vec<char>, start: usize) -> (i: usize)
    requires
        start <= cs@.len(),
    ensures
        i == skip_spaces(cs@, start as int),
        start <= i <= cs@.len(),
{
    let mut i = start;
    while i < cs.len() && is_space_char(cs[i])
        invariant
            start <= i <= cs@.len(),
            skip_spaces(cs@, start as int) == skip_spaces(cs@, i as int),
        decreases cs@.len() - i,
    {
        i = i + 1;
    }
    i
}

fn trailing_spaces_start_exec(cs: &Vec<char>) -> (e: usize)
    ensures
        e == trailing_spaces_start(cs@),
        e <= cs@.len(),
{
    let mut e = cs.len();
    assert(cs@.take(cs@.len() as int) =~= cs@);
    while e > 0 && is_space_char(cs[e - 1])
        invariant
            e <= cs@.len(),
            trailing_spaces_start(cs@) == trailing_spaces_start(cs@.take(e as int)),
        decreases e,
    {
        assert(cs@.take(e as int).drop_last() =~= cs@.take(e - 1));
        e = e - 1;
    }
    assert(cs@.take(cs@.len() as int) =~= cs@);
    e
}

fn sub_chars(cs: &Vec<char>, start: usize, end: usize) -> (t: Vec<char>)
    requires
        start <= end <= cs@.len(),
    ensures
        t@ == cs@.subrange(start as int, end as int),
{
    let mut t: Vec<char> = Vec::new();
    for i in start..end
        invariant
            start <= end <= cs@.len(),
            t@ == cs@.subrange(start as int, i as int),
    {
        t.push(cs[i]);
        assert(t@ =~= cs@.subrange(start as int, i + 1));
    }
    t
}

/// Parse one line of a test plan.
fn parse_plan_line(line: &Vec<char>) -> (r: Option<(usize, usize)>)
    requires
        plan_text_ok(line@),
        plan_line(line@) matches Some(step) ==> step.0 <= usize::MAX && step.1 <= usize::MAX,
    ensures
        match plan_line(line@) {
            Some(step) => r == Some((step.0 as usize, step.1 as usize)),
            None => r is None,
        },
{
    let ghost s = line@;
    let len = line.len();
    let a = skip_spaces_exec(line, 0);
    let b = find_digit_run_end(line, a);
    let c = skip_spaces_exec(line, b);
    if !(b > a && c < len && line[c] == ',') {
        return None;
    }
    let d = skip_spaces_exec(line, c + 1);
    let e0 = trailing_spaces_start_exec(line);
    let e = if e0 < d { d } else { e0 };
    assert(timespan_start(s, c as int) == d);
    assert(timespan_end(s, c as int) == e);
    let t = sub_chars(line, d, e);
    let mut i: usize = 0;
    while i < t.len()
        invariant
            s == line@,
            a == skip_spaces(s, 0),
            b == digit_run_end(s, a as int),
            c == skip_spaces(s, b as int),
            b > a && c < s.len() && s[c as int] == ',',
            timespan_start(s, c as int) == d,
            timespan_end(s, c as int) == e,
            d <= e <= s.len(),
            t@ == s.subrange(d as int, e as int),
            i <= t@.len(),
            forall|k: int| 0 <= k < i ==> !is_space(#[trigger] t@[k]),
        decreases t@.len() - i,
    {
        if is_space_char(t[i]) {
            proof {
                let ts = s.subrange(d as int, e as int);
                assert(ts[i as int] == t@[i as int]);
                assert(is_space(ts[i as int]));
                assert(!no_spaces(ts));
                assert(plan_line(s) is None);
            }
            return None;
        }
        i = i + 1;
    }
    // the time span: all digits, or hours, minutes and seconds
    let mut all_digits = t.len() > 0;
    let mut k: usize = 0;
    while k < t.len()
        invariant
            k <= t@.len(),
            all_digits == (t@.len() > 0 && forall|j: int| 0 <= j < k ==> is_ascii_digit(#[trigger] t@[j])),
        decreases t@.len() - k,
    {
        if !is_digit_char(t[k]) {
            all_digits = false;
        }
        k = k + 1;
    }
    let form_ok = if all_digits {
        true
    } else {
        let (_h, p1) = read_units_position(&t, 0, 'h');
        let (_m, p2) = read_units_position(&t, p1, 'm');
        let (_s, p3) = read_units_position(&t, p2, 's');
        p3 == t.len()
    };
    if !form_ok {
        return None;
    }
    proof {
        assert(plan_line(s) == Some((digits_value(s.subrange(a as int, b as int)), timespan_seconds(t@) * 1000)));
    }
    let users = match digits_to_usize(line, a, b) {
        Some(users) => users,
        None => {
            return None;
        },
    };
    proof {
        assert forall|j: int| 0 <= j < t@.len() implies (t@[j] as int) < 128 by {
            assert(t@[j] == s[d + j]);
        }
        lemma_ascii_timespan_valid(t@);
    }
    let seconds = timespan_of_chars(&t);
    Some((users, seconds * 1000))
}

/// Where reading continues after the optional `unit` part at `i`, without its value.
fn read_units_position(cs: &Vec<char>, i: usize, unit: char) -> (r: (bool, usize))
    requires
        i <= cs@.len(),
    ensures
        r.1 == unit_next(cs@, i as int, unit),
        i <= r.1 <= cs@.len(),
{
    let end = find_digit_run_end(cs, i);
    if end > i && end < cs.len() && cs[end] == unit {
        (true, end + 1)
    } else {
        (false, i)
    }
}

proof fn lemma_ascii_timespan_valid(t: Seq<char>)
    requires
        forall|j: int| 0 <= j < t.len() ==> (t[j] as int) < 128,
    ensures
        valid_timespan(t) || {
            let (h, m, sec) = crate::util::timespan_fields(t);
            h * 3600 + m * 60 + sec > usize::MAX
        },
{
    let p1 = unit_next(t, 0, 'h');
    let p2 = unit_next(t, p1, 'm');
    lemma_ascii_unit_reads(t, 0, 'h');
    lemma_run_end_bounds(t, 0);
    lemma_run_end_bounds(t, p1);
    lemma_ascii_unit_reads(t, p1, 'm');
    lemma_run_end_bounds(t, p2);
    lemma_ascii_unit_reads(t, p2, 's');
}

proof fn lemma_ascii_unit_reads(t: Seq<char>, i: int, unit: char)
    requires
        0 <= i <= t.len(),
        forall|j: int| 0 <= j < t.len() ==> (t[j] as int) < 128,
    ensures
        crate::util::unit_reads_ascii(t, i, unit),
{
    lemma_run_end_bounds(t, i);
    let e = digit_run_end(t, i);
    assert forall|j: int| e < j < t.len() && #[trigger] t[j] == unit implies exists|k: int|
        e <= k < j && !is_ascii_digit(#[trigger] t[k]) && !crate::util::may_be_wide_digit(t[k]) by {
        assert(!is_ascii_digit(t[e]));
        assert((t[e] as int) < 128);
    }
}

proof fn lemma_run_end_bounds(s: Seq<char>, i: int)
    requires
        0 <= i <= s.len(),
    ensures
        i <= digit_run_end(s, i) <= s.len(),
        digit_run_end(s, i) < s.len() ==> !is_ascii_digit(s[digit_run_end(s, i)]),
    decreases s.len() - i,
{
    if i < s.len() && is_ascii_digit(s[i]) {
        lemma_run_end_bounds(s, i + 1);
    }
}

/// Steps found so far, followed by the outcome for the remaining lines.
pub open spec fn after_steps(done: Seq<(nat, nat)>, rest: Result<Seq<(nat, nat)>, Seq<char>>) -> Result<Seq<(nat, nat)>, Seq<char>> {
    match rest {
        Ok(steps) => Ok(done + steps),
        Err(line) => Err(line),
    }
}

/// The steps as the plan stores them.
pub open spec fn steps_view(steps: Seq<(usize, usize)>) -> Seq<(nat, nat)> {
    steps.map_values(|st: (usize, usize)| (st.0 as nat, st.1 as nat))
}

fn next_semicolon_exec(cs: &Vec<char>, start: usize) -> (j: usize)
    requires
        start <= cs@.len(),
    ensures
        j == next_semicolon(cs@, start as int),
        start <= j <= cs@.len(),
{
    let mut j = start;
    while j < cs.len() && cs[j] != ';'
        invariant
            start <= j <= cs@.len(),
            next_semicolon(cs@, start as int) == next_semicolon(cs@, j as int),
        decreases cs@.len() - j,
    {
        j = j + 1;
    }
    j
}

impl TestPlan {
    /// Convert `"users,timespan"` formatted test plans, with steps separated by
    /// `;`, into a test plan.
    ///
    /// Users are represented simply as an integer. Time span can be specified as
    /// an integer, indicating seconds. Or can use integers together with one or
    /// more of "h", "m", and "s", in that order, indicating "hours", "minutes", and
    /// "seconds"; it is stored in milliseconds. The first line that is not of this
    /// form is refused.
    pub fn from_str(s: &str) -> (r: Result<TestPlan, GooseError>)
        requires
            plan_text_ok(s@),
            plan_fits(plan_lines_from(s@, 0)),
        ensures
            match plan_steps(plan_lines_from(s@, 0)) {
                Ok(steps) => r matches Ok(plan) && steps_view(plan.steps@) == steps && plan.current == 0,
                Err(line) => r matches Err(GooseError::InvalidOption { option, value, detail })
                    && option@ == "`configuration.test_plan"@ && value@ == line
                    && detail@ == "invalid `configuration.test_plan` value."@,
            },
    {
        let cs = chars_of(s);
        let ghost all = plan_lines_from(cs@, 0);
        let mut steps: Vec<(usize, usize)> = Vec::new();
        let mut start: usize = 0;
        loop
            invariant_except_break
                plan_fits(plan_lines_from(cs@, start as int)),
                plan_steps(all) == after_steps(steps_view(steps@), plan_steps(plan_lines_from(cs@, start as int))),
            invariant
                cs@ == s@,
                all == plan_lines_from(cs@, 0),
                plan_text_ok(cs@),
                start <= cs@.len(),
            ensures
                match plan_steps(all) {
                    Ok(all_steps) => steps_view(steps@) == all_steps,
                    Err(_) => false,
                },
            decreases cs@.len() - start,
        {
            let j = next_semicolon_exec(&cs, start);
            let line = sub_chars(&cs, start, j);
            let ghost rest_lines = plan_lines_from(cs@, start as int);
            proof {
                assert(rest_lines[0] == line@);
                assert forall|i: int| 0 <= i < line@.len() implies (line@[i] as int) < 128 || is_space(#[trigger] line@[i]) by {
                    assert(line@[i] == cs@[start + i]);
                }
            }
            match parse_plan_line(&line) {
                None => {
                    proof {
                        assert(plan_steps(rest_lines) == Err::<Seq<(nat, nat)>, Seq<char>>(line@));
                    }
                    let value = string_from_chars(&line);
                    proof {
                        reveal_strlit("`configuration.test_plan");
                        reveal_strlit("invalid `configuration.test_plan` value.");
                    }
                    return Err(
                        GooseError::InvalidOption {
                            option: "`configuration.test_plan".to_string(),
                            value,
                            detail: "invalid `configuration.test_plan` value.".to_string(),
                        },
                    );
                },
                Some(step) => {
                    let ghost before = steps_view(steps@);
                    steps.push(step);
                    proof {
                        assert(steps_view(steps@) =~= before + seq![(step.0 as nat, step.1 as nat)]);
                    }
                    if j == cs.len() {
                        proof {
                            assert(rest_lines =~= seq![line@]);
                            assert(rest_lines.drop_first() =~= Seq::<Seq<char>>::empty());
                            assert(before + seq![(step.0 as nat, step.1 as nat)] + Seq::<(nat, nat)>::empty()
                                =~= steps_view(steps@));
                            assert(plan_steps(rest_lines.drop_first()) == Ok::<Seq<(nat, nat)>, Seq<char>>(Seq::empty()));
                            assert(plan_steps(rest_lines) == Ok::<Seq<(nat, nat)>, Seq<char>>(
                                seq![(step.0 as nat, step.1 as nat)] + Seq::empty(),
                            ));
                        }
                        break;
                    }
                    proof {
                        assert(rest_lines.drop_first() =~= plan_lines_from(cs@, j + 1));
                        match plan_steps(plan_lines_from(cs@, j + 1)) {
                            Ok(more) => {
                                assert(before + (seq![(step.0 as nat, step.1 as nat)] + more)
                                    =~= steps_view(steps@) + more);
                            },
                            Err(_) => {},
                        }
                    }
                    start = j + 1;
                },
            }
        }
        Ok(TestPlan { steps, current: 0 })
    }
}

/// The users a plan needs cover the users of its last step.
proof fn lemma_users_needed_last(steps: Seq<(usize, usize)>)
    requires
        steps.len() > 0,
    ensures
        users_needed(steps) >= steps.last().0,
        users_needed(steps) >= users_needed(steps.drop_last()),
    decreases steps.len(),
{
    if steps.len() >= 2 {
        lemma_users_needed_last(steps.drop_last());
        assert(steps.drop_last().last() == steps[steps.len() - 2]);
    }
}

/// Law: the total number of users a test plan needs covers the users of every
/// one of its steps.
pub proof fn lemma_total_users_cover_every_step(steps: Seq<(usize, usize)>, i: int)
    requires
        0 <= i < steps.len(),
    ensures
        steps[i].0 <= users_needed(steps),
    decreases steps.len(),
{
    lemma_users_needed_last(steps);
    if i < steps.len() - 1 {
        lemma_total_users_cover_every_step(steps.drop_last(), i);
        assert(steps.drop_last()[i] == steps[i]);
    }
}

/// The steps of a plan built from the configured users, startup and run time:
/// none without users; else the users start over the startup time (or over
/// `hatch_ms`, the time the hatch rate takes, when the startup time is "0"), and
/// when a run time other than "0" is set, they run that long and then stop at once.
pub open spec fn built_steps(users: Option<usize>, startup_time: Seq<char>, hatch_ms: usize, run_time: Seq<char>) -> Seq<(usize, usize)> {
    match users {
        None => Seq::empty(),
        Some(u) => {
            let start = if startup_time != "0"@ {
                seq![(u, (timespan_seconds(startup_time) * 1000) as usize)]
            } else {
                seq![(u, hatch_ms)]
            };
            if run_time != "0"@ {
                start + seq![(u, (timespan_seconds(run_time) * 1000) as usize), (0usize, 0usize)]
            } else {
                start
            }
        },
    }
}

/// A time span that is given is readable and fits in milliseconds.
pub open spec fn usable_timespan(s: Seq<char>) -> bool {
    s != "0"@ ==> valid_timespan(s) && timespan_seconds(s) * 1000 <= usize::MAX
}

/// Whether `s` is "0".
fn is_zero_text(s: &str) -> (b: bool)
    ensures
        b == (s@ == "0"@),
{
    proof {
        reveal_strlit("0");
    }
    let cs = chars_of(s);
    let b = cs.len() == 1 && cs[0] == '0';
    proof {
        if b {
            assert(s@ =~= "0"@);
        }
    }
    b
}

impl TestPlan {
    /// Build a test plan from the configuration: a configured plan is copied as it
    /// is; else the plan starts the configured users over the startup time (or
    /// `hatch_ms`, the milliseconds that the hatch rate takes to start them, when
    /// the startup time is "0"), and with a run time it keeps them that long and
    /// then stops.
    pub fn build(
        test_plan: Option<&TestPlan>,
        users: Option<usize>,
        startup_time: &str,
        hatch_ms: usize,
        run_time: &str,
    ) -> (plan: TestPlan)
        requires
            test_plan is None && users is Some ==> usable_timespan(startup_time@) && usable_timespan(run_time@),
        ensures
            plan.current == 0,
            plan.steps@ == match test_plan {
                Some(p) => p.steps@,
                None => built_steps(users, startup_time@, hatch_ms, run_time@),
            },
    {
        match test_plan {
            Some(p) => {
                let mut steps: Vec<(usize, usize)> = Vec::new();
                for i in 0..p.steps.len()
                    invariant
                        steps@ == p.steps@.take(i as int),
                {
                    steps.push(p.steps[i]);
                    proof {
                        assert(steps@ =~= p.steps@.take(i + 1));
                    }
                }
                proof {
                    assert(p.steps@.take(p.steps@.len() as int) =~= p.steps@);
                }
                TestPlan { steps, current: 0 }
            },
            None => {
                let mut steps: Vec<(usize, usize)> = Vec::new();
                match users {
                    Some(u) => {
                        if !is_zero_text(startup_time) {
                            let seconds = parse_timespan(startup_time);
                            steps.push((u, seconds * 1000));
                        } else {
                            steps.push((u, hatch_ms));
                        }
                        if !is_zero_text(run_time) {
                            let seconds = parse_timespan(run_time);
                            steps.push((u, seconds * 1000));
                            steps.push((0, 0));
                        }
                        proof {
                            assert(steps@ =~= built_steps(users, startup_time@, hatch_ms, run_time@));
                        }
                    },
                    None => {
                        proof {
                            assert(steps@ =~= built_steps(users, startup_time@, hatch_ms, run_time@));
                        }
                    },
                }
                TestPlan { steps, current: 0 }
            },
        }
    }
}

} // verus!

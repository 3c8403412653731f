//! The manager's share of a distributed load test: how users are divided among
//! workers, and how the metrics that workers send back are merged.

use vstd::prelude::*;

use crate::histogram::{merge_times, merged, mergeable};
use crate::status_codes::{codes_mergeable, merge_status_codes, merged_codes};
use crate::metrics::{
    opt_view, update_max_time, update_min_time, updated_max, updated_min,
    GooseErrorMetricAggregate, GooseRequestMetricAggregate, GooseRequestMetricTimingData,
    TransactionMetricAggregate, TransactionMetricView,
};

verus! {

/// Divide the users among the workers: each starts `users / workers` users, and
/// the first `users % workers` workers start one more.
pub fn distribute_users(users: usize, expect_workers: u16) -> (r: (usize, usize))
    requires
        expect_workers > 0,
    ensures
        r.0 == users as nat / expect_workers as nat,
        r.1 == users as nat % expect_workers as nat,
        r.0 * expect_workers + r.1 == users,
        r.1 < expect_workers,
{
    let users_per_worker = users / (expect_workers as usize);
    let users_remainder = users % (expect_workers as usize);
    proof {
        vstd::arithmetic::div_mod::lemma_fundamental_div_mod(users as int, expect_workers as int);
        assert(users_per_worker * expect_workers == expect_workers * users_per_worker) by (nonlinear_arith);
    }
    (users_per_worker, users_remainder)
}

/// Merging the transaction metrics `user` into `parent` fits: the histograms
/// merge and the totals, counters, successes and failures add up within a `usize`.
pub open spec fn transaction_merge_fits(parent: TransactionMetricView, user: TransactionMetricView) -> bool {
    &&& mergeable(parent.times, user.times)
    &&& parent.total_time + user.total_time <= usize::MAX
    &&& parent.counter + user.counter <= usize::MAX
    &&& parent.success_count + user.success_count <= usize::MAX
    &&& parent.fail_count + user.fail_count <= usize::MAX
}

/// The transaction metrics `parent` with `user` merged in: the names and indices
/// of `parent`, the histograms merged, the fastest and slowest times updated, and
/// the totals, counters, successes and failures added.
pub open spec fn transaction_merged(parent: TransactionMetricView, user: TransactionMetricView) -> TransactionMetricView {
    TransactionMetricView {
        scenario_index: parent.scenario_index,
        scenario_name: parent.scenario_name,
        transaction_index: parent.transaction_index,
        transaction_name: parent.transaction_name,
        times: merged(parent.times, user.times),
        min_time: updated_min(parent.min_time, user.min_time),
        max_time: updated_max(parent.max_time, user.max_time),
        total_time: (parent.total_time + user.total_time) as usize,
        counter: (parent.counter + user.counter) as usize,
        success_count: (parent.success_count + user.success_count) as usize,
        fail_count: (parent.fail_count + user.fail_count) as usize,
    }
}

/// Merge per-worker transaction metrics into the manager's: the times are merged,
/// totals and counters added, and the fastest and slowest times updated.
pub fn merge_transactions_from_worker(
    parent_transaction: &TransactionMetricAggregate,
    user_transaction: &TransactionMetricAggregate,
) -> (merged_transaction: TransactionMetricAggregate)
    requires
        transaction_merge_fits(parent_transaction@, user_transaction@),
    ensures
        merged_transaction@ == transaction_merged(parent_transaction@, user_transaction@),
{
    TransactionMetricAggregate {
        scenario_index: parent_transaction.scenario_index,
        scenario_name: parent_transaction.scenario_name.clone(),
        transaction_index: parent_transaction.transaction_index,
        transaction_name: parent_transaction.transaction_name.clone(),
        times: merge_times(parent_transaction.times.clone(), user_transaction.times.clone()),
        min_time: update_min_time(parent_transaction.min_time, user_transaction.min_time),
        max_time: update_max_time(parent_transaction.max_time, user_transaction.max_time),
        total_time: parent_transaction.total_time + user_transaction.total_time,
        counter: parent_transaction.counter + user_transaction.counter,
        success_count: parent_transaction.success_count + user_transaction.success_count,
        fail_count: parent_transaction.fail_count + user_transaction.fail_count,
    }
}

/// Merging `user_request` into `parent_request` fits: the raw histograms merge and
/// the totals, counters, successes and failures add up within a `usize`, and so do
/// the status codes when they are merged.
pub open spec fn request_merge_fits(
    parent_request: GooseRequestMetricAggregate,
    user_request: GooseRequestMetricAggregate,
    status_codes: bool,
) -> bool {
    &&& mergeable(parent_request.raw_data.times@, user_request.raw_data.times@)
    &&& parent_request.raw_data.total_time + user_request.raw_data.total_time <= usize::MAX
    &&& parent_request.raw_data.counter + user_request.raw_data.counter <= usize::MAX
    &&& parent_request.success_count + user_request.success_count <= usize::MAX
    &&& parent_request.fail_count + user_request.fail_count <= usize::MAX
    &&& status_codes ==> codes_mergeable(parent_request.status_code_counts@, user_request.status_code_counts@)
}

/// `merged_request` is `user_request` merged into `parent_request`: the raw times
/// merged, totals, counters, successes and failures added, the fastest and slowest
/// times updated, the status codes added when they are merged, the rest kept.
pub open spec fn request_merged(
    merged_request: GooseRequestMetricAggregate,
    parent_request: GooseRequestMetricAggregate,
    user_request: GooseRequestMetricAggregate,
    status_codes: bool,
) -> bool {
    &&& merged_request.path@ == parent_request.path@
    &&& merged_request.method == parent_request.method
    &&& merged_request.load_test_hash == parent_request.load_test_hash
    &&& merged_request.raw_data.times@ == merged(parent_request.raw_data.times@, user_request.raw_data.times@)
    &&& merged_request.raw_data.total_time == parent_request.raw_data.total_time + user_request.raw_data.total_time
    &&& merged_request.raw_data.counter == parent_request.raw_data.counter + user_request.raw_data.counter
    &&& merged_request.raw_data.minimum_time == updated_min(
        parent_request.raw_data.minimum_time,
        user_request.raw_data.minimum_time,
    )
    &&& merged_request.raw_data.maximum_time == updated_max(
        parent_request.raw_data.maximum_time,
        user_request.raw_data.maximum_time,
    )
    &&& opt_view(merged_request.coordinated_omission_data) == opt_view(parent_request.coordinated_omission_data)
    &&& merged_request.success_count == parent_request.success_count + user_request.success_count
    &&& merged_request.fail_count == parent_request.fail_count + user_request.fail_count
    &&& merged_request.status_code_counts@ == if status_codes {
        merged_codes(parent_request.status_code_counts@, user_request.status_code_counts@)
    } else {
        parent_request.status_code_counts@
    }
}

/// Merge per-worker request metrics into the manager's: the raw times are merged,
/// totals, counters and successes and failures added, the fastest and slowest times
/// updated, and the status codes added when they are displayed.
pub fn merge_requests_from_worker(
    parent_request: &GooseRequestMetricAggregate,
    user_request: &GooseRequestMetricAggregate,
    status_codes: bool,
) -> (merged_request: GooseRequestMetricAggregate)
    requires
        request_merge_fits(*parent_request, *user_request, status_codes),
    ensures
        request_merged(merged_request, *parent_request, *user_request, status_codes),
{
    let raw_data = GooseRequestMetricTimingData {
        times: merge_times(parent_request.raw_data.times.clone(), user_request.raw_data.times.clone()),
        minimum_time: update_min_time(parent_request.raw_data.minimum_time, user_request.raw_data.minimum_time),
        maximum_time: update_max_time(parent_request.raw_data.maximum_time, user_request.raw_data.maximum_time),
        total_time: parent_request.raw_data.total_time + user_request.raw_data.total_time,
        counter: parent_request.raw_data.counter + user_request.raw_data.counter,
    };
    let coordinated_omission_data = match &parent_request.coordinated_omission_data {
        Some(data) => Some(data.copy()),
        None => None,
    };
    let mut status_code_counts = parent_request.status_code_counts.clone();
    if status_codes {
        merge_status_codes(&mut status_code_counts, &user_request.status_code_counts);
    }
    GooseRequestMetricAggregate {
        path: parent_request.path.clone(),
        method: parent_request.method,
        raw_data,
        coordinated_omission_data,
        status_code_counts,
        success_count: parent_request.success_count + user_request.success_count,
        fail_count: parent_request.fail_count + user_request.fail_count,
        load_test_hash: parent_request.load_test_hash,
    }
}

/// `merged_error` is `worker_error` merged into `manager_error`: the occurrences
/// added and nothing else changed.
pub open spec fn error_merged(
    merged_error: GooseErrorMetricAggregate,
    manager_error: GooseErrorMetricAggregate,
    worker_error: GooseErrorMetricAggregate,
) -> bool {
    &&& merged_error.method == manager_error.method
    &&& merged_error.name@ == manager_error.name@
    &&& merged_error.error@ == manager_error.error@
    &&& merged_error.occurrences == manager_error.occurrences + worker_error.occurrences
}

/// Merge per-worker errors into the manager's: the occurrences are added and
/// nothing else changes.
pub fn merge_errors_from_worker(
    manager_error: &GooseErrorMetricAggregate,
    worker_error: &GooseErrorMetricAggregate,
) -> (merged_error: GooseErrorMetricAggregate)
    requires
        manager_error.occurrences + worker_error.occurrences <= usize::MAX,
    ensures
        error_merged(merged_error, *manager_error, *worker_error),
{
    GooseErrorMetricAggregate {
        method: manager_error.method,
        name: manager_error.name.clone(),
        error: manager_error.error.clone(),
        occurrences: manager_error.occurrences + worker_error.occurrences,
    }
}

/// Law: merging the timing data of two workers does not depend on which came
/// first: the histograms, totals and counters add up alike, and the fastest and
/// slowest times are the same.
pub proof fn lemma_merge_order_irrelevant(
    a_times: Map<usize, usize>,
    b_times: Map<usize, usize>,
    a_min: usize,
    b_min: usize,
    a_max: usize,
    b_max: usize,
)
    requires
        mergeable(a_times, b_times),
    ensures
        mergeable(b_times, a_times),
        merged(a_times, b_times) == merged(b_times, a_times),
        updated_min(a_min, b_min) == updated_min(b_min, a_min),
        updated_max(a_max, b_max) == updated_max(b_max, a_max),
{
    crate::histogram::lemma_merge_commutative(a_times, b_times);
}


/// What the manager keeps track of while workers connect and run the load test.
#[derive(Clone, Copy, Debug, PartialEq, Eq, Structural)]
pub struct ManagerState {
    /// How many workers the load test waits for.
    pub expect_workers: usize,
    /// How many workers have connected.
    pub workers: usize,
    /// How many users each worker runs.
    pub users_per_worker: usize,
    /// How many workers still run one user more than the others.
    pub users_remainder: usize,
    /// How many users are left to hand out to workers.
    pub available_users: usize,
    /// All expected workers have connected and the load test runs.
    pub load_test_running: bool,
    /// The load test is over and workers are told to exit.
    pub load_test_finished: bool,
}

/// A message that the manager received, as far as its decisions go.
#[derive(Clone, Copy, Debug, PartialEq, Eq, Structural)]
pub enum ManagerMessage {
    /// No message was waiting.
    Nothing,
    /// A message from a worker not seen before, holding `objects` metric objects,
    /// the last of which may be the worker's greeting, naming the same load test
    /// as the manager's or not.
    FromNewWorker { objects: usize, last_is_greeting: bool, same_load_test: bool },
    /// A message from a worker already connected.
    FromKnownWorker,
}

/// What the manager sees at one turn of its loop.
#[derive(Clone, Copy, Debug, PartialEq, Eq, Structural)]
pub struct ManagerObservation {
    /// How many workers are still connected.
    pub active_workers: usize,
    /// The run time of the load test has passed.
    pub run_time_over: bool,
    /// The load test was canceled.
    pub canceled: bool,
    /// The graceful shutdown time has passed since the load test finished.
    pub shutdown_over: bool,
    /// Running metrics are displayed and their interval has passed.
    pub running_metrics_due: bool,
    /// Differing load tests are accepted.
    pub no_hash_check: bool,
    /// The message received, if any.
    pub message: ManagerMessage,
}

/// A reply to the worker that sent a message.
#[derive(Clone, Copy, Debug, PartialEq, Eq, Structural)]
pub enum ManagerReply {
    /// The worker is to exit.
    Exit,
    /// The worker is to start this many users.
    Users(usize),
    /// The worker is to wait for the load test to start.
    Wait,
    /// The worker is to keep running.
    Run,
}

/// What the manager does at one turn of its loop, in this order: note the
/// duration, restart the shutdown timer, display running metrics, merge the
/// worker's metrics, send the replies (stopping when one cannot be sent), start
/// the load test; then stop, abort the process, or sleep before the next turn.
#[derive(Debug)]
pub struct ManagerStep {
    pub state: ManagerState,
    pub record_duration: bool,
    pub restart_shutdown_timer: bool,
    pub print_running_metrics: bool,
    pub merge_metrics: bool,
    pub replies: Vec<ManagerReply>,
    pub start_load_test: bool,
    pub stop: bool,
    pub abort: bool,
    pub sleep: bool,
}

/// A manager step as plain values.
pub struct ManagerOutcome {
    pub state: ManagerState,
    pub record_duration: bool,
    pub restart_shutdown_timer: bool,
    pub print_running_metrics: bool,
    pub merge_metrics: bool,
    pub replies: Seq<ManagerReply>,
    pub start_load_test: bool,
    pub stop: bool,
    pub abort: bool,
    pub sleep: bool,
}

impl View for ManagerStep {
    type V = ManagerOutcome;

    open spec fn view(&self) -> ManagerOutcome {
        ManagerOutcome {
            state: self.state,
            record_duration: self.record_duration,
            restart_shutdown_timer: self.restart_shutdown_timer,
            print_running_metrics: self.print_running_metrics,
            merge_metrics: self.merge_metrics,
            replies: self.replies@,
            start_load_test: self.start_load_test,
            stop: self.stop,
            abort: self.abort,
            sleep: self.sleep,
        }
    }
}

/// A turn that does nothing but possibly stop, abort or sleep.
pub open spec fn quiet_outcome(state: ManagerState, stop: bool, abort: bool, sleep: bool) -> ManagerOutcome {
    ManagerOutcome {
        state,
        record_duration: false,
        restart_shutdown_timer: false,
        print_running_metrics: false,
        merge_metrics: false,
        replies: Seq::empty(),
        start_load_test: false,
        stop,
        abort,
        sleep,
    }
}

/// The users a newly connected worker gets: its share, and one more while some
/// remain over.
pub open spec fn user_batch(s: ManagerState) -> nat {
    s.users_per_worker as nat + if s.users_remainder > 0 {
        1nat
    } else {
        0nat
    }
}

/// The state once one more worker connected and took its users.
pub open spec fn joined(s: ManagerState) -> ManagerState {
    let workers = s.workers + 1;
    ManagerState {
        workers: workers as usize,
        users_remainder: if s.users_remainder > 0 {
            (s.users_remainder - 1) as usize
        } else {
            0
        },
        available_users: (s.available_users - user_batch(s)) as usize,
        load_test_running: s.load_test_running || workers == s.expect_workers,
        ..s
    }
}

/// The state after `n` workers connected one after the other.
pub open spec fn joined_times(s: ManagerState, n: nat) -> ManagerState
    decreases n,
{
    if n == 0 {
        s
    } else {
        joined(joined_times(s, (n - 1) as nat))
    }
}

/// The state of a manager that waits for `expect_workers` workers to run `users`
/// users, before any connected.
pub open spec fn manager_start(users: usize, expect_workers: usize) -> ManagerState {
    ManagerState {
        expect_workers,
        workers: 0,
        users_per_worker: (users / expect_workers) as usize,
        users_remainder: (users % expect_workers) as usize,
        available_users: users,
        load_test_running: false,
        load_test_finished: false,
    }
}

/// Law: when every expected worker has connected, each took its share of the
/// users, the first ones one more while some remained over, so that every user
/// was handed out: none is left, and the load test runs.
pub proof fn lemma_all_users_handed_out(users: usize, expect_workers: usize)
    requires
        expect_workers > 0,
    ensures
        joined_times(manager_start(users, expect_workers), expect_workers as nat).available_users == 0,
        joined_times(manager_start(users, expect_workers), expect_workers as nat).workers == expect_workers,
        joined_times(manager_start(users, expect_workers), expect_workers as nat).load_test_running,
{
    let s0 = manager_start(users, expect_workers);
    let per = users / expect_workers;
    let rem = users % expect_workers;
    assert(per * expect_workers + rem == users) by (nonlinear_arith)
        requires
            per == users / expect_workers,
            rem == users % expect_workers,
            expect_workers > 0,
    ;
    lemma_joined_times(users, expect_workers, expect_workers as nat);
    assert(expect_workers * per == per * expect_workers) by (nonlinear_arith);
    assert(rem < expect_workers);
}

proof fn lemma_joined_times(users: usize, expect_workers: usize, k: nat)
    requires
        expect_workers > 0,
        k <= expect_workers,
        (users / expect_workers) * expect_workers + users % expect_workers == users,
    ensures
        ({
            let s = joined_times(manager_start(users, expect_workers), k);
            let per = users / expect_workers;
            let rem = users % expect_workers;
            &&& s.workers == k
            &&& s.expect_workers == expect_workers
            &&& s.users_per_worker == per
            &&& s.users_remainder == if k <= rem { rem - k } else { 0 }
            &&& s.available_users == users - k * per - (if k <= rem { k } else { rem as nat })
            &&& s.load_test_running == (k == expect_workers)
        }),
    decreases k,
{
    let per = users / expect_workers;
    let rem = users % expect_workers;
    assert(rem < expect_workers);
    if k > 0 {
        lemma_joined_times(users, expect_workers, (k - 1) as nat);
        assert((k - 1) * per + per == k * per) by (nonlinear_arith);
        assert(k * per <= expect_workers * per) by (nonlinear_arith)
            requires
                k <= expect_workers,
        ;
    }
}

/// The manager can handle the message of `o` without failing: a new worker it
/// accepts sends at least one object, a greeting from another load test is
/// accepted only without the hash check, and enough users are left for it.
pub open spec fn manager_can_step(s: ManagerState, o: ManagerObservation) -> bool {
    match o.message {
        ManagerMessage::FromNewWorker { objects, last_is_greeting, same_load_test } => s.workers
            >= s.expect_workers || {
            &&& objects > 0
            &&& last_is_greeting && !same_load_test ==> o.no_hash_check
            &&& user_batch(s) <= s.available_users
            &&& s.workers + 1 <= usize::MAX
        },
        _ => true,
    }
}

/// One turn of the manager's loop. First, while the load test is not finished,
/// a worker that went away stops a running test gracefully and ends one that has
/// not started. A running test then finishes when its run time passed or it was
/// canceled; a finished one stops once the graceful shutdown time passed; running
/// metrics are displayed when due. A test canceled before it started aborts.
/// Then the message: an extra worker is told to exit; a new worker is greeted
/// with its users (after being told to exit for each part of its message that is
/// not a single greeting), and the last expected one starts the test; a known
/// worker waits before the start, and afterwards its metrics are merged and it is
/// told to run or, once the test finished, to exit. With no message the manager
/// stops when every connected worker has gone, and otherwise sleeps until the
/// test is finished.
pub open spec fn manager_outcome(s: ManagerState, o: ManagerObservation) -> ManagerOutcome {
    if !s.load_test_finished && o.active_workers < s.workers && !s.load_test_running {
        quiet_outcome(s, true, false, false)
    } else {
        let lost = !s.load_test_finished && o.active_workers < s.workers;
        let finished_before = s.load_test_finished || lost;
        let time_up = s.load_test_running && !finished_before && (o.run_time_over || o.canceled);
        let finished = finished_before || time_up;
        let s1 = ManagerState { load_test_finished: finished, ..s };
        if s.load_test_running && s.load_test_finished && o.shutdown_over {
            quiet_outcome(s1, true, false, false)
        } else if !s.load_test_running && o.canceled {
            quiet_outcome(s1, false, true, false)
        } else {
            let print = s.load_test_running && o.running_metrics_due;
            let base = ManagerOutcome {
                state: s1,
                record_duration: time_up || print,
                restart_shutdown_timer: lost || time_up,
                print_running_metrics: print,
                merge_metrics: false,
                replies: Seq::empty(),
                start_load_test: false,
                stop: false,
                abort: false,
                sleep: false,
            };
            match o.message {
                ManagerMessage::Nothing => if s1.workers > 0 && o.active_workers == 0 {
                    ManagerOutcome { stop: true, ..base }
                } else {
                    ManagerOutcome { sleep: !s1.load_test_finished, ..base }
                },
                ManagerMessage::FromNewWorker { objects, last_is_greeting, same_load_test } => if s1.workers
                    >= s1.expect_workers {
                    ManagerOutcome { replies: seq![ManagerReply::Exit], ..base }
                } else {
                    let batch = user_batch(s1);
                    let workers = s1.workers + 1;
                    let s2 = joined(s1);
                    let invalid: Seq<ManagerReply> = if objects != 1 {
                        seq![ManagerReply::Exit]
                    } else {
                        Seq::empty()
                    };
                    let not_greeting: Seq<ManagerReply> = if !last_is_greeting {
                        seq![ManagerReply::Exit]
                    } else {
                        Seq::empty()
                    };
                    ManagerOutcome {
                        state: s2,
                        replies: invalid + not_greeting + seq![ManagerReply::Users(batch as usize)],
                        start_load_test: workers == s1.expect_workers,
                        ..base
                    }
                },
                ManagerMessage::FromKnownWorker => if !s1.load_test_running {
                    ManagerOutcome { replies: seq![ManagerReply::Wait], ..base }
                } else {
                    ManagerOutcome {
                        merge_metrics: true,
                        replies: seq![if s1.load_test_finished { ManagerReply::Exit } else { ManagerReply::Run }],
                        ..base
                    }
                },
            }
        }
    }
}

/// Law: a running load test that no worker has left finishes exactly when its run
/// time has passed or it was canceled (with Ctrl-C). Then the manager notes the
/// duration, starts the graceful shutdown timer and tells a worker that reports
/// in to exit, after merging its metrics. Otherwise the test keeps running, the
/// manager does not stop, and a reporting worker is told to run on.
pub proof fn lemma_running_test_stops_on_cancel_or_run_time(s: ManagerState, o: ManagerObservation)
    requires
        s.load_test_running,
        !s.load_test_finished,
        o.active_workers >= s.workers,
    ensures
        manager_outcome(s, o).state.load_test_finished == (o.canceled || o.run_time_over),
        o.canceled || o.run_time_over ==> {
            let out = manager_outcome(s, o);
            &&& out.record_duration
            &&& out.restart_shutdown_timer
            &&& !out.abort
            &&& o.message == ManagerMessage::FromKnownWorker ==> out.merge_metrics && out.replies
                == seq![ManagerReply::Exit]
        },
        !o.canceled && !o.run_time_over ==> {
            let out = manager_outcome(s, o);
            &&& !out.stop
            &&& o.message == ManagerMessage::FromKnownWorker ==> out.merge_metrics && out.replies
                == seq![ManagerReply::Run]
        },
{
}

/// Decide one turn of the manager's loop, as `manager_outcome` says.
pub fn manager_step(s: ManagerState, o: ManagerObservation) -> (r: ManagerStep)
    requires
        manager_can_step(s, o),
    ensures
        r@ == manager_outcome(s, o),
        s.load_test_running && !s.load_test_finished && o.active_workers >= s.workers && (o.canceled
            || o.run_time_over) ==> {
            &&& r.state.load_test_finished
            &&& r.record_duration
            &&& r.restart_shutdown_timer
            &&& !r.abort
            &&& o.message == ManagerMessage::FromKnownWorker ==> r.merge_metrics && r.replies@ == seq![
                ManagerReply::Exit,
            ]
        },
        s.load_test_running && !s.load_test_finished && o.active_workers >= s.workers && !o.canceled
            && !o.run_time_over ==> {
            &&& !r.state.load_test_finished
            &&& !r.stop
            &&& o.message == ManagerMessage::FromKnownWorker ==> r.merge_metrics && r.replies@ == seq![
                ManagerReply::Run,
            ]
        },
{
    proof {
        if s.load_test_running && !s.load_test_finished && o.active_workers >= s.workers {
            lemma_running_test_stops_on_cancel_or_run_time(s, o);
        }
    }
    if !s.load_test_finished && o.active_workers < s.workers && !s.load_test_running {
        return ManagerStep {
            state: s,
            record_duration: false,
            restart_shutdown_timer: false,
            print_running_metrics: false,
            merge_metrics: false,
            replies: Vec::new(),
            start_load_test: false,
            stop: true,
            abort: false,
            sleep: false,
        };
    }
    let lost = !s.load_test_finished && o.active_workers < s.workers;
    let finished_before = s.load_test_finished || lost;
    let time_up = s.load_test_running && !finished_before && (o.run_time_over || o.canceled);
    let finished = finished_before || time_up;
    let s1 = ManagerState { load_test_finished: finished, ..s };
    let mut step = ManagerStep {
        state: s1,
        record_duration: false,
        restart_shutdown_timer: false,
        print_running_metrics: false,
        merge_metrics: false,
        replies: Vec::new(),
        start_load_test: false,
        stop: false,
        abort: false,
        sleep: false,
    };
    if s.load_test_running && s.load_test_finished && o.shutdown_over {
        step.stop = true;
        return step;
    }
    if !s.load_test_running && o.canceled {
        step.abort = true;
        return step;
    }
    let print = s.load_test_running && o.running_metrics_due;
    step.record_duration = time_up || print;
    step.restart_shutdown_timer = lost || time_up;
    step.print_running_metrics = print;
    match o.message {
        ManagerMessage::Nothing => {
            if s1.workers > 0 && o.active_workers == 0 {
                step.stop = true;
            } else {
                step.sleep = !s1.load_test_finished;
            }
        },
        ManagerMessage::FromNewWorker { objects, last_is_greeting, same_load_test } => {
            if s1.workers >= s1.expect_workers {
                step.replies.push(ManagerReply::Exit);
            } else {
                if objects != 1 {
                    step.replies.push(ManagerReply::Exit);
                }
                if !last_is_greeting {
                    step.replies.push(ManagerReply::Exit);
                }
                let batch = if s1.users_remainder > 0 {
                    s1.users_per_worker + 1
                } else {
                    s1.users_per_worker
                };
                let workers = s1.workers + 1;
                step.replies.push(ManagerReply::Users(batch));
                step.state = ManagerState {
                    workers,
                    users_remainder: if s1.users_remainder > 0 {
                        s1.users_remainder - 1
                    } else {
                        0
                    },
                    available_users: s1.available_users - batch,
                    load_test_running: s1.load_test_running || workers == s1.expect_workers,
                    ..s1
                };
                step.start_load_test = workers == s1.expect_workers;
                proof {
                    let invalid: Seq<ManagerReply> = if objects != 1 {
                        seq![ManagerReply::Exit]
                    } else {
                        Seq::empty()
                    };
                    let not_greeting: Seq<ManagerReply> = if !last_is_greeting {
                        seq![ManagerReply::Exit]
                    } else {
                        Seq::empty()
                    };
                    assert(step.replies@ =~= invalid + not_greeting + seq![ManagerReply::Users(batch)]);
                }
            }
        },
        ManagerMessage::FromKnownWorker => {
            if !s1.load_test_running {
                step.replies.push(ManagerReply::Wait);
            } else {
                step.merge_metrics = true;
                step.replies.push(if s1.load_test_finished { ManagerReply::Exit } else { ManagerReply::Run });
            }
        },
    }
    proof {
        assert(step.replies@.len() <= 3);
    }
    step
}

} // verus!

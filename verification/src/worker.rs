//! The worker's share of a distributed load test: how it connects to the manager,
//! waits for its users and for the signal to start.

use vstd::prelude::*;

verus! {

/// The most times a worker dials the manager again after failing to reach it.
pub const MAX_DIAL_RETRIES: usize = 5;

/// Where a worker stands in connecting to the manager.
#[derive(Clone, Copy, Debug, PartialEq, Eq, Structural)]
pub enum WorkerState {
    /// Dialing the manager, after `retries` failed attempts.
    Dialing { retries: usize },
    /// Connected and greeted the manager; waiting for its users.
    AwaitingUsers,
    /// Holding its users, as worker `worker_id`; waiting for the load test to start.
    Waiting { worker_id: usize },
    /// Running the load test.
    Running { worker_id: usize },
    /// Done: exited or gave up.
    Stopped,
}

/// A command of the manager.
#[derive(Clone, Copy, Debug, PartialEq, Eq, Structural)]
pub enum ManagerCommand {
    Wait,
    Run,
    Exit,
}

/// What happened to the worker.
#[derive(Clone, Copy, Debug, PartialEq, Eq, Structural)]
pub enum WorkerEvent {
    /// Dialing the manager failed.
    DialFailed,
    /// Dialing the manager succeeded.
    Dialed,
    /// The manager sent users; the first of them names the worker's id.
    UsersReceived { first_worker_id: usize },
    /// The manager sent a command.
    Command(ManagerCommand),
}

/// What the worker does next.
#[derive(Clone, Copy, Debug, PartialEq, Eq, Structural)]
pub enum WorkerAction {
    /// Wait half a second, then dial again.
    RetryDial,
    /// The manager cannot be reached: give up.
    GiveUp,
    /// Greet the manager and wait for its reply.
    Greet,
    /// Sleep a second, then greet the manager again.
    SleepAndGreet,
    /// The manager sent a command where users were expected: fail.
    UnexpectedCommand,
    /// Start the load test.
    StartLoadTest,
    /// Exit, as the manager asked.
    Exit,
    /// Nothing to do.
    Nothing,
}

/// A worker's next state and action. A failed dial is retried after half a second
/// until it has failed five times more; then the worker gives up. Once connected it
/// greets the manager and waits for its users, taking its id from the first of them;
/// a command in their place is a failure. Holding its users, it greets the manager
/// until told to run, which starts the load test, or to exit; any other command
/// makes it sleep a second and greet again.
pub open spec fn worker_next(s: WorkerState, e: WorkerEvent) -> (WorkerState, WorkerAction) {
    match (s, e) {
        (WorkerState::Dialing { retries }, WorkerEvent::DialFailed) => if retries >= MAX_DIAL_RETRIES {
            (WorkerState::Stopped, WorkerAction::GiveUp)
        } else {
            (WorkerState::Dialing { retries: (retries + 1) as usize }, WorkerAction::RetryDial)
        },
        (WorkerState::Dialing { .. }, WorkerEvent::Dialed) => (WorkerState::AwaitingUsers, WorkerAction::Greet),
        (WorkerState::AwaitingUsers, WorkerEvent::UsersReceived { first_worker_id }) => (
            WorkerState::Waiting { worker_id: first_worker_id },
            WorkerAction::Greet,
        ),
        (WorkerState::AwaitingUsers, WorkerEvent::Command(_)) => (WorkerState::Stopped, WorkerAction::UnexpectedCommand),
        (WorkerState::Waiting { worker_id }, WorkerEvent::Command(c)) => match c {
            ManagerCommand::Run => (WorkerState::Running { worker_id }, WorkerAction::StartLoadTest),
            ManagerCommand::Exit => (WorkerState::Stopped, WorkerAction::Exit),
            ManagerCommand::Wait => (s, WorkerAction::SleepAndGreet),
        },
        _ => (s, WorkerAction::Nothing),
    }
}

/// Decide a worker's next state and action, as `worker_next` says.
pub fn worker_step(s: WorkerState, e: WorkerEvent) -> (r: (WorkerState, WorkerAction))
    ensures
        r == worker_next(s, e),
{
    match (s, e) {
        (WorkerState::Dialing { retries }, WorkerEvent::DialFailed) => if retries >= MAX_DIAL_RETRIES {
            (WorkerState::Stopped, WorkerAction::GiveUp)
        } else {
            (WorkerState::Dialing { retries: retries + 1 }, WorkerAction::RetryDial)
        },
        (WorkerState::Dialing { .. }, WorkerEvent::Dialed) => (WorkerState::AwaitingUsers, WorkerAction::Greet),
        (WorkerState::AwaitingUsers, WorkerEvent::UsersReceived { first_worker_id }) => (
            WorkerState::Waiting { worker_id: first_worker_id },
            WorkerAction::Greet,
        ),
        (WorkerState::AwaitingUsers, WorkerEvent::Command(_)) => (WorkerState::Stopped, WorkerAction::UnexpectedCommand),
        (WorkerState::Waiting { worker_id }, WorkerEvent::Command(c)) => match c {
            ManagerCommand::Run => (WorkerState::Running { worker_id }, WorkerAction::StartLoadTest),
            ManagerCommand::Exit => (WorkerState::Stopped, WorkerAction::Exit),
            ManagerCommand::Wait => (s, WorkerAction::SleepAndGreet),
        },
        _ => (s, WorkerAction::Nothing),
    }
}

/// The state after `n` failed dials from a fresh start, with the action of the last.
pub open spec fn after_failed_dials(n: nat) -> (WorkerState, WorkerAction)
    decreases n,
{
    if n == 0 {
        (WorkerState::Dialing { retries: 0 }, WorkerAction::Nothing)
    } else {
        worker_next(after_failed_dials((n - 1) as nat).0, WorkerEvent::DialFailed)
    }
}

/// Law: a worker that cannot reach the manager retries five times, and gives up
/// at the sixth failed dial, not before.
pub proof fn lemma_gives_up_after_five_retries(n: nat)
    requires
        1 <= n <= MAX_DIAL_RETRIES + 1,
    ensures
        n <= MAX_DIAL_RETRIES ==> after_failed_dials(n) == (WorkerState::Dialing { retries: n as usize }, WorkerAction::RetryDial),
        n == MAX_DIAL_RETRIES + 1 ==> after_failed_dials(n) == (WorkerState::Stopped, WorkerAction::GiveUp),
    decreases n,
{
    if n > 1 {
        lemma_gives_up_after_five_retries((n - 1) as nat);
    } else {
        assert(after_failed_dials(0).0 == WorkerState::Dialing { retries: 0 });
    }
}

} // verus!

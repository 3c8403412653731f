use goose::worker::{worker_step, ManagerCommand, WorkerAction, WorkerEvent, WorkerState};

#[test]
fn worker_retries_five_times_then_gives_up() {
    let mut state = WorkerState::Dialing { retries: 0 };
    for attempt in 1..=5 {
        let (next, action) = worker_step(state, WorkerEvent::DialFailed);
        assert_eq!(action, WorkerAction::RetryDial);
        assert_eq!(next, WorkerState::Dialing { retries: attempt });
        state = next;
    }
    assert_eq!(worker_step(state, WorkerEvent::DialFailed), (WorkerState::Stopped, WorkerAction::GiveUp));
}

#[test]
fn worker_waits_for_run_then_starts() {
    let (connected, greet) = worker_step(WorkerState::Dialing { retries: 2 }, WorkerEvent::Dialed);
    assert_eq!((connected, greet), (WorkerState::AwaitingUsers, WorkerAction::Greet));
    let (waiting, _) = worker_step(connected, WorkerEvent::UsersReceived { first_worker_id: 3 });
    assert_eq!(waiting, WorkerState::Waiting { worker_id: 3 });
    assert_eq!(
        worker_step(waiting, WorkerEvent::Command(ManagerCommand::Wait)),
        (waiting, WorkerAction::SleepAndGreet)
    );
    assert_eq!(
        worker_step(waiting, WorkerEvent::Command(ManagerCommand::Run)),
        (WorkerState::Running { worker_id: 3 }, WorkerAction::StartLoadTest)
    );
    assert_eq!(
        worker_step(waiting, WorkerEvent::Command(ManagerCommand::Exit)),
        (WorkerState::Stopped, WorkerAction::Exit)
    );
    assert_eq!(
        worker_step(connected, WorkerEvent::Command(ManagerCommand::Exit)),
        (WorkerState::Stopped, WorkerAction::UnexpectedCommand)
    );
}

use mint_client::events::watchdog_notice;
use mint_client::{Event, ManagerError, Notice, StateNotice, Step, ThreadedManager, WorkerExit};

fn text(line: &str, which: usize) -> Event {
    Event::ServerText { line: line.to_string(), which }
}

#[test]
fn no_sources_would_block_forever() {
    let mut m: ThreadedManager<()> = ThreadedManager::new();
    assert_eq!(m.next_event(), Step::Fail(ManagerError::NothingToWaitFor));
    assert_eq!(m.next_event(), Step::Fail(ManagerError::NothingToWaitFor));
    assert_eq!(
        ManagerError::NothingToWaitFor.message(),
        "No threads are running; would block forever"
    );
}

#[test]
fn sources_get_consecutive_ids() {
    let mut m: ThreadedManager<&str> = ThreadedManager::new();
    assert_eq!(m.start_source("tcp"), 0);
    assert_eq!(m.start_source("ui"), 1);
    assert_eq!(m.source_count(), 2);
    assert_eq!(*m.source(1), "ui");
    *m.source_mut(0) = "net";
    assert_eq!(*m.source(0), "net");
}

#[test]
fn empty_queue_with_sources_waits_for_a_notice() {
    let mut m: ThreadedManager<()> = ThreadedManager::new();
    m.start_source(());
    assert_eq!(m.next_event(), Step::AwaitNotice);
}

#[test]
fn events_keep_per_source_order_across_interleaved_notices() {
    let mut m: ThreadedManager<()> = ThreadedManager::new();
    m.start_source(());
    m.start_source(());
    m.handle_notice(0, Notice::Processed(vec![text("a1", 1), text("a2", 1)]));
    m.handle_notice(1, Notice::Processed(vec![Event::QuitRequest]));
    assert_eq!(m.next_event(), Step::Deliver(text("a1", 1)));
    m.handle_notice(0, Notice::Processed(vec![text("a3", 1)]));
    assert_eq!(m.next_event(), Step::Deliver(text("a2", 1)));
    assert_eq!(m.next_event(), Step::Deliver(Event::QuitRequest));
    assert_eq!(m.next_event(), Step::Deliver(text("a3", 1)));
    assert_eq!(m.next_event(), Step::AwaitNotice);
}

#[test]
fn fatal_notice_comes_after_earlier_events_and_is_terminal() {
    let mut m: ThreadedManager<()> = ThreadedManager::new();
    m.start_source(());
    m.start_source(());
    m.handle_notice(0, Notice::Processed(vec![text("x", 3), text("y", 3)]));
    m.handle_notice(1, Notice::Fatal("worker died".to_string()));
    // Ignored: the manager is poisoned.
    m.handle_notice(0, Notice::Processed(vec![text("late", 3)]));
    assert!(m.is_poisoned());
    assert_eq!(m.next_event(), Step::Deliver(text("x", 3)));
    assert_eq!(m.next_event(), Step::Deliver(text("y", 3)));
    assert_eq!(
        m.next_event(),
        Step::Deliver(Event::InternalError { what: "worker died".to_string() })
    );
    assert_eq!(m.next_event(), Step::Fail(ManagerError::AlreadyFailed));
    assert_eq!(m.next_event(), Step::Fail(ManagerError::AlreadyFailed));
    m.start_source(());
    assert_eq!(m.next_event(), Step::Fail(ManagerError::AlreadyFailed));
    assert_eq!(ManagerError::AlreadyFailed.message(), "A fatal error has already occurred");
}

#[test]
fn watchdog_reports_every_worker_exit() {
    assert_eq!(
        watchdog_notice(WorkerExit::Returned),
        StateNotice::Error("A thread that should run forever returned!".to_string())
    );
    assert_eq!(
        watchdog_notice(WorkerExit::Panicked),
        StateNotice::Error("A thread that should not have died died!".to_string())
    );
}

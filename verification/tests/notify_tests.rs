use rfidx::file_index::{FileIndex, IndexError, WalkItem};
use rfidx::notify::{
    update_from_event, EventOutcome, FileStatus, TerminationReason, WatchAction, WatchAdapter,
    WatchEvent, WatchInput, WatcherState,
};
use rfidx::path::{absolute_form, PathError};

fn strings(parts: &[&str]) -> Vec<String> {
    parts.iter().map(|p| p.to_string()).collect()
}

fn sorted(mut paths: Vec<String>) -> Vec<String> {
    paths.sort();
    paths
}

fn scan(root: &str, items: &Vec<WalkItem>) -> Result<(FileIndex, usize), IndexError> {
    FileIndex::from_path(&absolute_form(root), items)
}

fn scanned_tree() -> FileIndex {
    let items = vec![
        WalkItem::Entry { resolved: absolute_form("/srv/root/a.txt"), is_file: true },
        WalkItem::Entry { resolved: absolute_form("/srv/root/sub/b.txt"), is_file: true },
        WalkItem::Entry { resolved: absolute_form("/srv/root/sub/empty"), is_file: false },
    ];
    scan("/srv/root", &items).unwrap().0
}

fn created(path: &str, status: FileStatus) -> WatchEvent {
    WatchEvent::Created { resolved: absolute_form(path), status }
}

fn removed(path: &str) -> WatchEvent {
    WatchEvent::Removed { resolved: absolute_form(path) }
}

fn running() -> WatchAdapter {
    let mut adapter = WatchAdapter::new();
    let mut index = scanned_tree();
    assert_eq!(adapter.step(&mut index, &WatchInput::InitSucceeded), WatchAction::Started);
    adapter
}

#[test]
fn created_regular_file_is_inserted_and_removed_file_leaves() {
    let mut index = scanned_tree();
    let event = created("/srv/root/sub/c.txt", FileStatus::RegularFile);
    let outcome = update_from_event(&mut index, &event);
    assert_eq!(outcome, EventOutcome::Inserted);
    assert_eq!(sorted(index.snapshot()), strings(&["a.txt", "sub/b.txt", "sub/c.txt"]));
    let outcome = update_from_event(&mut index, &removed("/srv/root/a.txt"));
    assert_eq!(outcome, EventOutcome::Removed);
    assert_eq!(sorted(index.snapshot()), strings(&["sub/b.txt", "sub/c.txt"]));
}

#[test]
fn created_path_that_is_no_regular_file_is_skipped() {
    let mut index = scanned_tree();
    for status in [FileStatus::OtherKind, FileStatus::NotFound, FileStatus::IoError] {
        let outcome = update_from_event(&mut index, &created("/srv/root/new", status));
        assert_eq!(outcome, EventOutcome::Skipped(status));
    }
    assert_eq!(sorted(index.snapshot()), strings(&["a.txt", "sub/b.txt"]));
}

#[test]
fn created_then_removed_before_the_check_leaves_no_entry() {
    let mut index = scan("/srv/root", &Vec::new()).unwrap().0;
    let first = update_from_event(&mut index, &created("/srv/root/a.txt", FileStatus::NotFound));
    let second = update_from_event(&mut index, &removed("/srv/root/a.txt"));
    assert_eq!(first, EventOutcome::Skipped(FileStatus::NotFound));
    assert_eq!(second, EventOutcome::Removed);
    assert!(!index.contains("a.txt"));
    assert_eq!(index.len(), 0);
}

#[test]
fn created_then_removed_after_the_check_leaves_no_entry() {
    let mut index = scan("/srv/root", &Vec::new()).unwrap().0;
    update_from_event(&mut index, &created("/srv/root/a.txt", FileStatus::RegularFile));
    assert!(index.contains("a.txt"));
    update_from_event(&mut index, &removed("/srv/root/a.txt"));
    assert!(!index.contains("a.txt"));
}

#[test]
fn other_events_are_ignored() {
    let mut index = scanned_tree();
    assert_eq!(update_from_event(&mut index, &WatchEvent::Other), EventOutcome::Ignored);
    assert_eq!(sorted(index.snapshot()), strings(&["a.txt", "sub/b.txt"]));
}

#[test]
fn events_outside_the_root_are_rejected() {
    let mut index = scanned_tree();
    assert_eq!(
        update_from_event(&mut index, &created("/srv/outside.txt", FileStatus::RegularFile)),
        EventOutcome::Rejected(PathError::PathOutsideRoot)
    );
    assert_eq!(
        update_from_event(&mut index, &removed("/srv/root/../a.txt")),
        EventOutcome::Rejected(PathError::PathOutsideRoot)
    );
    assert_eq!(sorted(index.snapshot()), strings(&["a.txt", "sub/b.txt"]));
}

#[test]
fn update_from_event_reports_a_failed_resolution() {
    let mut index = scanned_tree();
    let created = WatchEvent::Created {
        resolved: Err(PathError::ResolutionError),
        status: FileStatus::RegularFile,
    };
    let removed = WatchEvent::Removed { resolved: Err(PathError::ResolutionError) };
    assert_eq!(
        update_from_event(&mut index, &created),
        EventOutcome::Rejected(PathError::ResolutionError)
    );
    assert_eq!(
        update_from_event(&mut index, &removed),
        EventOutcome::Rejected(PathError::ResolutionError)
    );
    assert_eq!(sorted(index.snapshot()), strings(&["a.txt", "sub/b.txt"]));
}

#[test]
fn update_from_event_rejects_a_path_that_a_link_leads_out_of_the_root() {
    let mut index = scanned_tree();
    let created = WatchEvent::Created {
        resolved: Ok("/elsewhere/target/x.txt".to_string()),
        status: FileStatus::RegularFile,
    };
    assert_eq!(
        update_from_event(&mut index, &created),
        EventOutcome::Rejected(PathError::PathOutsideRoot)
    );
    assert_eq!(sorted(index.snapshot()), strings(&["a.txt", "sub/b.txt"]));
}

#[test]
fn update_from_event_goes_by_the_resolution_it_is_given() {
    let mut index = scanned_tree();
    let created = WatchEvent::Created {
        resolved: Ok("/srv/root/sub/c.txt".to_string()),
        status: FileStatus::RegularFile,
    };
    let removed = WatchEvent::Removed { resolved: Ok("/srv/root/sub/c.txt".to_string()) };
    assert_eq!(update_from_event(&mut index, &created), EventOutcome::Inserted);
    assert!(index.contains("sub/c.txt"));
    assert_eq!(update_from_event(&mut index, &removed), EventOutcome::Removed);
    assert!(!index.contains("sub/c.txt"));
}

#[test]
fn adapter_starts_out_initializing() {
    assert_eq!(WatchAdapter::new().state(), WatcherState::Initializing);
}

#[test]
fn adapter_runs_once_the_subscription_stands() {
    assert_eq!(running().state(), WatcherState::Running);
}

#[test]
fn failed_subscription_terminates_and_raises_the_signal() {
    let mut adapter = WatchAdapter::new();
    let mut index = scanned_tree();
    assert_eq!(
        adapter.step(&mut index, &WatchInput::InitFailed),
        WatchAction::RaiseFailure(TerminationReason::InitFailed)
    );
    assert_eq!(adapter.state(), WatcherState::Terminated(TerminationReason::InitFailed));
    assert_eq!(adapter.step(&mut index, &WatchInput::InitSucceeded), WatchAction::Stopped);
    assert_eq!(adapter.state(), WatcherState::Terminated(TerminationReason::InitFailed));
}

#[test]
fn events_before_the_subscription_stands_change_nothing() {
    let mut adapter = WatchAdapter::new();
    let mut index = scanned_tree();
    let input = WatchInput::Event(removed("/srv/root/a.txt"));
    assert_eq!(adapter.step(&mut index, &input), WatchAction::Unexpected);
    assert_eq!(adapter.state(), WatcherState::Initializing);
    assert!(index.contains("a.txt"));
}

#[test]
fn running_adapter_applies_events() {
    let mut adapter = running();
    let mut index = scanned_tree();
    let input = WatchInput::Event(created("/srv/root/sub/c.txt", FileStatus::RegularFile));
    assert_eq!(adapter.step(&mut index, &input), WatchAction::Applied(EventOutcome::Inserted));
    let input = WatchInput::Event(removed("/srv/root/a.txt"));
    assert_eq!(adapter.step(&mut index, &input), WatchAction::Applied(EventOutcome::Removed));
    let input = WatchInput::Event(WatchEvent::Other);
    assert_eq!(adapter.step(&mut index, &input), WatchAction::Applied(EventOutcome::Ignored));
    assert_eq!(adapter.state(), WatcherState::Running);
    assert_eq!(sorted(index.snapshot()), strings(&["sub/b.txt", "sub/c.txt"]));
}

#[test]
fn running_adapter_takes_no_second_subscription_outcome() {
    let mut adapter = running();
    let mut index = scanned_tree();
    assert_eq!(adapter.step(&mut index, &WatchInput::InitSucceeded), WatchAction::Unexpected);
    assert_eq!(adapter.step(&mut index, &WatchInput::InitFailed), WatchAction::Unexpected);
    assert_eq!(adapter.state(), WatcherState::Running);
}

#[test]
fn closed_channel_raises_the_signal_once_and_ends_updates() {
    let mut adapter = running();
    let mut index = scanned_tree();
    let mut signals = 0;
    let inputs = vec![
        WatchInput::Event(created("/srv/root/c.txt", FileStatus::RegularFile)),
        WatchInput::ChannelClosed,
        WatchInput::Event(created("/srv/root/d.txt", FileStatus::RegularFile)),
        WatchInput::Event(removed("/srv/root/a.txt")),
        WatchInput::ChannelClosed,
        WatchInput::ChannelError,
        WatchInput::InitFailed,
    ];
    let mut actions = Vec::new();
    for input in &inputs {
        let action = adapter.step(&mut index, input);
        if matches!(action, WatchAction::RaiseFailure(_)) {
            signals += 1;
        }
        actions.push(action);
    }
    assert_eq!(signals, 1);
    assert_eq!(actions[0], WatchAction::Applied(EventOutcome::Inserted));
    assert_eq!(actions[1], WatchAction::RaiseFailure(TerminationReason::ChannelClosed));
    assert!(actions[2..].iter().all(|a| *a == WatchAction::Stopped));
    assert_eq!(adapter.state(), WatcherState::Terminated(TerminationReason::ChannelClosed));
    assert_eq!(sorted(index.snapshot()), strings(&["a.txt", "c.txt", "sub/b.txt"]));
}

#[test]
fn channel_error_terminates_with_its_own_reason() {
    let mut adapter = running();
    let mut index = scanned_tree();
    assert_eq!(
        adapter.step(&mut index, &WatchInput::ChannelError),
        WatchAction::RaiseFailure(TerminationReason::ChannelError)
    );
    assert_eq!(adapter.state(), WatcherState::Terminated(TerminationReason::ChannelError));
}

#[test]
fn channel_closed_while_initializing_terminates() {
    let mut adapter = WatchAdapter::new();
    let mut index = scanned_tree();
    assert_eq!(
        adapter.step(&mut index, &WatchInput::ChannelClosed),
        WatchAction::RaiseFailure(TerminationReason::ChannelClosed)
    );
    assert_eq!(adapter.state(), WatcherState::Terminated(TerminationReason::ChannelClosed));
}

#[test]
fn step_goes_by_the_resolution_it_is_given() {
    let mut adapter = running();
    let mut index = scanned_tree();
    let failed = WatchInput::Event(WatchEvent::Created {
        resolved: Err(PathError::ResolutionError),
        status: FileStatus::RegularFile,
    });
    let found = WatchInput::Event(WatchEvent::Created {
        resolved: Ok("/srv/root/c.txt".to_string()),
        status: FileStatus::RegularFile,
    });
    assert_eq!(
        adapter.step(&mut index, &failed),
        WatchAction::Applied(EventOutcome::Rejected(PathError::ResolutionError))
    );
    assert_eq!(adapter.step(&mut index, &found), WatchAction::Applied(EventOutcome::Inserted));
    assert!(index.contains("c.txt"));
}

#[test]
fn events_with_relative_paths_are_taken_from_the_working_directory() {
    let here = absolute_form(".").unwrap();
    let items = vec![
        WalkItem::Entry { resolved: Ok(format!("{}/a.txt", here)), is_file: true },
        WalkItem::Entry { resolved: Ok(format!("{}/sub/b.txt", here)), is_file: true },
        WalkItem::Entry { resolved: Ok(format!("{}/sub/empty", here)), is_file: false },
    ];
    let (mut index, count) = scan(".", &items).unwrap();
    assert_eq!(count, 2);
    update_from_event(&mut index, &created("sub/c.txt", FileStatus::RegularFile));
    assert_eq!(sorted(index.snapshot()), strings(&["a.txt", "sub/b.txt", "sub/c.txt"]));
    update_from_event(&mut index, &removed("./a.txt"));
    assert_eq!(sorted(index.snapshot()), strings(&["sub/b.txt", "sub/c.txt"]));
}

//! The watch adapter: how filesystem events change the index, and when watching ends.
//!
//! The adapter is a state machine that is fed one input at a time: the outcome of
//! subscribing to changes, then events, and at last the condition that ended the
//! stream. With an event comes what resolution on disk made of its path, and for a
//! created path what a metadata check found there. Whoever feeds the adapter
//! performs what it answers: on `RaiseFailure` the failure signal is to be fired,
//! and nothing more is to be fed.
use crate::file_index::{inserted, removed, FileIndex};
use crate::path::{normalized, text_of, PathError};
use vstd::prelude::*;

verus! {

/// The seconds within which the event source merges repeated events for one path.
pub const DEBOUNCE_SECONDS: u64 = 1;

/// What a metadata check found at a path.
#[derive(Clone, Copy, Debug, PartialEq, Eq, Structural)]
pub enum FileStatus {
    /// A regular file.
    RegularFile,
    /// Something that is no regular file.
    OtherKind,
    /// Nothing.
    NotFound,
    /// The check itself failed.
    IoError,
}

/// A change that the event source reports.
#[derive(Debug)]
pub enum WatchEvent {
    /// Something appeared at a path: `resolved` is what resolution made of the path,
    /// and `status` what a metadata check found there, once the event was taken up.
    Created { resolved: Result<String, PathError>, status: FileStatus },
    /// What was at a path is gone: `resolved` is what resolution made of the path.
    Removed { resolved: Result<String, PathError> },
    /// Any other change; it does not concern the index.
    Other,
}

/// What became of an event.
#[derive(Clone, Copy, Debug, PartialEq, Eq, Structural)]
pub enum EventOutcome {
    /// The created file is in the index now.
    Inserted,
    /// The removed path is not in the index now.
    Removed,
    /// The event did not concern the index.
    Ignored,
    /// The created path was not a regular file when it was checked; nothing was
    /// inserted.
    Skipped(FileStatus),
    /// The path could not be normalized; the index is as it was.
    Rejected(PathError),
}

/// Why watching ended.
#[derive(Clone, Copy, Debug, PartialEq, Eq, Structural)]
pub enum TerminationReason {
    /// The subscription could not be established.
    InitFailed,
    /// The event channel was closed.
    ChannelClosed,
    /// Receiving from the event channel failed.
    ChannelError,
}

/// The state of the adapter.
#[derive(Clone, Copy, Debug, PartialEq, Eq, Structural)]
pub enum WatcherState {
    /// The subscription is being established.
    Initializing,
    /// Events are consumed.
    Running,
    /// Watching has ended, for good.
    Terminated(TerminationReason),
}

/// One input to the adapter.
#[derive(Debug)]
pub enum WatchInput {
    /// The subscription was established.
    InitSucceeded,
    /// The subscription could not be established.
    InitFailed,
    /// The event source delivered an event.
    Event(WatchEvent),
    /// The event channel was closed.
    ChannelClosed,
    /// Receiving from the event channel failed.
    ChannelError,
}

/// What the adapter did with an input, and what is to be done on its behalf.
#[derive(Clone, Copy, Debug, PartialEq, Eq, Structural)]
pub enum WatchAction {
    /// Watching has begun.
    Started,
    /// The event was applied to the index, with this outcome.
    Applied(EventOutcome),
    /// The input has no meaning in the adapter's state; nothing was done.
    Unexpected,
    /// Watching has just ended: the failure signal is to be fired.
    RaiseFailure(TerminationReason),
    /// Watching had ended before; nothing was done.
    Stopped,
}

/// The set after `event`. A created path enters only if the check found a regular
/// file there; a removed path leaves whether or not anything is there.
pub open spec fn event_effect(entries: Set<Seq<char>>, root: Seq<char>, event: WatchEvent) -> Set<
    Seq<char>,
> {
    match event {
        WatchEvent::Created { resolved, status } => if status == FileStatus::RegularFile {
            inserted(entries, root, text_of(resolved))
        } else {
            entries
        },
        WatchEvent::Removed { resolved } => removed(entries, root, text_of(resolved)),
        WatchEvent::Other => entries,
    }
}

/// What is reported of `event`.
pub open spec fn event_outcome(root: Seq<char>, event: WatchEvent) -> EventOutcome {
    match event {
        WatchEvent::Created { resolved, status } => if status == FileStatus::RegularFile {
            match normalized(root, text_of(resolved)) {
                Ok(_) => EventOutcome::Inserted,
                Err(e) => EventOutcome::Rejected(e),
            }
        } else {
            EventOutcome::Skipped(status)
        },
        WatchEvent::Removed { resolved } => match normalized(root, text_of(resolved)) {
            Ok(_) => EventOutcome::Removed,
            Err(e) => EventOutcome::Rejected(e),
        },
        WatchEvent::Other => EventOutcome::Ignored,
    }
}

/// The state that follows `state` on `input`. The outcome of the subscription counts
/// while initializing, the end of the channel until watching has ended, and nothing
/// after that.
pub open spec fn next_state(state: WatcherState, input: WatchInput) -> WatcherState {
    match state {
        WatcherState::Terminated(_) => state,
        _ => match input {
            WatchInput::ChannelClosed => WatcherState::Terminated(TerminationReason::ChannelClosed),
            WatchInput::ChannelError => WatcherState::Terminated(TerminationReason::ChannelError),
            WatchInput::InitSucceeded => if state == WatcherState::Initializing {
                WatcherState::Running
            } else {
                state
            },
            WatchInput::InitFailed => if state == WatcherState::Initializing {
                WatcherState::Terminated(TerminationReason::InitFailed)
            } else {
                state
            },
            WatchInput::Event(_) => state,
        },
    }
}

/// The set after `input` in `state`: only an event that arrives while running
/// changes it.
pub open spec fn entries_after(
    state: WatcherState,
    entries: Set<Seq<char>>,
    root: Seq<char>,
    input: WatchInput,
) -> Set<Seq<char>> {
    match input {
        WatchInput::Event(event) if state == WatcherState::Running => event_effect(
            entries,
            root,
            event,
        ),
        _ => entries,
    }
}

/// The answer to `input` in `state`. The failure signal is asked for exactly where
/// the state changes to `Terminated`.
pub open spec fn action_of(state: WatcherState, root: Seq<char>, input: WatchInput) -> WatchAction {
    match state {
        WatcherState::Terminated(_) => WatchAction::Stopped,
        _ => match next_state(state, input) {
            WatcherState::Terminated(reason) => WatchAction::RaiseFailure(reason),
            WatcherState::Running => match input {
                WatchInput::Event(event) => WatchAction::Applied(event_outcome(root, event)),
                WatchInput::InitSucceeded if state == WatcherState::Initializing => {
                    WatchAction::Started
                },
                _ => WatchAction::Unexpected,
            },
            WatcherState::Initializing => WatchAction::Unexpected,
        },
    }
}

fn report(done: Result<(), PathError>, success: EventOutcome) -> (outcome: EventOutcome)
    ensures
        outcome == match done {
            Ok(_) => success,
            Err(e) => EventOutcome::Rejected(e),
        },
{
    match done {
        Ok(_) => success,
        Err(e) => EventOutcome::Rejected(e),
    }
}

/// Applies `event` to the index: a created path is inserted if the check found a
/// regular file there, a removed path is removed, and any other event changes
/// nothing. A path that was not resolved or lies outside the root is reported and
/// leaves the index as it was.
pub fn update_from_event(index: &mut FileIndex, event: &WatchEvent) -> (outcome: EventOutcome)
    requires
        old(index).well_formed(),
    ensures
        final(index).well_formed(),
        final(index).root_view() == old(index).root_view(),
        final(index)@ == event_effect(old(index)@, old(index).root_view(), *event),
        outcome == event_outcome(old(index).root_view(), *event),
{
    match event {
        WatchEvent::Created { resolved, status } => match status {
            FileStatus::RegularFile => report(index.insert(resolved), EventOutcome::Inserted),
            _ => EventOutcome::Skipped(*status),
        },
        WatchEvent::Removed { resolved } => report(index.remove(resolved), EventOutcome::Removed),
        WatchEvent::Other => EventOutcome::Ignored,
    }
}

/// The watch adapter. It starts out initializing and ends, at most once, terminated.
pub struct WatchAdapter {
    state: WatcherState,
}

impl View for WatchAdapter {
    type V = WatcherState;

    closed spec fn view(&self) -> WatcherState {
        self.state
    }
}

impl WatchAdapter {
    /// An adapter that awaits the outcome of the subscription.
    pub fn new() -> (adapter: Self)
        ensures
            adapter@ == WatcherState::Initializing,
    {
        WatchAdapter { state: WatcherState::Initializing }
    }

    /// The state of the adapter.
    pub fn state(&self) -> (state: WatcherState)
        ensures
            state == self@,
    {
        self.state
    }

    /// Takes one input: the state moves on, an event that arrives while running is
    /// applied to the index, and the answer says what was done. Once terminated the
    /// adapter stays as it is and leaves the index alone.
    pub fn step(&mut self, index: &mut FileIndex, input: &WatchInput) -> (action: WatchAction)
        requires
            old(index).well_formed(),
        ensures
            final(index).well_formed(),
            final(index).root_view() == old(index).root_view(),
            final(self)@ == next_state(old(self)@, *input),
            final(index)@ == entries_after(
                old(self)@,
                old(index)@,
                old(index).root_view(),
                *input,
            ),
            action == action_of(old(self)@, old(index).root_view(), *input),
    {
        match self.state {
            WatcherState::Terminated(_) => WatchAction::Stopped,
            WatcherState::Initializing => match input {
                WatchInput::InitSucceeded => {
                    self.state = WatcherState::Running;
                    WatchAction::Started
                },
                WatchInput::InitFailed => self.terminate(TerminationReason::InitFailed),
                WatchInput::ChannelClosed => self.terminate(TerminationReason::ChannelClosed),
                WatchInput::ChannelError => self.terminate(TerminationReason::ChannelError),
                WatchInput::Event(_) => WatchAction::Unexpected,
            },
            WatcherState::Running => match input {
                WatchInput::Event(event) => WatchAction::Applied(
                    update_from_event(index, event),
                ),
                WatchInput::ChannelClosed => self.terminate(TerminationReason::ChannelClosed),
                WatchInput::ChannelError => self.terminate(TerminationReason::ChannelError),
                WatchInput::InitSucceeded => WatchAction::Unexpected,
                WatchInput::InitFailed => WatchAction::Unexpected,
            },
        }
    }

    fn terminate(&mut self, reason: TerminationReason) -> (action: WatchAction)
        ensures
            final(self)@ == WatcherState::Terminated(reason),
            action == WatchAction::RaiseFailure(reason),
    {
        self.state = WatcherState::Terminated(reason);
        WatchAction::RaiseFailure(reason)
    }
}

/// What a run of the adapter comes to: its state, the indexed set, and how often the
/// failure signal was asked for.
pub struct Run {
    pub state: WatcherState,
    pub entries: Set<Seq<char>>,
    pub signals: nat,
}

/// Whether `action` asks for the failure signal.
pub open spec fn raises(action: WatchAction) -> bool {
    action is RaiseFailure
}

/// The run of the adapter over `inputs`, from `state` and `entries` on.
pub open spec fn run(
    state: WatcherState,
    entries: Set<Seq<char>>,
    root: Seq<char>,
    inputs: Seq<WatchInput>,
) -> Run
    decreases inputs.len(),
{
    if inputs.len() == 0 {
        Run { state, entries, signals: 0 }
    } else {
        let rest = run(
            next_state(state, inputs[0]),
            entries_after(state, entries, root, inputs[0]),
            root,
            inputs.drop_first(),
        );
        Run {
            state: rest.state,
            entries: rest.entries,
            signals: if raises(action_of(state, root, inputs[0])) {
                rest.signals + 1
            } else {
                rest.signals
            },
        }
    }
}

/// Whether `input` is the creation of what a check found to be a regular file, at a
/// path whose form relative to `root` is `relative`.
pub open spec fn creates_regular_file(
    input: WatchInput,
    root: Seq<char>,
    relative: Seq<char>,
) -> bool {
    input matches WatchInput::Event(WatchEvent::Created { resolved, status }) && status
        == FileStatus::RegularFile && normalized(root, text_of(resolved)) == Ok::<
        Seq<char>,
        PathError,
    >(relative)
}

/// Termination is final: whatever is fed to a terminated adapter, its state and the
/// index stay as they are, and the failure signal is not asked for again.
pub proof fn lemma_terminated_is_final(
    state: WatcherState,
    entries: Set<Seq<char>>,
    root: Seq<char>,
    inputs: Seq<WatchInput>,
)
    requires
        state is Terminated,
    ensures
        run(state, entries, root, inputs) == (Run { state, entries, signals: 0 }),
    decreases inputs.len(),
{
    if inputs.len() > 0 {
        lemma_terminated_is_final(state, entries, root, inputs.drop_first());
    }
}

/// Over any run that starts before termination, the failure signal is asked for
/// once if the run ends terminated, and not at all otherwise.
pub proof fn lemma_signal_fires_once(
    state: WatcherState,
    entries: Set<Seq<char>>,
    root: Seq<char>,
    inputs: Seq<WatchInput>,
)
    requires
        !(state is Terminated),
    ensures
        run(state, entries, root, inputs).signals == if run(
            state,
            entries,
            root,
            inputs,
        ).state is Terminated {
            1nat
        } else {
            0nat
        },
    decreases inputs.len(),
{
    if inputs.len() > 0 {
        let next = next_state(state, inputs[0]);
        let then = entries_after(state, entries, root, inputs[0]);
        if next is Terminated {
            lemma_terminated_is_final(next, then, root, inputs.drop_first());
        } else {
            lemma_signal_fires_once(next, then, root, inputs.drop_first());
        }
    }
}

/// When the channel is closed on an adapter that has not terminated, the failure
/// signal is asked for exactly once and the index stays as it was then, whatever is
/// fed afterwards.
pub proof fn lemma_channel_closed_ends_updates(
    state: WatcherState,
    entries: Set<Seq<char>>,
    root: Seq<char>,
    later: Seq<WatchInput>,
)
    requires
        !(state is Terminated),
    ensures
        run(state, entries, root, seq![WatchInput::ChannelClosed] + later) == (Run {
            state: WatcherState::Terminated(TerminationReason::ChannelClosed),
            entries,
            signals: 1,
        }),
{
    let inputs = seq![WatchInput::ChannelClosed] + later;
    assert(inputs[0] == WatchInput::ChannelClosed);
    lemma_terminated_is_final(
        WatcherState::Terminated(TerminationReason::ChannelClosed),
        entries,
        root,
        inputs.drop_first(),
    );
}

/// A created path that was gone when it was checked, followed by its removal: the
/// creation inserts nothing, and after the removal the path is not indexed.
pub proof fn lemma_create_remove_race(
    entries: Set<Seq<char>>,
    root: Seq<char>,
    created: WatchEvent,
    gone: WatchEvent,
)
    requires
        created matches WatchEvent::Created { status, .. } && status != FileStatus::RegularFile,
        gone is Removed,
    ensures
        event_effect(entries, root, created) == entries,
        normalized(root, text_of(gone->Removed_resolved)) matches Ok(relative) ==> !event_effect(
            event_effect(entries, root, created),
            root,
            gone,
        ).contains(relative),
{
}

/// Every path that is indexed after a run was indexed before it, or is the relative
/// form of the path of a creation that a check found to be a regular file.
pub proof fn lemma_indexed_paths_were_regular_files(
    state: WatcherState,
    entries: Set<Seq<char>>,
    root: Seq<char>,
    inputs: Seq<WatchInput>,
    relative: Seq<char>,
)
    requires
        run(state, entries, root, inputs).entries.contains(relative),
    ensures
        entries.contains(relative) || exists|i: int|
            0 <= i < inputs.len() && creates_regular_file(#[trigger] inputs[i], root, relative),
    decreases inputs.len(),
{
    if inputs.len() > 0 {
        let then = entries_after(state, entries, root, inputs[0]);
        let rest = inputs.drop_first();
        lemma_indexed_paths_were_regular_files(
            next_state(state, inputs[0]),
            then,
            root,
            rest,
            relative,
        );
        if then.contains(relative) {
            if !entries.contains(relative) {
                assert(creates_regular_file(inputs[0], root, relative));
            }
        } else {
            let i = choose|i: int|
                0 <= i < rest.len() && creates_regular_file(#[trigger] rest[i], root, relative);
            assert(inputs[i + 1] == rest[i]);
        }
    }
}

} // verus!

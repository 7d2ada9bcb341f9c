//! The life of one command: the shell is started, the command's merged output is read
//! line by line, and its exit is awaited.
//!
//! Starting, reading and awaiting are the caller's work. This module decides: for the
//! phase a command is in and what the caller reports of its last action, it gives the
//! next phase, the line to log and the next action to take.

use crate::logger::{colour, colour_line, error, error_line, Record, RecordView, Role};
use crate::text::{decimal_digits, push_decimal};
use vstd::prelude::*;
use vstd::string::*;

verus! {

/// Where a command stands.
#[derive(Clone, Copy, PartialEq, Eq, Structural, Debug)]
pub enum Phase {
    /// Not begun.
    Idle,
    /// The shell is being started.
    Spawning,
    /// The shell runs and its output stream is being opened.
    Opening,
    /// The output is being read.
    Reading,
    /// The output has ended and the exit is being awaited.
    Waiting,
    /// Completed or abandoned.
    Finished,
}

/// What the caller reports of a command's last action.
#[derive(PartialEq, Eq, Debug)]
pub enum Event {
    /// The shell was started.
    Spawned,
    /// The shell could not be started.
    SpawnFailed,
    /// The output stream is open for reading.
    StreamOpened,
    /// The output stream could not be opened.
    StreamMissing,
    /// The command wrote this line.
    Line(String),
    /// Reading failed.
    ReadFailed,
    /// The output has ended.
    StreamEnded,
    /// The command has exited, with whatever status.
    Exited,
    /// Awaiting the exit failed, for this reason.
    WaitFailed(String),
    /// The execution itself broke down.
    Aborted,
}

pub enum EventView {
    Spawned,
    SpawnFailed,
    StreamOpened,
    StreamMissing,
    Line(Seq<char>),
    ReadFailed,
    StreamEnded,
    Exited,
    WaitFailed(Seq<char>),
    Aborted,
}

impl View for Event {
    type V = EventView;

    open spec fn view(&self) -> EventView {
        match self {
            Event::Spawned => EventView::Spawned,
            Event::SpawnFailed => EventView::SpawnFailed,
            Event::StreamOpened => EventView::StreamOpened,
            Event::StreamMissing => EventView::StreamMissing,
            Event::Line(text) => EventView::Line(text@),
            Event::ReadFailed => EventView::ReadFailed,
            Event::StreamEnded => EventView::StreamEnded,
            Event::Exited => EventView::Exited,
            Event::WaitFailed(reason) => EventView::WaitFailed(reason@),
            Event::Aborted => EventView::Aborted,
        }
    }
}

/// What the caller is to do next for a command.
#[derive(PartialEq, Eq, Debug)]
pub enum Action {
    /// Start `sh -c` with this script, its output piped.
    Spawn(String),
    /// Open the shell's output stream.
    OpenStream,
    /// Read the next line of the output.
    ReadLine,
    /// Await the shell's exit.
    Wait,
}

pub enum ActionView {
    Spawn(Seq<char>),
    OpenStream,
    ReadLine,
    Wait,
}

impl View for Action {
    type V = ActionView;

    open spec fn view(&self) -> ActionView {
        match self {
            Action::Spawn(script) => ActionView::Spawn(script@),
            Action::OpenStream => ActionView::OpenStream,
            Action::ReadLine => ActionView::ReadLine,
            Action::Wait => ActionView::Wait,
        }
    }
}

/// The answer to one report: the command's next phase, the line to log if there is
/// one, and the next action if there is one.
#[derive(PartialEq, Eq, Debug)]
pub struct Reaction {
    pub phase: Phase,
    pub record: Option<Record>,
    pub action: Option<Action>,
}

pub struct ReactionView {
    pub phase: Phase,
    pub record: Option<RecordView>,
    pub action: Option<ActionView>,
}

impl View for Reaction {
    type V = ReactionView;

    open spec fn view(&self) -> ReactionView {
        ReactionView {
            phase: self.phase,
            record: match self.record {
                Some(record) => Some(record@),
                None => None,
            },
            action: match self.action {
                Some(action) => Some(action@),
                None => None,
            },
        }
    }
}

/// The script handed to the shell: the command with its error stream merged into its
/// output stream.
pub open spec fn script(command: Seq<char>) -> Seq<char> {
    command + " 2>&1"@
}

/// The line logged before a command is started.
pub open spec fn start_marker(index: usize, command: Seq<char>) -> RecordView {
    RecordView { role: Role::CommandStart(index), text: colour_line(index, "[+] "@ + command) }
}

/// The line logged once a command's exit has been awaited.
pub open spec fn end_marker(index: usize, command: Seq<char>) -> RecordView {
    RecordView { role: Role::CommandEnd(index), text: colour_line(index, "[-] "@ + command) }
}

/// The line logged for a line that a command wrote.
pub open spec fn output_line(index: usize, line: Seq<char>) -> RecordView {
    RecordView { role: Role::Output(index), text: colour_line(index, line) }
}

/// The error logged when a command is abandoned.
pub open spec fn failure(index: usize, what: Seq<char>) -> RecordView {
    RecordView {
        role: Role::Failure(index),
        text: error_line("["@ + decimal_digits(index as nat) + "] "@ + what),
    }
}

/// A step that logs nothing and goes on with `action`.
pub open spec fn proceed(phase: Phase, action: ActionView) -> ReactionView {
    ReactionView { phase, record: None, action: Some(action) }
}

/// A step that logs the error and leaves the command at that point.
pub open spec fn abandon(index: usize, what: Seq<char>) -> ReactionView {
    ReactionView { phase: Phase::Finished, record: Some(failure(index, what)), action: None }
}

/// A command is in progress from the moment it is begun until it is finished.
pub open spec fn in_progress(phase: Phase) -> bool {
    phase != Phase::Idle && phase != Phase::Finished
}

/// Beginning a command: the start marker is logged, then the shell is to be started.
pub open spec fn begin(index: usize, command: Seq<char>) -> ReactionView {
    ReactionView {
        phase: Phase::Spawning,
        record: Some(start_marker(index, command)),
        action: Some(ActionView::Spawn(script(command))),
    }
}

/// The answer to `event` for the command at `index` in `phase`.
///
/// A failure to start, to open the stream or to await the exit is logged with the
/// index and ends the command there. Every line read is logged as it comes; a failed
/// read ends the reading like the end of the output. A report that the phase does not
/// expect changes nothing and asks for nothing.
pub open spec fn react(
    index: usize,
    command: Seq<char>,
    phase: Phase,
    event: EventView,
) -> ReactionView {
    match (phase, event) {
        (Phase::Spawning, EventView::Spawned) => proceed(Phase::Opening, ActionView::OpenStream),
        (Phase::Spawning, EventView::SpawnFailed) => abandon(index, "unable to start"@),
        (Phase::Opening, EventView::StreamOpened) => proceed(Phase::Reading, ActionView::ReadLine),
        (Phase::Opening, EventView::StreamMissing) => abandon(index, "reading stdout"@),
        (Phase::Reading, EventView::Line(line)) => ReactionView {
            phase: Phase::Reading,
            record: Some(output_line(index, line)),
            action: Some(ActionView::ReadLine),
        },
        (Phase::Reading, EventView::ReadFailed) => proceed(Phase::Waiting, ActionView::Wait),
        (Phase::Reading, EventView::StreamEnded) => proceed(Phase::Waiting, ActionView::Wait),
        (Phase::Waiting, EventView::Exited) => ReactionView {
            phase: Phase::Finished,
            record: Some(end_marker(index, command)),
            action: None,
        },
        (Phase::Waiting, EventView::WaitFailed(reason)) => abandon(
            index,
            "awaiting completion: "@ + reason,
        ),
        (_, EventView::Aborted) => if in_progress(phase) {
            abandon(index, "thread panic"@)
        } else {
            ReactionView { phase, record: None, action: None }
        },
        _ => ReactionView { phase, record: None, action: None },
    }
}

/// A step that logs nothing and goes on with `action`.
fn go_on(phase: Phase, action: Action) -> (r: Reaction)
    ensures
        r@ == proceed(phase, action@),
{
    Reaction { phase, record: None, action: Some(action) }
}

/// A step that changes nothing.
fn ignore(phase: Phase) -> (r: Reaction)
    ensures
        r@ == (ReactionView { phase, record: None, action: None }),
{
    Reaction { phase, record: None, action: None }
}

/// A step that logs the error `what` for the command at `index` and ends it.
fn give_up(index: usize, what: &str) -> (r: Reaction)
    ensures
        r@ == abandon(index, what@),
{
    let mut message = String::from_str("[");
    push_decimal(&mut message, index);
    message.append("] ");
    message.append(what);
    let record = Record { role: Role::Failure(index), text: error(message.as_str()) };
    Reaction { phase: Phase::Finished, record: Some(record), action: None }
}

/// Begins the command at `index`: gives its start marker and the script to start the
/// shell with.
pub fn run_command(index: usize, command: &str) -> (r: Reaction)
    ensures
        r@ == begin(index, command@),
{
    let mut message = String::from_str("[+] ");
    message.append(command);
    let record = Record { role: Role::CommandStart(index), text: colour(index, message.as_str()) };
    let mut script = String::from_str(command);
    script.append(" 2>&1");
    Reaction { phase: Phase::Spawning, record: Some(record), action: Some(Action::Spawn(script)) }
}

/// Answers `event` for the command at `index` in `phase`.
pub fn advance(index: usize, command: &str, phase: Phase, event: &Event) -> (r: Reaction)
    ensures
        r@ == react(index, command@, phase, event@),
{
    match phase {
        Phase::Idle | Phase::Finished => ignore(phase),
        Phase::Spawning => match event {
            Event::Spawned => go_on(Phase::Opening, Action::OpenStream),
            Event::SpawnFailed => give_up(index, "unable to start"),
            Event::Aborted => give_up(index, "thread panic"),
            _ => ignore(phase),
        },
        Phase::Opening => match event {
            Event::StreamOpened => go_on(Phase::Reading, Action::ReadLine),
            Event::StreamMissing => give_up(index, "reading stdout"),
            Event::Aborted => give_up(index, "thread panic"),
            _ => ignore(phase),
        },
        Phase::Reading => match event {
            Event::Line(line) => {
                let record = Record {
                    role: Role::Output(index),
                    text: colour(index, line.as_str()),
                };
                Reaction {
                    phase: Phase::Reading,
                    record: Some(record),
                    action: Some(Action::ReadLine),
                }
            },
            Event::ReadFailed => go_on(Phase::Waiting, Action::Wait),
            Event::StreamEnded => go_on(Phase::Waiting, Action::Wait),
            Event::Aborted => give_up(index, "thread panic"),
            _ => ignore(phase),
        },
        Phase::Waiting => match event {
            Event::Exited => {
                let mut message = String::from_str("[-] ");
                message.append(command);
                let record = Record {
                    role: Role::CommandEnd(index),
                    text: colour(index, message.as_str()),
                };
                Reaction { phase: Phase::Finished, record: Some(record), action: None }
            },
            Event::WaitFailed(reason) => {
                let mut what = String::from_str("awaiting completion: ");
                what.append(reason.as_str());
                give_up(index, what.as_str())
            },
            Event::Aborted => give_up(index, "thread panic"),
            _ => ignore(phase),
        },
    }
}

} // verus!

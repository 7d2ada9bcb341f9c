//! The three kinds of log lines (informational, error, and command output coloured
//! by the command's index) and the records that carry them.
//!
//! A record holds the finished text of one line together with its role, so that a
//! caller only has to write the text to the stream that the role names.

use crate::text::{decimal_digits, push_decimal};
use vstd::prelude::*;
use vstd::string::*;

verus! {

/// The standard stream a line is written to.
#[derive(Clone, Copy, PartialEq, Eq, Structural, Debug)]
pub enum Stream {
    Output,
    Error,
}

/// What a line reports. The index is the position of a command in its job.
#[derive(Clone, Copy, PartialEq, Eq, Structural, Debug)]
pub enum Role {
    /// A job's gate matched and its commands are about to run.
    JobStart,
    /// Every command of a job has reached completion.
    JobEnd,
    /// A command is about to be handed to the shell.
    CommandStart(usize),
    /// One line that a command wrote.
    Output(usize),
    /// A command's exit has been awaited.
    CommandEnd(usize),
    /// A command could not be started, read or awaited and was abandoned.
    Failure(usize),
    /// An entry's key carries the prefix but not the expected form.
    Malformed,
}

/// One line of the log.
#[derive(PartialEq, Eq, Debug)]
pub struct Record {
    pub role: Role,
    pub text: String,
}

pub struct RecordView {
    pub role: Role,
    pub text: Seq<char>,
}

impl View for Record {
    type V = RecordView;

    open spec fn view(&self) -> RecordView {
        RecordView { role: self.role, text: self.text@ }
    }
}

/// Errors go to the error stream, everything else to the output stream.
pub open spec fn stream_of(role: Role) -> Stream {
    match role {
        Role::Failure(_) | Role::Malformed => Stream::Error,
        _ => Stream::Output,
    }
}

/// The colour of the lines of the command at `index`: one of three, by turns.
pub open spec fn palette(index: usize) -> Seq<char> {
    if index % 3 == 0 {
        "\x1b[94m"@
    } else if index % 3 == 1 {
        "\x1b[95m"@
    } else {
        "\x1b[96m"@
    }
}

/// An informational line: a green `I.` and the message.
pub open spec fn info_line(message: Seq<char>) -> Seq<char> {
    "\x1b[32mI.\x1b[0m "@ + message
}

/// An error line: a red `E.` and the message.
pub open spec fn error_line(message: Seq<char>) -> Seq<char> {
    "\x1b[31mE.\x1b[0m "@ + message
}

/// A line of the command at `index`: the index in the command's colour, and the message.
pub open spec fn colour_line(index: usize, message: Seq<char>) -> Seq<char> {
    palette(index) + decimal_digits(index as nat) + ".\x1b[0m "@ + message
}

impl Record {
    /// The stream this record is written to.
    pub fn stream(&self) -> (s: Stream)
        ensures
            s == stream_of(self.role),
    {
        match self.role {
            Role::Failure(_) | Role::Malformed => Stream::Error,
            _ => Stream::Output,
        }
    }
}

/// Formats an informational line.
pub fn info(message: &str) -> (line: String)
    ensures
        line@ == info_line(message@),
{
    let mut line = String::from_str("\x1b[32mI.\x1b[0m ");
    line.append(message);
    line
}

/// Formats an error line.
pub fn error(message: &str) -> (line: String)
    ensures
        line@ == error_line(message@),
{
    let mut line = String::from_str("\x1b[31mE.\x1b[0m ");
    line.append(message);
    line
}

/// Formats a line of the command at `index`.
pub fn colour(index: usize, message: &str) -> (line: String)
    ensures
        line@ == colour_line(index, message@),
{
    let tint = if index % 3 == 0 {
        "\x1b[94m"
    } else if index % 3 == 1 {
        "\x1b[95m"
    } else {
        "\x1b[96m"
    };
    let mut line = String::from_str(tint);
    push_decimal(&mut line, index);
    line.append(".\x1b[0m ");
    line.append(message);
    line
}

} // verus!

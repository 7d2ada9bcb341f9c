//! The two gates: the name of the working directory and the name of the current branch.
//!
//! A gate answers whether what was observed of the surroundings names the target. What
//! could not be observed never matches.

use crate::text::{eq_ignore_ascii_case, eq_ignore_case, trim, trimmed};
use vstd::prelude::*;
use vstd::string::*;

verus! {

/// The condition a job is gated on.
#[derive(Clone, Copy, PartialEq, Eq, Structural, Debug)]
pub enum Kind {
    /// The base name of the working directory.
    Directory,
    /// The branch the version-control tool reports.
    Branch,
}

/// What the version-control tool gave back when asked for the current branch.
#[derive(PartialEq, Eq, Debug)]
pub struct ToolReport {
    /// Whether the tool exited with success.
    pub success: bool,
    /// Everything the tool wrote to its output stream.
    pub stdout: Vec<u8>,
}

pub struct ToolReportView {
    pub success: bool,
    pub stdout: Seq<u8>,
}

impl View for ToolReport {
    type V = ToolReportView;

    open spec fn view(&self) -> ToolReportView {
        ToolReportView { success: self.success, stdout: self.stdout@ }
    }
}

/// What was observed of the surroundings for one gate.
#[derive(PartialEq, Eq, Debug)]
pub enum Observation {
    /// The base name of the working directory, or nothing where it could not be
    /// determined.
    Directory(Option<String>),
    /// The tool's report, or nothing where the tool could not be run.
    Branch(Option<ToolReport>),
}

pub enum ObservationView {
    Directory(Option<Seq<char>>),
    Branch(Option<ToolReportView>),
}

impl View for Observation {
    type V = ObservationView;

    open spec fn view(&self) -> ObservationView {
        match self {
            Observation::Directory(name) => ObservationView::Directory(
                match name {
                    Some(name) => Some(name@),
                    None => None,
                },
            ),
            Observation::Branch(report) => ObservationView::Branch(
                match report {
                    Some(report) => Some(report@),
                    None => None,
                },
            ),
        }
    }
}

/// The kind that a code names: `dir` or `bra`, in any case of letters.
pub open spec fn kind_of(code: Seq<char>) -> Option<Kind> {
    if eq_ignore_case(code, "dir"@) {
        Some(Kind::Directory)
    } else if eq_ignore_case(code, "bra"@) {
        Some(Kind::Branch)
    } else {
        None
    }
}

/// The code of a kind, as it is written in a log line.
pub open spec fn code_of(kind: Kind) -> Seq<char> {
    match kind {
        Kind::Directory => "dir"@,
        Kind::Branch => "bra"@,
    }
}

/// The directory gate: the name is known and equals the target but for case.
pub open spec fn directory_matches(name: Option<Seq<char>>, target: Seq<char>) -> bool {
    name matches Some(name) && eq_ignore_case(name, target)
}

/// The output of the tool, white space around it set aside, equals the target but for case.
pub open spec fn names_branch(output: Seq<char>, target: Seq<char>) -> bool {
    eq_ignore_case(trimmed(output), target)
}

/// The text that `String::from_utf8_lossy` makes of `bytes`.
pub uninterp spec fn lossy_text(bytes: Seq<u8>) -> Seq<char>;

/// The branch gate: the tool ran, exited with success and its output names the target.
pub open spec fn branch_matches(report: Option<ToolReportView>, target: Seq<char>) -> bool {
    report matches Some(report) && report.success && names_branch(
        lossy_text(report.stdout),
        target,
    )
}

/// Whether a gate of `kind` lets a job for `target` through, given what was seen. An
/// observation made for the other kind never matches.
pub open spec fn gate_matches(kind: Kind, target: Seq<char>, seen: ObservationView) -> bool {
    match (kind, seen) {
        (Kind::Directory, ObservationView::Directory(name)) => directory_matches(name, target),
        (Kind::Branch, ObservationView::Branch(report)) => branch_matches(report, target),
        _ => false,
    }
}

/// Calls `String::from_utf8_lossy`, which decodes `bytes` as UTF-8 and puts U+FFFD in
/// place of what is not valid. The contract only names the text that comes out.
#[verifier::external_body]
fn decode_lossy(bytes: &[u8]) -> (text: String)
    ensures
        text@ == lossy_text(bytes@),
{
    String::from_utf8_lossy(bytes).into_owned()
}

/// Reads a gate-kind code.
pub fn kind_from_str(source: &str) -> (kind: Option<Kind>)
    ensures
        kind == kind_of(source@),
{
    if eq_ignore_ascii_case(source, "dir") {
        return Some(Kind::Directory);
    } else if eq_ignore_ascii_case(source, "bra") {
        return Some(Kind::Branch);
    }
    None
}

/// The code of a kind.
pub fn kind_code(kind: Kind) -> (code: &'static str)
    ensures
        code@ == code_of(kind),
{
    match kind {
        Kind::Directory => "dir",
        Kind::Branch => "bra",
    }
}

/// Whether the working directory, known by its base name, is the target.
pub fn is_directory(name: Option<&str>, target: &str) -> (matched: bool)
    ensures
        matched == directory_matches(
            match name {
                Some(name) => Some(name@),
                None => None,
            },
            target@,
        ),
{
    match name {
        Some(name) => eq_ignore_ascii_case(name, target),
        None => false,
    }
}

/// Whether the decoded output of the tool names the target.
pub fn output_names_branch(output: &str, target: &str) -> (matched: bool)
    ensures
        matched == names_branch(output@, target@),
{
    eq_ignore_ascii_case(trim(output), target)
}

/// Whether the branch that the tool reported is the target.
pub fn is_branch(report: Option<&ToolReport>, target: &str) -> (matched: bool)
    ensures
        matched == branch_matches(
            match report {
                Some(report) => Some(report@),
                None => None,
            },
            target@,
        ),
{
    match report {
        Some(report) => {
            if !report.success {
                return false;
            }
            let output = decode_lossy(report.stdout.as_slice());
            output_names_branch(output.as_str(), target)
        },
        None => false,
    }
}

/// Evaluates a gate of `kind` for `target` on what was seen.
pub fn gate(kind: Kind, target: &str, seen: &Observation) -> (matched: bool)
    ensures
        matched == gate_matches(kind, target@, seen@),
{
    match kind {
        Kind::Directory => match seen {
            Observation::Directory(Some(name)) => is_directory(Some(name.as_str()), target),
            _ => false,
        },
        Kind::Branch => match seen {
            Observation::Branch(Some(report)) => is_branch(Some(report), target),
            _ => false,
        },
    }
}

} // verus!

//! Job specifications and the grammar of the entries that declare them.
//!
//! An entry declares a job where its key reads `EC_[ASYNC_]<KIND>_<TARGET>`; its value
//! is the list of the job's commands, separated by commas.

use crate::gate::{kind_from_str, kind_of, Kind};
use crate::logger::{error, error_line, Record, RecordView, Role};
use crate::text::{find, lemma_segments_head, segments, split, strip_prefix, to_chars};
use vstd::prelude::*;
use vstd::string::*;

verus! {

/// One gate, its target, the commands to run where that gate matches, and whether they
/// run at the same time.
#[derive(PartialEq, Eq, Debug)]
pub struct Job {
    pub kind: Kind,
    pub target: String,
    pub commands: Vec<String>,
    pub concurrent: bool,
}

pub struct JobView {
    pub kind: Kind,
    pub target: Seq<char>,
    pub commands: Seq<Seq<char>>,
    pub concurrent: bool,
}

impl View for Job {
    type V = JobView;

    open spec fn view(&self) -> JobView {
        JobView {
            kind: self.kind,
            target: self.target@,
            commands: self.commands.deep_view(),
            concurrent: self.concurrent,
        }
    }
}

/// What one entry of the environment amounts to.
#[derive(PartialEq, Eq, Debug)]
pub enum Entry {
    /// The key does not carry the prefix: the entry is none of ours.
    Unrelated,
    /// The key carries the prefix but declares no job; the record is the error to log.
    Malformed(Record),
    /// The entry declares this job.
    Job(Job),
}

pub enum EntryView {
    Unrelated,
    Malformed(RecordView),
    Job(JobView),
}

impl View for Entry {
    type V = EntryView;

    open spec fn view(&self) -> EntryView {
        match self {
            Entry::Unrelated => EntryView::Unrelated,
            Entry::Malformed(record) => EntryView::Malformed(record@),
            Entry::Job(job) => EntryView::Job(job@),
        }
    }
}

/// The prefix of every key that declares a job. It is matched as written.
pub open spec fn marker() -> Seq<char> {
    "EC_"@
}

/// The part that may follow the prefix and asks for the commands to run at the same
/// time. It is matched as written.
pub open spec fn concurrent_marker() -> Seq<char> {
    "ASYNC_"@
}

/// Whether a key carries the prefix.
pub open spec fn is_marked(key: Seq<char>) -> bool {
    marker().is_prefix_of(key)
}

/// A marked key without the prefix.
pub open spec fn unmarked(key: Seq<char>) -> Seq<char> {
    key.skip(marker().len() as int)
}

/// Whether a marked key asks for the commands to run at the same time.
pub open spec fn asks_concurrent(key: Seq<char>) -> bool {
    concurrent_marker().is_prefix_of(unmarked(key))
}

/// The tokens of a marked key: what follows the prefixes, split at each underscore.
/// The first token is the code of the kind and the second the target; further tokens
/// are not read.
pub open spec fn tokens(key: Seq<char>) -> Seq<Seq<char>> {
    let rest = unmarked(key);
    let body = if asks_concurrent(key) {
        rest.skip(concurrent_marker().len() as int)
    } else {
        rest
    };
    segments(body, '_')
}

/// Whether a marked key has the form of a declaration: a known kind and a target.
pub open spec fn declares(key: Seq<char>) -> bool {
    tokens(key).len() >= 2 && kind_of(tokens(key)[0]) is Some
}

/// The error logged for a marked key that declares nothing. It names the key by what
/// follows the prefix.
pub open spec fn malformed(key: Seq<char>) -> RecordView {
    RecordView {
        role: Role::Malformed,
        text: error_line("unrecognised format: "@ + unmarked(key)),
    }
}

/// The job that a declaring key and its value stand for. The commands are the pieces
/// of the value between its commas, as they are written.
pub open spec fn declared(key: Seq<char>, value: Seq<char>) -> JobView {
    JobView {
        kind: kind_of(tokens(key)[0])->0,
        target: tokens(key)[1],
        commands: segments(value, ','),
        concurrent: asks_concurrent(key),
    }
}

/// What the entry `key = value` amounts to.
pub open spec fn parse(key: Seq<char>, value: Seq<char>) -> EntryView {
    if !is_marked(key) {
        EntryView::Unrelated
    } else if declares(key) {
        EntryView::Job(declared(key, value))
    } else {
        EntryView::Malformed(malformed(key))
    }
}

/// What a run of entries amounts to: what each marked entry amounts to, in the order
/// of the entries. Unrelated entries leave no trace.
pub open spec fn scan(entries: Seq<(Seq<char>, Seq<char>)>) -> Seq<EntryView>
    decreases entries.len(),
{
    if entries.len() == 0 {
        Seq::<EntryView>::empty()
    } else {
        let before = scan(entries.drop_last());
        let (key, value) = entries.last();
        if is_marked(key) {
            before.push(parse(key, value))
        } else {
            before
        }
    }
}

/// The entries as pairs of texts.
pub open spec fn pairs(entries: Seq<(String, String)>) -> Seq<(Seq<char>, Seq<char>)> {
    Seq::new(entries.len(), |i: int| (entries[i].0@, entries[i].1@))
}

/// The views of parsed entries.
pub open spec fn entry_views(entries: Seq<Entry>) -> Seq<EntryView> {
    Seq::new(entries.len(), |i: int| entries[i]@)
}

/// Scanning a run of entries is scanning its parts one after the other.
pub proof fn lemma_scan_concat(
    first: Seq<(Seq<char>, Seq<char>)>,
    second: Seq<(Seq<char>, Seq<char>)>,
)
    ensures
        scan(first + second) == scan(first) + scan(second),
    decreases second.len(),
{
    if second.len() > 0 {
        lemma_scan_concat(first, second.drop_last());
        assert((first + second).drop_last() =~= first + second.drop_last());
    }
}

/// An entry whose key does not carry the prefix leaves no trace: with it or without
/// it, the same jobs are declared and the same errors are logged.
pub proof fn lemma_unmarked_entry_leaves_no_trace(
    before: Seq<(Seq<char>, Seq<char>)>,
    key: Seq<char>,
    value: Seq<char>,
    after: Seq<(Seq<char>, Seq<char>)>,
)
    requires
        !is_marked(key),
    ensures
        scan(before.push((key, value)) + after) == scan(before + after),
{
    lemma_scan_concat(before.push((key, value)), after);
    lemma_scan_concat(before, after);
    assert(before.push((key, value)).drop_last() =~= before);
}

/// An entry whose key carries the prefix but has not the form of a declaration gives
/// exactly one error line, which names the key, and no job.
pub proof fn lemma_malformed_entry_is_reported_once(
    before: Seq<(Seq<char>, Seq<char>)>,
    key: Seq<char>,
    value: Seq<char>,
    after: Seq<(Seq<char>, Seq<char>)>,
)
    requires
        is_marked(key),
        !declares(key),
    ensures
        scan(before.push((key, value)) + after) == scan(before).push(
            EntryView::Malformed(malformed(key)),
        ) + scan(after),
        malformed(key).role == Role::Malformed,
        malformed(key).text == error_line("unrecognised format: "@ + unmarked(key)),
{
    lemma_scan_concat(before.push((key, value)), after);
    assert(before.push((key, value)).drop_last() =~= before);
}

/// Reads one entry of the environment.
///
/// A key without the prefix is unrelated, whatever else it holds. A key with the
/// prefix either declares a job or is malformed; a malformed key comes with the one
/// error line that names it. A declared job has at least one command.
pub fn parse_entry(key: &str, value: &str) -> (entry: Entry)
    ensures
        entry@ == parse(key@, value@),
        !is_marked(key@) ==> entry is Unrelated,
        is_marked(key@) && !declares(key@) ==> (entry matches Entry::Malformed(record)
            && record@ == malformed(key@)),
        is_marked(key@) && declares(key@) ==> (entry matches Entry::Job(job) && job@
            == declared(key@, value@) && job.commands.len() >= 1),
{
    let letters = to_chars(key);
    let n = letters.len();
    let rest_at = match strip_prefix(&letters, 0, "EC_") {
        Some(at) => at,
        None => {
            return Entry::Unrelated;
        },
    };
    let (concurrent, body_at) = match strip_prefix(&letters, rest_at, "ASYNC_") {
        Some(at) => (true, at),
        None => (false, rest_at),
    };
    let ghost body = key@.skip(body_at as int);
    proof {
        if concurrent {
            assert(unmarked(key@).skip(concurrent_marker().len() as int) =~= body);
        }
        lemma_segments_head(body, '_');
    }
    let code_end = find(&letters, body_at, '_');
    let code = key.substring_char(body_at, code_end);
    proof {
        assert(code@ =~= body.take(code_end - body_at));
    }
    let kind = kind_from_str(code);
    if code_end < n {
        if let Some(kind) = kind {
            let target_end = find(&letters, code_end + 1, '_');
            let target = key.substring_char(code_end + 1, target_end).to_owned();
            let commands = split(value, ',');
            proof {
                let after = body.skip(code_end - body_at + 1);
                assert(after =~= key@.skip(code_end + 1));
                assert(target@ =~= after.take(target_end - (code_end + 1)));
                lemma_segments_head(value@, ',');
            }
            return Entry::Job(Job { kind, target, commands, concurrent });
        }
    }
    let mut message = String::from_str("unrecognised format: ");
    message.append(key.substring_char(rest_at, n));
    Entry::Malformed(Record { role: Role::Malformed, text: error(message.as_str()) })
}

/// Reads the entries of an environment in the order given.
///
/// The result holds what each entry with the prefix amounts to, one for one and in
/// that order; an entry without the prefix gives neither a job nor a log line.
pub fn parse_environment(entries: &Vec<(String, String)>) -> (found: Vec<Entry>)
    ensures
        entry_views(found@) == scan(pairs(entries@)),
{
    let mut found: Vec<Entry> = Vec::new();
    let mut i: usize = 0;
    while i < entries.len()
        invariant
            i <= entries.len(),
            entry_views(found@) == scan(pairs(entries@).take(i as int)),
        decreases entries.len() - i,
    {
        let entry = parse_entry(entries[i].0.as_str(), entries[i].1.as_str());
        proof {
            assert(pairs(entries@).take(i + 1).drop_last() =~= pairs(entries@).take(i as int));
        }
        match entry {
            Entry::Unrelated => {},
            _ => {
                found.push(entry);
            },
        }
        i += 1;
    }
    proof {
        assert(pairs(entries@).take(entries.len() as int) =~= pairs(entries@));
    }
    found
}

} // verus!

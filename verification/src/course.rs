//! The course of a job: everything that is logged and asked for, from its gate to the
//! last report.
//!
//! The laws on the order of commands and on the lines of each command are proved of
//! every course; they rest on what a single step does, which is summed up here.

use crate::dispatcher::{
    all_finished, dispatch, launch, start_spec, DispatcherView, EffectView, Outcome, Stage,
};
use crate::job::JobView;
use crate::logger::{RecordView, Role};
use crate::runner::{react, EventView, Phase};
use vstd::prelude::*;

verus! {

/// One report: the command it is about and what is reported of it.
pub struct Report {
    pub index: usize,
    pub event: EventView,
}

/// The state after answering the reports one after the other, and all effects in the
/// order in which they came due.
pub open spec fn run(d: DispatcherView, reports: Seq<Report>) -> Outcome
    decreases reports.len(),
{
    if reports.len() == 0 {
        Outcome { after: d, effects: Seq::<EffectView>::empty() }
    } else {
        let before = run(d, reports.drop_last());
        let last = dispatch(before.after, reports.last().index, reports.last().event);
        Outcome { after: last.after, effects: before.effects + last.effects }
    }
}

/// The course of a job whose gate gave `matched` and whose commands were reported on
/// by `reports`.
pub open spec fn course(job: JobView, matched: bool, reports: Seq<Report>) -> Outcome {
    let opened = start_spec(job, matched);
    let ran = run(opened.after, reports);
    Outcome { after: ran.after, effects: opened.effects + ran.effects }
}

/// The effect logs the start marker of the command at `index`.
pub open spec fn starts(effect: EffectView, index: usize) -> bool {
    effect matches EffectView::Log(record) && record.role == Role::CommandStart(index)
}

/// The effect logs the line that closes the command at `index`: its end marker, or
/// the error it was abandoned with.
pub open spec fn closes(effect: EffectView, index: usize) -> bool {
    effect matches EffectView::Log(record) && (record.role == Role::CommandEnd(index)
        || record.role == Role::Failure(index))
}

/// The effect logs the end of the job.
pub open spec fn ends_job(effect: EffectView) -> bool {
    effect matches EffectView::Log(record) && record.role == Role::JobEnd
}

/// The effect logs a line that the command at `index` wrote.
pub open spec fn outputs(effect: EffectView, index: usize) -> bool {
    effect matches EffectView::Log(record) && record.role == Role::Output(index)
}

/// The closing line of the command at `index` stands in `log` before position `p`.
pub open spec fn closed_before(log: Seq<EffectView>, p: int, index: usize) -> bool {
    exists|q: int| 0 <= q < p && q < log.len() && #[trigger] closes(log[q], index)
}

/// The start marker of the command at `index` stands in `log` before position `p`.
pub open spec fn started_before(log: Seq<EffectView>, p: int, index: usize) -> bool {
    exists|q: int| 0 <= q < p && q < log.len() && #[trigger] starts(log[q], index)
}

/// The report finishes the command it is about.
pub open spec fn finishes(d: DispatcherView, index: usize, event: EventView) -> bool {
    &&& d.stage == Stage::Running
    &&& index < d.slots.len()
    &&& d.slots[index as int].phase != Phase::Finished
    &&& react(index, d.slots[index as int].command, d.slots[index as int].phase, event).phase
        == Phase::Finished
}

/// The report finishes a command of a sequential job that has a successor to begin.
pub open spec fn hands_over(d: DispatcherView, index: usize, event: EventView) -> bool {
    &&& finishes(d, index, event)
    &&& !d.concurrent
    &&& index + 1 < d.slots.len()
    &&& d.slots[index + 1].phase == Phase::Idle
}

/// What one step changes and what it logs, where `fin` says that it finishes the
/// command reported on and `over` that it begins the successor.
///
/// Only the command reported on moves, and with it the successor that a sequential job
/// begins. A closing line comes first and only from the step that finishes the command;
/// a start marker comes only behind the closing line of the predecessor; the end of the
/// job comes only behind the closing line of the last command to finish.
pub open spec fn summary(
    d: DispatcherView,
    index: usize,
    fin: bool,
    over: bool,
    after: DispatcherView,
    new: Seq<EffectView>,
) -> bool {
    &&& after.stage == d.stage
    &&& after.concurrent == d.concurrent
    &&& after.kind == d.kind
    &&& after.target == d.target
    &&& after.slots.len() == d.slots.len()
    &&& fin ==> index < d.slots.len() && d.slots[index as int].phase != Phase::Finished
        && d.slots[index as int].phase != Phase::Idle
    &&& over ==> fin && !d.concurrent && index + 1 < d.slots.len() && d.slots[index
        + 1].phase == Phase::Idle
    &&& forall|k: int|
        0 <= k < d.slots.len() && k != index && !(over && k == index + 1) ==> (
        #[trigger] after.slots[k]) == d.slots[k]
    &&& fin ==> after.slots[index as int].phase == Phase::Finished
    &&& !fin && index < d.slots.len() ==> {
        &&& after.slots[index as int].phase == Phase::Idle <==> d.slots[index as int].phase
            == Phase::Idle
        &&& after.slots[index as int].phase == Phase::Finished <==> d.slots[index as int].phase
            == Phase::Finished
    }
    &&& over ==> after.slots[index + 1].phase == Phase::Spawning
    &&& fin ==> new.len() >= 1 && closes(new[0], index)
    &&& forall|p: int, i: usize|
        0 <= p < new.len() && #[trigger] closes(new[p], i) ==> fin && i == index && p == 0
    &&& forall|p: int, j: usize|
        0 <= p < new.len() && #[trigger] starts(new[p], j) ==> over && j == index + 1 && p == 1
    &&& forall|p: int|
        0 <= p < new.len() && #[trigger] ends_job(new[p]) ==> fin && !over && all_finished(
            after.slots,
        ) && p == 1
}

/// Every step is as `summary` says.
pub proof fn lemma_step(d: DispatcherView, index: usize, event: EventView)
    requires
        d.slots.len() <= usize::MAX,
    ensures
        summary(
            d,
            index,
            finishes(d, index, event),
            hands_over(d, index, event),
            dispatch(d, index, event).after,
            dispatch(d, index, event).effects,
        ),
{
}

/// What one step logs of a command's output, and where the start marker of a successor
/// stands.
pub open spec fn summary_of_lines(
    d: DispatcherView,
    index: usize,
    fin: bool,
    over: bool,
    new: Seq<EffectView>,
) -> bool {
    &&& forall|p: int, i: usize|
        0 <= p < new.len() && #[trigger] outputs(new[p], i) ==> i == index && p == 0 && !fin
            && index < d.slots.len() && d.slots[index as int].phase == Phase::Reading
    &&& over ==> new.len() >= 2 && starts(new[1], (index + 1) as usize)
}

/// Every step is as `summary_of_lines` says.
pub proof fn lemma_step_lines(d: DispatcherView, index: usize, event: EventView)
    requires
        d.slots.len() <= usize::MAX,
    ensures
        summary_of_lines(
            d,
            index,
            finishes(d, index, event),
            hands_over(d, index, event),
            dispatch(d, index, event).effects,
        ),
{
}

/// Beginning the first `count` commands logs their start markers in order, each
/// followed by the request to start the shell, and nothing else.
pub proof fn lemma_launch(commands: Seq<Seq<char>>, count: nat)
    requires
        count <= commands.len(),
        count <= usize::MAX,
    ensures
        launch(commands, count).len() == 2 * count,
        forall|i: int| 0 <= i < count ==> starts(#[trigger] launch(commands, count)[2 * i], i as usize),
        forall|p: int, j: usize|
            0 <= p < launch(commands, count).len() && #[trigger] starts(
                launch(commands, count)[p],
                j,
            ) ==> j < count && p == 2 * j,
        forall|p: int, i: usize|
            0 <= p < launch(commands, count).len() ==> !#[trigger] closes(
                launch(commands, count)[p],
                i,
            ),
        forall|p: int|
            0 <= p < launch(commands, count).len() ==> !#[trigger] ends_job(
                launch(commands, count)[p],
            ),
    decreases count,
{
    if count > 0 {
        lemma_launch(commands, (count - 1) as nat);
    }
}

/// Beginning commands logs no line of output.
pub proof fn lemma_launch_holds_no_output(commands: Seq<Seq<char>>, count: nat, p: int, i: usize)
    requires
        count <= commands.len(),
        count <= usize::MAX,
        0 <= p < launch(commands, count).len(),
    ensures
        !outputs(launch(commands, count)[p], i),
    decreases count,
{
    if count > 0 {
        let before = launch(commands, (count - 1) as nat);
        if p < before.len() {
            lemma_launch_holds_no_output(commands, (count - 1) as nat, p, i);
        }
    }
}

/// A closing line that stands before a position still does so in a longer log.
pub proof fn lemma_closed_before_grows(
    log: Seq<EffectView>,
    more: Seq<EffectView>,
    p: int,
    wider: int,
    index: usize,
)
    requires
        closed_before(log, p, index),
        p <= wider,
    ensures
        closed_before(log + more, wider, index),
{
    let q = choose|q: int| 0 <= q < p && q < log.len() && #[trigger] closes(log[q], index);
    assert(closes((log + more)[q], index));
}

/// A start marker that stands before a position still does so in a longer log.
pub proof fn lemma_started_before_grows(
    log: Seq<EffectView>,
    more: Seq<EffectView>,
    p: int,
    wider: int,
    index: usize,
)
    requires
        started_before(log, p, index),
        p <= wider,
    ensures
        started_before(log + more, wider, index),
{
    let q = choose|q: int| 0 <= q < p && q < log.len() && #[trigger] starts(log[q], index);
    assert(starts((log + more)[q], index));
}

/// A job whose gate does not match stays gated whatever is reported, and its course is
/// empty: no line is logged for it and no action is asked for.
pub proof fn lemma_unmatched_job_is_silent(job: JobView, reports: Seq<Report>)
    ensures
        course(job, false, reports).effects == Seq::<EffectView>::empty(),
        course(job, false, reports).after == start_spec(job, false).after,
        course(job, false, reports).after.stage == Stage::Gated,
    decreases reports.len(),
{
    let opened = start_spec(job, false);
    if reports.len() > 0 {
        lemma_unmatched_job_is_silent(job, reports.drop_last());
        let before = run(opened.after, reports.drop_last());
        assert(course(job, false, reports.drop_last()).effects =~= opened.effects
            + before.effects);
    }
}

/// Two events are the same, or both are a line of output.
pub open spec fn same_but_output(a: EventView, b: EventView) -> bool {
    a == b || (a is Line && b is Line)
}

/// Two runs of reports are about the same commands in the same order and report the
/// same, the text of output lines set aside.
pub open spec fn alike_reports(a: Seq<Report>, b: Seq<Report>) -> bool {
    &&& a.len() == b.len()
    &&& forall|i: int|
        0 <= i < a.len() ==> (#[trigger] a[i]).index == b[i].index && same_but_output(
            a[i].event,
            b[i].event,
        )
}

/// Two effects are the same, or both log a line of output of the same command.
pub open spec fn alike(a: EffectView, b: EffectView) -> bool {
    a == b || (a matches EffectView::Log(x) && b matches EffectView::Log(y) && x.role == y.role
        && x.role is Output)
}

/// Two logs have the same length and are alike effect by effect.
pub open spec fn alike_logs(a: Seq<EffectView>, b: Seq<EffectView>) -> bool {
    &&& a.len() == b.len()
    &&& forall|p: int| 0 <= p < a.len() ==> alike(#[trigger] a[p], b[p])
}

/// A step answers alike reports alike.
proof fn lemma_alike_step(d: DispatcherView, index: usize, a: EventView, b: EventView)
    requires
        same_but_output(a, b),
    ensures
        dispatch(d, index, a).after == dispatch(d, index, b).after,
        alike_logs(dispatch(d, index, a).effects, dispatch(d, index, b).effects),
{
}

/// Alike reports lead to the same state by alike logs.
proof fn lemma_alike_run(d: DispatcherView, a: Seq<Report>, b: Seq<Report>)
    requires
        alike_reports(a, b),
    ensures
        run(d, a).after == run(d, b).after,
        alike_logs(run(d, a).effects, run(d, b).effects),
    decreases a.len(),
{
    if a.len() > 0 {
        lemma_alike_run(d, a.drop_last(), b.drop_last());
        lemma_alike_step(
            run(d, a.drop_last()).after,
            a.last().index,
            a.last().event,
            b.last().event,
        );
    }
}

/// A job that is run again takes the same course.
///
/// Two runs of the same job on the same answer of its gate, whose reports are alike,
/// end in the same state, and their logs have the same length and agree effect by
/// effect: the same lines with the same roles and the same actions in the same
/// order, and the same text in every line but those of the commands' output.
pub proof fn lemma_alike_runs_take_the_same_course(
    job: JobView,
    matched: bool,
    first: Seq<Report>,
    second: Seq<Report>,
)
    requires
        alike_reports(first, second),
    ensures
        course(job, matched, first).after == course(job, matched, second).after,
        alike_logs(course(job, matched, first).effects, course(job, matched, second).effects),
{
    let opened = start_spec(job, matched);
    lemma_alike_run(opened.after, first, second);
}

/// The reports that tell of something other than a line of output, in their order.
pub open spec fn without_lines(reports: Seq<Report>) -> Seq<Report>
    decreases reports.len(),
{
    if reports.len() == 0 {
        Seq::<Report>::empty()
    } else if reports.last().event is Line {
        without_lines(reports.drop_last())
    } else {
        without_lines(reports.drop_last()).push(reports.last())
    }
}

/// The lines of a log that are not lines of output, in their order.
pub open spec fn frame(log: Seq<EffectView>) -> Seq<RecordView>
    decreases log.len(),
{
    if log.len() == 0 {
        Seq::<RecordView>::empty()
    } else {
        let before = frame(log.drop_last());
        match log.last() {
            EffectView::Log(record) => if record.role is Output {
                before
            } else {
                before.push(record)
            },
            _ => before,
        }
    }
}

/// The frame of a log made of two parts is made of the frames of the parts.
proof fn lemma_frame_concat(first: Seq<EffectView>, second: Seq<EffectView>)
    ensures
        frame(first + second) == frame(first) + frame(second),
    decreases second.len(),
{
    if second.len() == 0 {
        assert(first + second =~= first);
    } else {
        lemma_frame_concat(first, second.drop_last());
        assert((first + second).drop_last() =~= first + second.drop_last());
    }
}

/// A report of a line of output changes no state and adds nothing to the frame.
proof fn lemma_line_leaves_the_frame(d: DispatcherView, index: usize, event: EventView)
    requires
        event is Line,
    ensures
        dispatch(d, index, event).after == d,
        frame(dispatch(d, index, event).effects) == Seq::<RecordView>::empty(),
{
    let o = dispatch(d, index, event);
    if d.stage == Stage::Running && index < d.slots.len() {
        assert(o.after.slots =~= d.slots);
        reveal_with_fuel(frame, 3);
        if o.effects.len() == 2 {
            assert(o.effects.drop_last().drop_last() =~= Seq::<EffectView>::empty());
        }
    }
}

/// Leaving the lines of output out of the reports leads to the same state by a log
/// with the same frame.
proof fn lemma_frame_run(d: DispatcherView, reports: Seq<Report>)
    ensures
        run(d, reports).after == run(d, without_lines(reports)).after,
        frame(run(d, reports).effects) == frame(run(d, without_lines(reports)).effects),
    decreases reports.len(),
{
    if reports.len() > 0 {
        let before = run(d, reports.drop_last());
        let kept = without_lines(reports.drop_last());
        let last = reports.last();
        lemma_frame_run(d, reports.drop_last());
        lemma_frame_concat(before.effects, dispatch(before.after, last.index, last.event).effects);
        if last.event is Line {
            lemma_line_leaves_the_frame(before.after, last.index, last.event);
        } else {
            assert(kept.push(last).drop_last() =~= kept);
            lemma_frame_concat(
                run(d, kept).effects,
                dispatch(run(d, kept).after, last.index, last.event).effects,
            );
        }
    }
}

/// What a job logs besides the output of its commands does not depend on that output.
///
/// Two runs of the same job on the same answer of its gate, whose reports are the same
/// once the lines of output are left out, end in the same state, and their logs hold
/// the same lines in the same order once the lines of output are left out.
pub proof fn lemma_frame_does_not_depend_on_output(
    job: JobView,
    matched: bool,
    first: Seq<Report>,
    second: Seq<Report>,
)
    requires
        without_lines(first) == without_lines(second),
    ensures
        course(job, matched, first).after == course(job, matched, second).after,
        frame(course(job, matched, first).effects) == frame(
            course(job, matched, second).effects,
        ),
{
    let opened = start_spec(job, matched);
    lemma_frame_run(opened.after, first);
    lemma_frame_run(opened.after, second);
    lemma_frame_concat(opened.effects, run(opened.after, first).effects);
    lemma_frame_concat(opened.effects, run(opened.after, second).effects);
}

} // verus!

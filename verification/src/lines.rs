//! The lines of a command: they lie between the command's markers and keep the order
//! in which they were read.

use crate::course::{
    closes, course, finishes, hands_over, lemma_launch, lemma_launch_holds_no_output,
    lemma_started_before_grows, lemma_step, lemma_step_lines, outputs, run, started_before,
    starts, summary, summary_of_lines, Report,
};
use crate::dispatcher::{dispatch, launch, start_spec, DispatcherView, EffectView, Stage};
use crate::job::JobView;
use crate::logger::{colour_line, Role};
use crate::runner::{EventView, Phase};
use vstd::prelude::*;

verus! {

/// Every line that a command wrote comes behind the command's start marker.
pub open spec fn written_after_started(log: Seq<EffectView>) -> bool {
    forall|p: int, i: usize|
        0 <= p < log.len() && #[trigger] outputs(log[p], i) ==> started_before(log, p, i)
}

/// Every line that a command wrote comes before the command's closing line.
pub open spec fn written_before_closed(log: Seq<EffectView>) -> bool {
    forall|p: int, q: int, i: usize|
        0 <= p < log.len() && 0 <= q < log.len() && #[trigger] outputs(log[p], i)
            && #[trigger] closes(log[q], i) ==> p < q
}

/// The start marker of a command comes before the command's closing line.
pub open spec fn started_before_closed(log: Seq<EffectView>) -> bool {
    forall|p: int, q: int, i: usize|
        0 <= p < log.len() && 0 <= q < log.len() && #[trigger] starts(log[p], i)
            && #[trigger] closes(log[q], i) ==> p < q
}

/// A command that has been begun has its start marker in the log.
spec fn started_if_begun(d: DispatcherView, log: Seq<EffectView>) -> bool {
    forall|i: int|
        0 <= i < d.slots.len() && (#[trigger] d.slots[i]).phase != Phase::Idle ==> started_before(
            log,
            log.len() as int,
            i as usize,
        )
}

/// A command whose closing line is logged is finished.
spec fn finished_if_closed(d: DispatcherView, log: Seq<EffectView>) -> bool {
    forall|q: int, i: usize|
        0 <= q < log.len() && #[trigger] closes(log[q], i) ==> i < d.slots.len()
            && d.slots[i as int].phase == Phase::Finished
}

/// What holds of the lines of each command at every point of a course.
#[verifier::opaque]
spec fn framed(d: DispatcherView, log: Seq<EffectView>) -> bool {
    &&& d.slots.len() <= usize::MAX
    &&& started_if_begun(d, log)
    &&& finished_if_closed(d, log)
    &&& written_after_started(log)
    &&& written_before_closed(log)
    &&& started_before_closed(log)
}

/// A job starts with its lines framed.
proof fn lemma_framed_start(job: JobView, matched: bool)
    requires
        job.commands.len() <= usize::MAX,
    ensures
        framed(start_spec(job, matched).after, start_spec(job, matched).effects),
{
    reveal(framed);
    let o = start_spec(job, matched);
    let n = job.commands.len();
    if matched && n > 0 {
        if job.concurrent {
            lemma_launch(job.commands, n);
            assert forall|p: int, i: usize| 0 <= p < o.effects.len() implies !#[trigger] outputs(
                o.effects[p],
                i,
            ) by {
                if p >= 1 {
                    let at = p - 1;
                    if outputs(o.effects[p], i) {
                        lemma_launch_holds_no_output(job.commands, n, at, i);
                    }
                }
            }
            assert forall|i: int|
                0 <= i < o.after.slots.len() && (#[trigger] o.after.slots[i]).phase
                    != Phase::Idle implies started_before(
                o.effects,
                o.effects.len() as int,
                i as usize,
            ) by {
                assert(o.effects[1 + 2 * i] == launch(job.commands, n)[2 * i]);
            }
        } else {
            assert(starts(o.effects[1], 0));
        }
    }
}

/// A step keeps the lines framed.
proof fn lemma_framed_step(
    d: DispatcherView,
    log: Seq<EffectView>,
    index: usize,
    fin: bool,
    over: bool,
    after: DispatcherView,
    new: Seq<EffectView>,
)
    requires
        framed(d, log),
        summary(d, index, fin, over, after, new),
        summary_of_lines(d, index, fin, over, new),
    ensures
        framed(after, log + new),
{
    reveal(framed);
    let all = log + new;
    let n = log.len() as int;
    assert forall|i: int|
        0 <= i < after.slots.len() && (#[trigger] after.slots[i]).phase
            != Phase::Idle implies started_before(all, all.len() as int, i as usize) by {
        if over && i == index + 1 {
            assert(all[n + 1] == new[1]);
        } else {
            lemma_started_before_grows(log, new, n, all.len() as int, i as usize);
        }
    }
    assert forall|p: int, i: usize|
        0 <= p < all.len() && #[trigger] outputs(all[p], i) implies started_before(all, p, i) by {
        if p < n {
            lemma_started_before_grows(log, new, p, p, i);
        }
    }
}

/// Every course keeps the lines framed.
proof fn lemma_framed_run(d: DispatcherView, log: Seq<EffectView>, reports: Seq<Report>)
    requires
        framed(d, log),
        d.slots.len() <= usize::MAX,
    ensures
        framed(run(d, reports).after, log + run(d, reports).effects),
        run(d, reports).after.slots.len() == d.slots.len(),
    decreases reports.len(),
{
    if reports.len() > 0 {
        let before = run(d, reports.drop_last());
        let index = reports.last().index;
        let event = reports.last().event;
        lemma_framed_run(d, log, reports.drop_last());
        lemma_step(before.after, index, event);
        lemma_step_lines(before.after, index, event);
        let last = dispatch(before.after, index, event);
        lemma_framed_step(
            before.after,
            log + before.effects,
            index,
            finishes(before.after, index, event),
            hands_over(before.after, index, event),
            last.after,
            last.effects,
        );
        assert(log + run(d, reports).effects =~= (log + before.effects) + last.effects);
    }
}

/// The lines of a command lie between its markers.
///
/// Whatever is reported, and whether the commands run one after the other or at the
/// same time: every line that a command wrote is logged behind the command's start
/// marker and before its closing line, and the start marker before the closing line.
pub proof fn lemma_lines_lie_between_the_markers(
    job: JobView,
    matched: bool,
    reports: Seq<Report>,
)
    requires
        job.commands.len() <= usize::MAX,
    ensures
        written_after_started(course(job, matched, reports).effects),
        written_before_closed(course(job, matched, reports).effects),
        started_before_closed(course(job, matched, reports).effects),
{
    let opened = start_spec(job, matched);
    lemma_framed_start(job, matched);
    lemma_framed_run(opened.after, opened.effects, reports);
    reveal(framed);
}

/// The texts of the lines of output of the command at `index` in `log`, in the order
/// in which they are logged.
pub open spec fn lines_logged(log: Seq<EffectView>, index: usize) -> Seq<Seq<char>>
    decreases log.len(),
{
    if log.len() == 0 {
        Seq::<Seq<char>>::empty()
    } else {
        let before = lines_logged(log.drop_last(), index);
        match log.last() {
            EffectView::Log(record) => if record.role == Role::Output(index) {
                before.push(record.text)
            } else {
                before
            },
            _ => before,
        }
    }
}

/// The report tells of a line that the command at `index` wrote while the job, in the
/// state `d`, was reading that command's output.
pub open spec fn reads_line(d: DispatcherView, report: Report, index: usize) -> bool {
    &&& report.index == index
    &&& report.event is Line
    &&& d.stage == Stage::Running
    &&& index < d.slots.len()
    &&& d.slots[index as int].phase == Phase::Reading
}

/// The lines that the command at `index` wrote, as the reports tell of them one after
/// the other, each formatted for the log.
pub open spec fn lines_read(d: DispatcherView, reports: Seq<Report>, index: usize) -> Seq<
    Seq<char>,
>
    decreases reports.len(),
{
    if reports.len() == 0 {
        Seq::<Seq<char>>::empty()
    } else {
        let before = lines_read(d, reports.drop_last(), index);
        if reads_line(run(d, reports.drop_last()).after, reports.last(), index) {
            match reports.last().event {
                EventView::Line(line) => before.push(colour_line(index, line)),
                _ => before,
            }
        } else {
            before
        }
    }
}

/// The lines of output in a log made of two parts are those of the parts.
proof fn lemma_lines_logged_concat(first: Seq<EffectView>, second: Seq<EffectView>, index: usize)
    ensures
        lines_logged(first + second, index) == lines_logged(first, index) + lines_logged(
            second,
            index,
        ),
    decreases second.len(),
{
    if second.len() == 0 {
        assert(lines_logged(first, index) + lines_logged(second, index) =~= lines_logged(
            first,
            index,
        ));
    } else {
        lemma_lines_logged_concat(first, second.drop_last(), index);
        assert((first + second).drop_last() =~= first + second.drop_last());
        assert(lines_logged(first + second, index) =~= lines_logged(first, index)
            + lines_logged(second, index));
    }
}

/// A log without a line of output of the command at `index` gives no such line.
proof fn lemma_lines_logged_none(log: Seq<EffectView>, index: usize)
    requires
        forall|p: int| 0 <= p < log.len() ==> !#[trigger] outputs(log[p], index),
    ensures
        lines_logged(log, index) == Seq::<Seq<char>>::empty(),
    decreases log.len(),
{
    if log.len() > 0 {
        lemma_lines_logged_none(log.drop_last(), index);
        assert(!outputs(log[log.len() - 1], index));
    }
}

/// A step logs the line it is told of, and no other line of output.
proof fn lemma_step_logs_the_line(d: DispatcherView, report: Report, index: usize)
    requires
        d.slots.len() <= usize::MAX,
    ensures
        lines_logged(dispatch(d, report.index, report.event).effects, index) == if reads_line(
            d,
            report,
            index,
        ) {
            match report.event {
                EventView::Line(line) => seq![colour_line(index, line)],
                _ => Seq::<Seq<char>>::empty(),
            }
        } else {
            Seq::<Seq<char>>::empty()
        },
{
    let new = dispatch(d, report.index, report.event).effects;
    lemma_step_lines(d, report.index, report.event);
    if reads_line(d, report, index) {
        reveal_with_fuel(lines_logged, 3);
    } else {
        lemma_lines_logged_none(new, index);
    }
}

/// The lines logged in the course of the reports are the lines read.
proof fn lemma_lines_run(d: DispatcherView, reports: Seq<Report>, index: usize)
    requires
        d.slots.len() <= usize::MAX,
    ensures
        lines_logged(run(d, reports).effects, index) == lines_read(d, reports, index),
        run(d, reports).after.slots.len() == d.slots.len(),
    decreases reports.len(),
{
    if reports.len() > 0 {
        let before = run(d, reports.drop_last());
        lemma_lines_run(d, reports.drop_last(), index);
        lemma_step(before.after, reports.last().index, reports.last().event);
        lemma_step_logs_the_line(before.after, reports.last(), index);
        let last = dispatch(before.after, reports.last().index, reports.last().event);
        lemma_lines_logged_concat(before.effects, last.effects, index);
    }
}

/// The lines of a command are logged in the order in which they are read.
///
/// Whatever is reported: the lines of output that the log holds for a command are the
/// lines that were reported of it while its output was read, one for one and in the
/// order of the reports, each carrying the command's index and colour.
pub proof fn lemma_lines_keep_their_order(
    job: JobView,
    matched: bool,
    reports: Seq<Report>,
    index: usize,
)
    requires
        job.commands.len() <= usize::MAX,
    ensures
        lines_logged(course(job, matched, reports).effects, index) == lines_read(
            start_spec(job, matched).after,
            reports,
            index,
        ),
{
    let opened = start_spec(job, matched);
    lemma_lines_run(opened.after, reports, index);
    lemma_lines_logged_concat(opened.effects, run(opened.after, reports).effects, index);
    assert forall|p: int| 0 <= p < opened.effects.len() implies !#[trigger] outputs(
        opened.effects[p],
        index,
    ) by {
        let n = job.commands.len();
        if matched && n > 0 && job.concurrent && p >= 1 {
            let at = p - 1;
            lemma_launch_holds_no_output(job.commands, n, at, index);
        }
    }
    lemma_lines_logged_none(opened.effects, index);
    assert(Seq::<Seq<char>>::empty() + lines_read(opened.after, reports, index) =~= lines_read(
        opened.after,
        reports,
        index,
    ));
}

} // verus!

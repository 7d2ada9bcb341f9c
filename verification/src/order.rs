//! The order of the commands of a job: one after the other in a sequential job, all
//! started together in a concurrent one, and the end of the job behind them all.

use crate::course::{
    closed_before, closes, course, ends_job, finishes, hands_over, lemma_closed_before_grows,
    lemma_launch, lemma_step, run, started_before, starts, summary, Report,
};
use crate::dispatcher::{dispatch, start_spec, DispatcherView, EffectView};
use crate::job::JobView;
use crate::runner::Phase;
use vstd::prelude::*;

verus! {

/// In a sequential job a command is begun only once its predecessor is finished.
spec fn chained(d: DispatcherView) -> bool {
    !d.concurrent ==> forall|i: int, j: int|
        0 <= i && j == i + 1 && j < d.slots.len() && (#[trigger] d.slots[j]).phase
            != Phase::Idle ==> (#[trigger] d.slots[i]).phase == Phase::Finished
}

/// A command whose start marker is logged has been begun.
spec fn begun_if_started(d: DispatcherView, log: Seq<EffectView>) -> bool {
    forall|p: int, j: usize|
        0 <= p < log.len() && #[trigger] starts(log[p], j) ==> j < d.slots.len()
            && d.slots[j as int].phase != Phase::Idle
}

/// Every closing line comes before the successor's start marker.
pub open spec fn closed_then_started(log: Seq<EffectView>) -> bool {
    forall|q: int, p: int, i: usize, j: usize|
        0 <= q < log.len() && 0 <= p < log.len() && j == i + 1 && #[trigger] closes(log[q], i)
            && #[trigger] starts(log[p], j) ==> q < p
}

/// Every start marker but that of the first command comes behind the closing line of
/// the predecessor.
pub open spec fn started_after_closed(log: Seq<EffectView>) -> bool {
    forall|p: int, j: usize|
        0 <= p < log.len() && j > 0 && #[trigger] starts(log[p], j) ==> closed_before(
            log,
            p,
            (j - 1) as usize,
        )
}

/// Every start marker comes before every closing line.
pub open spec fn started_before_any_closed(log: Seq<EffectView>) -> bool {
    forall|p: int, q: int, j: usize, i: usize|
        0 <= q < log.len() && 0 <= p < log.len() && #[trigger] starts(log[p], j)
            && #[trigger] closes(log[q], i) ==> p < q
}

/// A finished command has its closing line in the log.
spec fn closed_if_finished(d: DispatcherView, log: Seq<EffectView>) -> bool {
    forall|i: int|
        0 <= i < d.slots.len() && (#[trigger] d.slots[i]).phase == Phase::Finished
            ==> closed_before(log, log.len() as int, i as usize)
}

/// The end of the job comes behind the closing line of each of its `count` commands.
pub open spec fn ended_after_all_closed(log: Seq<EffectView>, count: nat) -> bool {
    forall|p: int, i: usize|
        0 <= p < log.len() && ends_job(log[p]) && i < count ==> #[trigger] closed_before(
            log,
            p,
            i,
        )
}

/// What holds of the state and the log at every point of a course.
#[verifier::opaque]
spec fn orderly(d: DispatcherView, log: Seq<EffectView>) -> bool {
    &&& d.slots.len() <= usize::MAX
    &&& chained(d)
    &&& begun_if_started(d, log)
    &&& !d.concurrent ==> closed_then_started(log)
    &&& !d.concurrent ==> started_after_closed(log)
    &&& d.concurrent ==> started_before_any_closed(log)
    &&& closed_if_finished(d, log)
    &&& ended_after_all_closed(log, d.slots.len())
}

/// A job starts orderly.
proof fn lemma_orderly_start(job: JobView, matched: bool)
    requires
        job.commands.len() <= usize::MAX,
    ensures
        orderly(start_spec(job, matched).after, start_spec(job, matched).effects),
        start_spec(job, matched).after.concurrent == job.concurrent,
        start_spec(job, matched).after.slots.len() == job.commands.len(),
{
    reveal(orderly);
    let n = job.commands.len();
    if matched && n > 0 && job.concurrent {
        lemma_launch(job.commands, n);
    }
}

/// A step keeps the commands of a sequential job chained.
proof fn lemma_step_chained(
    d: DispatcherView,
    index: usize,
    fin: bool,
    over: bool,
    after: DispatcherView,
    new: Seq<EffectView>,
)
    requires
        chained(d),
        summary(d, index, fin, over, after, new),
    ensures
        chained(after),
{
}

/// A step logs a start marker only for the command it begins.
proof fn lemma_step_begun(
    d: DispatcherView,
    log: Seq<EffectView>,
    index: usize,
    fin: bool,
    over: bool,
    after: DispatcherView,
    new: Seq<EffectView>,
)
    requires
        begun_if_started(d, log),
        summary(d, index, fin, over, after, new),
    ensures
        begun_if_started(after, log + new),
{
}

/// A step of a sequential job logs the closing line of a command before the start
/// marker of its successor.
proof fn lemma_step_sequential(
    d: DispatcherView,
    log: Seq<EffectView>,
    index: usize,
    fin: bool,
    over: bool,
    after: DispatcherView,
    new: Seq<EffectView>,
)
    requires
        !d.concurrent,
        chained(d),
        begun_if_started(d, log),
        closed_then_started(log),
        started_after_closed(log),
        summary(d, index, fin, over, after, new),
    ensures
        closed_then_started(log + new),
        started_after_closed(log + new),
{
    let all = log + new;
    let n = log.len() as int;
    assert forall|p: int, j: usize|
        0 <= p < all.len() && j > 0 && #[trigger] starts(all[p], j) implies closed_before(
        all,
        p,
        (j - 1) as usize,
    ) by {
        if p < n {
            lemma_closed_before_grows(log, new, p, p, (j - 1) as usize);
        } else {
            assert(all[n] == new[0]);
        }
    }
}

/// A step of a concurrent job logs no start marker.
proof fn lemma_step_concurrent(
    d: DispatcherView,
    log: Seq<EffectView>,
    index: usize,
    fin: bool,
    over: bool,
    after: DispatcherView,
    new: Seq<EffectView>,
)
    requires
        d.concurrent,
        started_before_any_closed(log),
        summary(d, index, fin, over, after, new),
    ensures
        started_before_any_closed(log + new),
{
}

/// A step that finishes a command logs its closing line, and one that ends the job
/// does so behind the closing line of every command.
proof fn lemma_step_closed(
    d: DispatcherView,
    log: Seq<EffectView>,
    index: usize,
    fin: bool,
    over: bool,
    after: DispatcherView,
    new: Seq<EffectView>,
)
    requires
        closed_if_finished(d, log),
        ended_after_all_closed(log, d.slots.len()),
        summary(d, index, fin, over, after, new),
    ensures
        closed_if_finished(after, log + new),
        ended_after_all_closed(log + new, after.slots.len()),
{
    let all = log + new;
    let n = log.len() as int;
    if fin {
        assert(all[n] == new[0]);
    }
    assert forall|i: int|
        0 <= i < after.slots.len() && (#[trigger] after.slots[i]).phase
            == Phase::Finished implies closed_before(all, all.len() as int, i as usize) by {
        if i != index || !fin {
            lemma_closed_before_grows(log, new, n, all.len() as int, i as usize);
        }
    }
    assert forall|p: int, i: usize|
        0 <= p < all.len() && ends_job(all[p]) && i < after.slots.len() implies #[trigger] closed_before(
        all,
        p,
        i,
    ) by {
        if p < n {
            lemma_closed_before_grows(log, new, p, p, i);
        } else if i != index {
            assert(after.slots[i as int].phase == Phase::Finished);
        }
    }
}

/// A step keeps a course orderly.
proof fn lemma_orderly_step(
    d: DispatcherView,
    log: Seq<EffectView>,
    index: usize,
    fin: bool,
    over: bool,
    after: DispatcherView,
    new: Seq<EffectView>,
)
    requires
        orderly(d, log),
        summary(d, index, fin, over, after, new),
    ensures
        orderly(after, log + new),
{
    reveal(orderly);
    lemma_step_chained(d, index, fin, over, after, new);
    lemma_step_begun(d, log, index, fin, over, after, new);
    if d.concurrent {
        lemma_step_concurrent(d, log, index, fin, over, after, new);
    } else {
        lemma_step_sequential(d, log, index, fin, over, after, new);
    }
    lemma_step_closed(d, log, index, fin, over, after, new);
}

/// Every course is orderly.
proof fn lemma_orderly_run(d: DispatcherView, log: Seq<EffectView>, reports: Seq<Report>)
    requires
        orderly(d, log),
        d.slots.len() <= usize::MAX,
    ensures
        orderly(run(d, reports).after, log + run(d, reports).effects),
        run(d, reports).after.concurrent == d.concurrent,
        run(d, reports).after.slots.len() == d.slots.len(),
    decreases reports.len(),
{
    if reports.len() > 0 {
        let before = run(d, reports.drop_last());
        let index = reports.last().index;
        let event = reports.last().event;
        lemma_orderly_run(d, log, reports.drop_last());
        lemma_step(before.after, index, event);
        let last = dispatch(before.after, index, event);
        lemma_orderly_step(
            before.after,
            log + before.effects,
            index,
            finishes(before.after, index, event),
            hands_over(before.after, index, event),
            last.after,
            last.effects,
        );
        assert(log + run(d, reports).effects =~= (log + before.effects) + last.effects);
    }
}

/// Every course is orderly.
proof fn lemma_orderly_course(job: JobView, matched: bool, reports: Seq<Report>)
    requires
        job.commands.len() <= usize::MAX,
    ensures
        orderly(course(job, matched, reports).after, course(job, matched, reports).effects),
        course(job, matched, reports).after.concurrent == job.concurrent,
        course(job, matched, reports).after.slots.len() == job.commands.len(),
{
    let opened = start_spec(job, matched);
    lemma_orderly_start(job, matched);
    lemma_orderly_run(opened.after, opened.effects, reports);
}

/// The commands of a sequential job follow one another.
///
/// Whatever is reported, and in whatever order: the closing line of a command, be it
/// its end marker or the error it was abandoned with, is logged before the start
/// marker of the next command, and no command but the first has its start marker
/// logged without the closing line of the command before it standing earlier in the
/// log.
pub proof fn lemma_sequential_commands_follow_one_another(
    job: JobView,
    matched: bool,
    reports: Seq<Report>,
)
    requires
        !job.concurrent,
        job.commands.len() <= usize::MAX,
    ensures
        closed_then_started(course(job, matched, reports).effects),
        started_after_closed(course(job, matched, reports).effects),
{
    lemma_orderly_course(job, matched, reports);
    reveal(orderly);
}

/// The start marker of each of the first `count` commands stands among the first
/// `upto` effects of the log.
pub open spec fn all_started_within(log: Seq<EffectView>, count: nat, upto: int) -> bool {
    forall|i: usize| i < count ==> #[trigger] started_before(log, upto, i)
}

/// The commands of a concurrent job start together.
///
/// Where its gate matches, the start marker of every command is logged when the job
/// starts, before anything is reported; and whatever is reported then, every start
/// marker stands in the log before every closing line.
pub proof fn lemma_concurrent_commands_start_together(
    job: JobView,
    matched: bool,
    reports: Seq<Report>,
)
    requires
        job.concurrent,
        job.commands.len() <= usize::MAX,
    ensures
        matched ==> all_started_within(
            course(job, matched, reports).effects,
            job.commands.len(),
            start_spec(job, matched).effects.len() as int,
        ),
        started_before_any_closed(course(job, matched, reports).effects),
{
    lemma_orderly_course(job, matched, reports);
    reveal(orderly);
    let opened = start_spec(job, matched);
    let log = course(job, matched, reports).effects;
    let n = job.commands.len();
    if matched && n > 0 {
        lemma_launch(job.commands, n);
        assert forall|i: usize| i < n implies #[trigger] started_before(
            log,
            opened.effects.len() as int,
            i,
        ) by {
            let p = 1 + 2 * (i as int);
            assert(log[p] == opened.effects[p]);
        }
    }
}

/// The end of a job is logged only after every command has been closed.
///
/// Whatever is reported, and whether the commands run one after the other or at the
/// same time: where the end of the job stands in the log, the closing line of each of
/// its commands stands before it.
pub proof fn lemma_job_ends_after_every_command(
    job: JobView,
    matched: bool,
    reports: Seq<Report>,
)
    requires
        job.commands.len() <= usize::MAX,
    ensures
        ended_after_all_closed(course(job, matched, reports).effects, job.commands.len()),
{
    lemma_orderly_course(job, matched, reports);
    reveal(orderly);
}

} // verus!

//! The dispatcher of one job.
//!
//! A job waits at its gate. Where its gate does not match, nothing is logged and
//! nothing runs. Where it matches, the job's start is logged and its commands run, one
//! after the other in the order declared or all at the same time, and once every
//! command has reached completion the job's end is logged.
//!
//! The dispatcher does no work itself. It answers each report about a command with the
//! lines to log and the actions to take, in the order in which they are due.

use crate::gate::{code_of, gate, gate_matches, kind_code, Kind, Observation};
use crate::job::{Job, JobView};
use crate::logger::{info, info_line, Record, RecordView, Role};
use crate::runner::{
    advance, begin, react, run_command, Action, ActionView, Event, EventView, Phase, Reaction,
    ReactionView,
};
use vstd::prelude::*;
use vstd::string::*;

verus! {

/// The two states of a job.
#[derive(Clone, Copy, PartialEq, Eq, Structural, Debug)]
pub enum Stage {
    /// Waiting at its gate. A job whose gate did not match stays here.
    Gated,
    /// Its gate matched. The job has left this state once all its commands are finished.
    Running,
}

/// One thing for the caller to do.
#[derive(PartialEq, Eq, Debug)]
pub enum Effect {
    /// Write this line.
    Log(Record),
    /// Take this action for the command at `index`.
    Perform { index: usize, action: Action },
}

pub enum EffectView {
    Log(RecordView),
    Perform { index: usize, action: ActionView },
}

impl View for Effect {
    type V = EffectView;

    open spec fn view(&self) -> EffectView {
        match self {
            Effect::Log(record) => EffectView::Log(record@),
            Effect::Perform { index, action } => EffectView::Perform {
                index: *index,
                action: action@,
            },
        }
    }
}

/// The views of effects.
pub open spec fn effect_views(effects: Seq<Effect>) -> Seq<EffectView> {
    Seq::new(effects.len(), |i: int| effects[i]@)
}

/// A command of the job and where it stands.
#[derive(PartialEq, Eq, Debug)]
struct Slot {
    command: String,
    phase: Phase,
}

pub struct SlotView {
    pub command: Seq<char>,
    pub phase: Phase,
}

/// The state of one job: what it was declared as, its stage, and where each of its
/// commands stands.
#[derive(PartialEq, Eq, Debug)]
pub struct Dispatcher {
    kind: Kind,
    target: String,
    concurrent: bool,
    stage: Stage,
    slots: Vec<Slot>,
}

pub struct DispatcherView {
    pub kind: Kind,
    pub target: Seq<char>,
    pub concurrent: bool,
    pub stage: Stage,
    pub slots: Seq<SlotView>,
}

impl View for Dispatcher {
    type V = DispatcherView;

    closed spec fn view(&self) -> DispatcherView {
        DispatcherView {
            kind: self.kind,
            target: self.target@,
            concurrent: self.concurrent,
            stage: self.stage,
            slots: slot_views(self.slots@),
        }
    }
}

spec fn slot_views(slots: Seq<Slot>) -> Seq<SlotView> {
    Seq::new(slots.len(), |i: int| SlotView { command: slots[i].command@, phase: slots[i].phase })
}

/// A state and the effects that led to it.
pub struct Outcome {
    pub after: DispatcherView,
    pub effects: Seq<EffectView>,
}

/// The line logged when a job's gate has matched.
pub open spec fn job_start(kind: Kind, target: Seq<char>) -> RecordView {
    RecordView { role: Role::JobStart, text: info_line("[+] "@ + code_of(kind) + " "@ + target) }
}

/// The line logged when every command of a job has reached completion.
pub open spec fn job_end(kind: Kind, target: Seq<char>) -> RecordView {
    RecordView { role: Role::JobEnd, text: info_line("[-] "@ + code_of(kind) + " "@ + target) }
}

/// The effects of one reaction for the command at `index`: its line, then its action.
pub open spec fn effects_of(index: usize, reaction: ReactionView) -> Seq<EffectView> {
    let logged = match reaction.record {
        Some(record) => seq![EffectView::Log(record)],
        None => Seq::<EffectView>::empty(),
    };
    let asked = match reaction.action {
        Some(action) => seq![EffectView::Perform { index, action }],
        None => Seq::<EffectView>::empty(),
    };
    logged + asked
}

/// Every command is finished.
pub open spec fn all_finished(slots: Seq<SlotView>) -> bool {
    forall|i: int| 0 <= i < slots.len() ==> (#[trigger] slots[i]).phase == Phase::Finished
}

/// The commands of a job, none of them begun.
pub open spec fn idle(commands: Seq<Seq<char>>) -> Seq<SlotView> {
    Seq::new(commands.len(), |i: int| SlotView { command: commands[i], phase: Phase::Idle })
}

/// The commands of a job, all of them begun.
pub open spec fn all_begun(commands: Seq<Seq<char>>) -> Seq<SlotView> {
    Seq::new(commands.len(), |i: int| SlotView { command: commands[i], phase: Phase::Spawning })
}

/// The slots with the command at `index` in `phase`.
pub open spec fn moved(slots: Seq<SlotView>, index: int, phase: Phase) -> Seq<SlotView> {
    slots.update(index, SlotView { command: slots[index].command, phase })
}

/// The effects of beginning the first `count` commands, in their order.
pub open spec fn launch(commands: Seq<Seq<char>>, count: nat) -> Seq<EffectView>
    decreases count,
{
    if count == 0 {
        Seq::<EffectView>::empty()
    } else {
        let last = (count - 1) as usize;
        launch(commands, (count - 1) as nat) + effects_of(last, begin(last, commands[count - 1]))
    }
}

/// The state a job starts in and what is due at once.
///
/// An unmatched gate leaves the job gated, with nothing to do. A matched gate logs the
/// job's start; then a sequential job begins its first command and a concurrent job
/// begins all of them. A job without commands ends where it starts.
pub open spec fn start_spec(job: JobView, matched: bool) -> Outcome {
    let gated = DispatcherView {
        kind: job.kind,
        target: job.target,
        concurrent: job.concurrent,
        stage: Stage::Gated,
        slots: idle(job.commands),
    };
    let opening = seq![EffectView::Log(job_start(job.kind, job.target))];
    if !matched {
        Outcome { after: gated, effects: Seq::<EffectView>::empty() }
    } else if job.commands.len() == 0 {
        Outcome {
            after: DispatcherView { stage: Stage::Running, ..gated },
            effects: opening + seq![EffectView::Log(job_end(job.kind, job.target))],
        }
    } else if job.concurrent {
        Outcome {
            after: DispatcherView {
                stage: Stage::Running,
                slots: all_begun(job.commands),
                ..gated
            },
            effects: opening + launch(job.commands, job.commands.len()),
        }
    } else {
        Outcome {
            after: DispatcherView {
                stage: Stage::Running,
                slots: moved(gated.slots, 0, Phase::Spawning),
                ..gated
            },
            effects: opening + effects_of(0, begin(0, job.commands[0])),
        }
    }
}

/// The state after the report `event` about the command at `index`, and what is due.
///
/// The report is answered as the command's phase asks. Where the answer finishes the
/// command, a sequential job begins its next command, and a job whose commands are
/// now all finished logs its end. A gated job and a report about no command of the
/// job change nothing.
pub open spec fn dispatch(d: DispatcherView, index: usize, event: EventView) -> Outcome {
    if d.stage != Stage::Running || index >= d.slots.len() {
        Outcome { after: d, effects: Seq::<EffectView>::empty() }
    } else {
        let slot = d.slots[index as int];
        let reaction = react(index, slot.command, slot.phase, event);
        let slots = moved(d.slots, index as int, reaction.phase);
        let own = effects_of(index, reaction);
        let next = index + 1;
        if slot.phase == Phase::Finished || reaction.phase != Phase::Finished {
            Outcome { after: DispatcherView { slots, ..d }, effects: own }
        } else if !d.concurrent && next < slots.len() && slots[next].phase == Phase::Idle {
            Outcome {
                after: DispatcherView { slots: moved(slots, next, Phase::Spawning), ..d },
                effects: own + effects_of(next as usize, begin(next as usize, slots[next].command)),
            }
        } else if all_finished(slots) {
            Outcome {
                after: DispatcherView { slots, ..d },
                effects: own + seq![EffectView::Log(job_end(d.kind, d.target))],
            }
        } else {
            Outcome { after: DispatcherView { slots, ..d }, effects: own }
        }
    }
}

/// Appends the effects of `reaction` for the command at `index`.
fn push_effects(effects: &mut Vec<Effect>, index: usize, reaction: Reaction)
    ensures
        effect_views(final(effects)@) == effect_views(old(effects)@) + effects_of(
            index,
            reaction@,
        ),
{
    let Reaction { phase: _, record, action } = reaction;
    if let Some(record) = record {
        effects.push(Effect::Log(record));
    }
    if let Some(action) = action {
        effects.push(Effect::Perform { index, action });
    }
}

/// The line for a job's start or end.
fn job_record(role: Role, sign: &str, kind: Kind, target: &str) -> (record: Record)
    ensures
        record@ == (RecordView {
            role,
            text: info_line(sign@ + code_of(kind) + " "@ + target@),
        }),
{
    let mut message = String::from_str(sign);
    message.append(kind_code(kind));
    message.append(" ");
    message.append(target);
    Record { role, text: info(message.as_str()) }
}

impl Dispatcher {
    /// The job's stage.
    pub fn stage(&self) -> (stage: Stage)
        ensures
            stage == self@.stage,
    {
        self.stage
    }

    /// The number of the job's commands.
    pub fn len(&self) -> (n: usize)
        ensures
            n == self@.slots.len(),
    {
        self.slots.len()
    }

    /// Where the command at `index` stands; nothing where the job has no such command.
    pub fn phase(&self, index: usize) -> (phase: Option<Phase>)
        ensures
            phase == if index < self@.slots.len() {
                Some(self@.slots[index as int].phase)
            } else {
                None
            },
    {
        if index < self.slots.len() {
            Some(self.slots[index].phase)
        } else {
            None
        }
    }

    /// Whether every command of the job is finished.
    pub fn is_finished(&self) -> (done: bool)
        ensures
            done == all_finished(self@.slots),
    {
        let mut i: usize = 0;
        while i < self.slots.len()
            invariant
                i <= self.slots.len(),
                forall|j: int| 0 <= j < i ==> (#[trigger] self@.slots[j]).phase == Phase::Finished,
            decreases self.slots.len() - i,
        {
            if self.slots[i].phase != Phase::Finished {
                proof {
                    assert(self@.slots[i as int].phase != Phase::Finished);
                }
                return false;
            }
            i += 1;
        }
        true
    }

    /// Answers the report `event` about the command at `index`.
    ///
    /// The effects are to be carried out in their order. Each action asked for is to be
    /// answered by one report about the same command.
    pub fn step(&mut self, index: usize, event: &Event) -> (effects: Vec<Effect>)
        ensures
            final(self)@ == dispatch(old(self)@, index, event@).after,
            effect_views(effects@) == dispatch(old(self)@, index, event@).effects,
    {
        let mut effects: Vec<Effect> = Vec::new();
        if self.stage != Stage::Running || index >= self.slots.len() {
            return effects;
        }
        let ghost d = self@;
        let was = self.slots[index].phase;
        let reaction = advance(index, self.slots[index].command.as_str(), was, event);
        let now = reaction.phase;
        self.slots[index].phase = now;
        let ghost slots = moved(d.slots, index as int, now);
        proof {
            assert(self@.slots =~= slots);
        }
        push_effects(&mut effects, index, reaction);
        if was != Phase::Finished && now == Phase::Finished {
            if !self.concurrent && index + 1 < self.slots.len() && self.slots[index + 1].phase
                == Phase::Idle {
                let next = index + 1;
                let first = run_command(next, self.slots[next].command.as_str());
                self.slots[next].phase = Phase::Spawning;
                proof {
                    assert(self@.slots =~= moved(slots, next as int, Phase::Spawning));
                }
                push_effects(&mut effects, next, first);
            } else if self.is_finished() {
                let closing = job_record(
                    Role::JobEnd,
                    "[-] ",
                    self.kind,
                    self.target.as_str(),
                );
                let ghost own = effect_views(effects@);
                effects.push(Effect::Log(closing));
                proof {
                    assert(effect_views(effects@) =~= own + seq![
                        EffectView::Log(job_end(d.kind, d.target)),
                    ]);
                }
            }
        }
        effects
    }
}

/// Holds what was seen against the condition of `job` and sets the job going.
///
/// Gives the job's dispatcher and the effects that are due at once, to be carried out
/// in their order. Where its gate does not match there are none, and none will follow.
pub fn start(job: Job, seen: &Observation) -> (opened: (Dispatcher, Vec<Effect>))
    ensures
        opened.0@ == start_spec(job@, gate_matches(job.kind, job.target@, seen@)).after,
        effect_views(opened.1@) == start_spec(
            job@,
            gate_matches(job.kind, job.target@, seen@),
        ).effects,
{
    let matched = gate(job.kind, job.target.as_str(), seen);
    let Job { kind, target, commands, concurrent } = job;
    let ghost listed = commands.deep_view();
    let n = commands.len();
    let mut effects: Vec<Effect> = Vec::new();
    if matched {
        let opening = job_record(Role::JobStart, "[+] ", kind, target.as_str());
        effects.push(Effect::Log(opening));
    }
    let ghost opening = effect_views(effects@);
    let mut slots: Vec<Slot> = Vec::new();
    let ghost mut launched: nat = 0;
    for command in it: commands
        invariant
            it.seq() == commands@,
            commands.deep_view() == listed,
            n == commands.len(),
            slots.len() == it.index(),
            launched == if matched && concurrent {
                it.index() as nat
            } else if matched && it.index() > 0 {
                1nat
            } else {
                0nat
            },
            forall|j: int|
                0 <= j < slots.len() ==> (#[trigger] slots@[j]).command@ == listed[j]
                    && slots@[j].phase == if j < launched {
                    Phase::Spawning
                } else {
                    Phase::Idle
                },
            effect_views(effects@) == opening + launch(listed, launched),
    {
        let index = slots.len();
        if matched && (concurrent || index == 0) {
            let first = run_command(index, command.as_str());
            push_effects(&mut effects, index, first);
            proof {
                assert(launch(listed, launched + 1) == launch(listed, launched) + effects_of(
                    index,
                    begin(index, listed[index as int]),
                ));
                assert(opening + launch(listed, launched) + effects_of(
                    index,
                    begin(index, listed[index as int]),
                ) =~= opening + launch(listed, launched + 1));
                launched = launched + 1;
            }
            slots.push(Slot { command, phase: Phase::Spawning });
        } else {
            slots.push(Slot { command, phase: Phase::Idle });
        }
    }
    if matched && n == 0 {
        let closing = job_record(Role::JobEnd, "[-] ", kind, target.as_str());
        effects.push(Effect::Log(closing));
        proof {
            assert(effect_views(effects@) =~= opening + seq![
                EffectView::Log(job_end(kind, target@)),
            ]);
        }
    }
    let stage = if matched {
        Stage::Running
    } else {
        Stage::Gated
    };
    let dispatcher = Dispatcher { kind, target, concurrent, stage, slots };
    proof {
        let expected = start_spec(job@, matched);
        assert(dispatcher@.slots =~= expected.after.slots);
        if matched && n > 0 && !concurrent {
            reveal_with_fuel(launch, 2);
        }
    }
    (dispatcher, effects)
}

} // verus!

//! The stages of one round of the fuzz loop, and the life of a test case.

use vstd::prelude::*;

verus! {

/// The stages that one round of the fuzz loop can run on the scheduled
/// input.
#[derive(Clone, Copy, Debug, PartialEq, Eq, Structural)]
pub enum StageKind {
    /// Finds the parts of a text-like input that structural mutation may
    /// recombine.
    Generalization,
    /// Measures stability and speed of a new test case.
    Calibration,
    /// Replays the input once with comparison logging on.
    Tracing,
    /// Replaces bytes by comparison operands seen while tracing.
    InputToState,
    /// Stacked random edits.
    Havoc,
    /// Recombines, duplicates and deletes fragments of text-like inputs.
    StructuralMutation,
}

/// A stage of the pipeline, and whether it runs only where structural
/// mutation is switched on.
#[derive(Clone, Copy, Debug, PartialEq, Eq, Structural)]
pub struct Stage {
    pub kind: StageKind,
    pub gated: bool,
}

/// The stages in the order in which they run.
pub open spec fn pipeline_spec() -> Seq<Stage> {
    seq![
        Stage { kind: StageKind::Generalization, gated: true },
        Stage { kind: StageKind::Calibration, gated: false },
        Stage { kind: StageKind::Tracing, gated: false },
        Stage { kind: StageKind::InputToState, gated: false },
        Stage { kind: StageKind::Havoc, gated: false },
        Stage { kind: StageKind::StructuralMutation, gated: true },
    ]
}

/// Whether a stage runs in a round: always if it has no gate, and with
/// structural mutation switched on if it has one.
pub open spec fn runs_spec(stage: Stage, structural: bool) -> bool {
    !stage.gated || structural
}

/// The kinds of the stages that run in a round, in order.
pub open spec fn active_spec(stages: Seq<Stage>, structural: bool) -> Seq<StageKind>
    decreases stages.len(),
{
    if stages.len() == 0 {
        Seq::empty()
    } else if runs_spec(stages.last(), structural) {
        active_spec(stages.drop_last(), structural).push(stages.last().kind)
    } else {
        active_spec(stages.drop_last(), structural)
    }
}

/// The pipeline: every stage in its place, the two that belong to structural
/// mutation behind a gate.
pub fn pipeline() -> (stages: Vec<Stage>)
    ensures
        stages@ == pipeline_spec(),
{
    let mut stages: Vec<Stage> = Vec::new();
    stages.push(Stage { kind: StageKind::Generalization, gated: true });
    stages.push(Stage { kind: StageKind::Calibration, gated: false });
    stages.push(Stage { kind: StageKind::Tracing, gated: false });
    stages.push(Stage { kind: StageKind::InputToState, gated: false });
    stages.push(Stage { kind: StageKind::Havoc, gated: false });
    stages.push(Stage { kind: StageKind::StructuralMutation, gated: true });
    assert(stages@ =~= pipeline_spec());
    stages
}

/// Whether the stage runs in a round with this setting of structural
/// mutation, which is looked at once per round.
pub fn runs(stage: Stage, structural: bool) -> (on: bool)
    ensures
        on == runs_spec(stage, structural),
{
    !stage.gated || structural
}

/// The kinds of the stages of `stages` that run, in order.
pub fn active_stages(stages: &Vec<Stage>, structural: bool) -> (kinds: Vec<StageKind>)
    ensures
        kinds@ == active_spec(stages@, structural),
{
    let mut kinds: Vec<StageKind> = Vec::new();
    let mut i: usize = 0;
    while i < stages.len()
        invariant
            i <= stages@.len(),
            kinds@ == active_spec(stages@.take(i as int), structural),
        decreases stages@.len() - i,
    {
        assert(stages@.take(i + 1).drop_last() =~= stages@.take(i as int));
        if runs(stages[i], structural) {
            kinds.push(stages[i].kind);
        }
        i = i + 1;
    }
    assert(stages@.take(i as int) =~= stages@);
    kinds
}

/// With structural mutation off, the pipeline runs calibration, tracing,
/// input-to-state and havoc, and neither of the two gated stages; with it on,
/// all six run.
pub proof fn lemma_gated_stages(structural: bool)
    ensures
        active_spec(pipeline_spec(), false) == seq![
            StageKind::Calibration,
            StageKind::Tracing,
            StageKind::InputToState,
            StageKind::Havoc,
        ],
        active_spec(pipeline_spec(), true) == seq![
            StageKind::Generalization,
            StageKind::Calibration,
            StageKind::Tracing,
            StageKind::InputToState,
            StageKind::Havoc,
            StageKind::StructuralMutation,
        ],
{
    reveal_with_fuel(active_spec, 8);
    let all = pipeline_spec();
    let five = all.drop_last();
    let four = five.drop_last();
    let three = four.drop_last();
    let two = three.drop_last();
    let one = two.drop_last();
    let none = one.drop_last();
    assert(none.len() == 0);
    assert(active_spec(all, false) =~= seq![
        StageKind::Calibration,
        StageKind::Tracing,
        StageKind::InputToState,
        StageKind::Havoc,
    ]);
    assert(active_spec(all, true) =~= seq![
        StageKind::Generalization,
        StageKind::Calibration,
        StageKind::Tracing,
        StageKind::InputToState,
        StageKind::Havoc,
        StageKind::StructuralMutation,
    ]);
}

/// Where a test case stands in its life.
#[derive(Clone, Copy, Debug, PartialEq, Eq, Structural)]
pub enum Phase {
    /// Made by a mutator or a generator, not yet measured.
    Generated,
    /// Measured; the feedback has not decided yet.
    Calibrated,
    /// Not kept.
    Rejected,
    /// In the corpus, waiting to be scheduled.
    Queued,
    /// In the corpus, picked by the scheduler and being worked on.
    Executing,
}

/// What can happen to a test case.
#[derive(Clone, Copy, Debug, PartialEq, Eq, Structural)]
pub enum Event {
    /// Calibration has finished.
    Measured,
    /// The novelty feedback admitted the test case.
    Admitted,
    /// The novelty feedback did not admit it.
    Refused,
    /// The scheduler picked it.
    Selected,
    /// The round on it is over.
    Finished,
}

/// The phase after an event, where the event is allowed in the phase.
pub open spec fn next_phase(phase: Phase, event: Event) -> Option<Phase> {
    match (phase, event) {
        (Phase::Generated, Event::Measured) => Some(Phase::Calibrated),
        (Phase::Calibrated, Event::Admitted) => Some(Phase::Queued),
        (Phase::Calibrated, Event::Refused) => Some(Phase::Rejected),
        (Phase::Queued, Event::Selected) => Some(Phase::Executing),
        (Phase::Executing, Event::Finished) => Some(Phase::Queued),
        _ => None,
    }
}

/// Whether the test case is in the corpus.
pub open spec fn in_corpus(phase: Phase) -> bool {
    phase == Phase::Queued || phase == Phase::Executing
}

/// Moves a test case on by one event; `None` where the event is not allowed
/// in its phase.
pub fn advance(phase: Phase, event: Event) -> (next: Option<Phase>)
    ensures
        next == next_phase(phase, event),
{
    match (phase, event) {
        (Phase::Generated, Event::Measured) => Some(Phase::Calibrated),
        (Phase::Calibrated, Event::Admitted) => Some(Phase::Queued),
        (Phase::Calibrated, Event::Refused) => Some(Phase::Rejected),
        (Phase::Queued, Event::Selected) => Some(Phase::Executing),
        (Phase::Executing, Event::Finished) => Some(Phase::Queued),
        _ => None,
    }
}

/// Whether the scheduler may pick a test case in this phase: only one that
/// waits in the corpus.
pub fn selectable(phase: Phase) -> (yes: bool)
    ensures
        yes == (phase == Phase::Queued),
        yes == (next_phase(phase, Event::Selected) == Some(Phase::Executing)),
{
    match phase {
        Phase::Queued => true,
        _ => false,
    }
}

/// The phase after a sequence of events, or `None` once an event was not
/// allowed.
pub open spec fn phase_after(phase: Phase, events: Seq<Event>) -> Option<Phase>
    decreases events.len(),
{
    if events.len() == 0 {
        Some(phase)
    } else {
        match phase_after(phase, events.drop_last()) {
            Some(p) => next_phase(p, events.last()),
            None => None,
        }
    }
}

/// A test case that is in the corpus stays there: whatever events follow, it
/// is queued or executing. A rejected one never comes back.
pub proof fn lemma_admitted_stays(phase: Phase, events: Seq<Event>)
    ensures
        in_corpus(phase) ==> (phase_after(phase, events) matches Some(p) ==> in_corpus(p)),
        phase == Phase::Rejected && events.len() > 0 ==> phase_after(phase, events).is_none(),
    decreases events.len(),
{
    if events.len() > 0 {
        lemma_admitted_stays(phase, events.drop_last());
    }
}

} // verus!

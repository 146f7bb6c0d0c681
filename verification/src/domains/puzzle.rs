//! Puzzles: per-type progress toward a solution, one input at a time.
//! Rewards are handed back to the caller.
use vstd::prelude::*;

use crate::shared::{DialogueSideEffect, Direction, DjinnId, Element, PuzzleDef, PuzzleType, SideEffectView};

verus! {

#[derive(Debug, Clone, Copy, PartialEq, Eq, Structural)]
pub enum PuzzleState {
    Unsolved,
    InProgress,
    Solved,
}

/// Progress of one puzzle toward its solution.
#[derive(Debug, Clone, Copy, PartialEq, Eq, Structural)]
pub enum PuzzleProgress {
    /// Correct pushes made so far.
    PushBlock { moves: u8 },
    /// Solved by the first correct element.
    ElementPillar,
    /// Solved by the first correct djinn.
    DjinnPuzzle,
    /// Index of the next switch to toggle.
    SwitchSequence { next_switch: usize },
    /// Correct slides made so far.
    IceSlide { step: usize },
}

pub open spec fn initial_progress(t: PuzzleType) -> PuzzleProgress {
    match t {
        PuzzleType::PushBlock => PuzzleProgress::PushBlock { moves: 0 },
        PuzzleType::ElementPillar(_) => PuzzleProgress::ElementPillar,
        PuzzleType::DjinnPuzzle(_) => PuzzleProgress::DjinnPuzzle,
        PuzzleType::SwitchSequence => PuzzleProgress::SwitchSequence { next_switch: 0 },
        PuzzleType::IceSlide => PuzzleProgress::IceSlide { step: 0 },
    }
}

impl PuzzleProgress {
    fn for_type(puzzle_type: &PuzzleType) -> (p: Self)
        ensures
            p == initial_progress(*puzzle_type),
    {
        match puzzle_type {
            PuzzleType::PushBlock => PuzzleProgress::PushBlock { moves: 0 },
            PuzzleType::ElementPillar(_) => PuzzleProgress::ElementPillar,
            PuzzleType::DjinnPuzzle(_) => PuzzleProgress::DjinnPuzzle,
            PuzzleType::SwitchSequence => PuzzleProgress::SwitchSequence { next_switch: 0 },
            PuzzleType::IceSlide => PuzzleProgress::IceSlide { step: 0 },
        }
    }
}

/// A puzzle being played.
#[derive(Debug, Clone)]
pub struct PuzzleInstance {
    pub def: PuzzleDef,
    pub state: PuzzleState,
    progress: PuzzleProgress,
}

impl PuzzleInstance {
    pub closed spec fn spec_progress(&self) -> PuzzleProgress {
        self.progress
    }

    pub closed spec fn spec_def(&self) -> PuzzleDef {
        self.def
    }

    pub closed spec fn spec_state(&self) -> PuzzleState {
        self.state
    }

    /// Counters stay below their goals until the puzzle is solved.
    pub closed spec fn wf(&self) -> bool {
        self.state != PuzzleState::Solved ==> match self.progress {
            PuzzleProgress::PushBlock { moves } => moves < 3,
            PuzzleProgress::SwitchSequence { next_switch } => next_switch < 3,
            PuzzleProgress::IceSlide { step } => step < 4,
            _ => true,
        }
    }

    /// A fresh, unsolved puzzle.
    pub fn new(def: PuzzleDef) -> (p: Self)
        ensures
            p.spec_def() == def,
            p.spec_state() == PuzzleState::Unsolved,
            p.spec_progress() == initial_progress(def.puzzle_type),
            p.wf(),
    {
        let progress = PuzzleProgress::for_type(&def.puzzle_type);
        PuzzleInstance { def, state: PuzzleState::Unsolved, progress }
    }
}

#[derive(Debug, Clone, PartialEq, Eq)]
pub enum PuzzleInput {
    PushDirection(Direction),
    ActivateElement(Element),
    UseDjinn(DjinnId),
    ToggleSwitch(usize),
    SlideDirection(Direction),
}

#[derive(Debug, Clone, PartialEq, Eq)]
pub enum PuzzleResult {
    Solved(Option<DialogueSideEffect>),
    Progress,
    Failed,
    AlreadySolved,
}

pub ghost enum PuzzleResultView {
    Solved(Option<SideEffectView>),
    Progress,
    Failed,
    AlreadySolved,
}

pub open spec fn reward_view(r: Option<DialogueSideEffect>) -> Option<SideEffectView> {
    match r {
        Some(e) => Some(e@),
        None => None,
    }
}

impl View for PuzzleResult {
    type V = PuzzleResultView;

    open spec fn view(&self) -> PuzzleResultView {
        match self {
            PuzzleResult::Solved(r) => PuzzleResultView::Solved(reward_view(*r)),
            PuzzleResult::Progress => PuzzleResultView::Progress,
            PuzzleResult::Failed => PuzzleResultView::Failed,
            PuzzleResult::AlreadySolved => PuzzleResultView::AlreadySolved,
        }
    }
}

/// What the player has, as puzzles see it; implemented by the game layer.
///
/// Each `spec fn` names the fact that the matching method reports. An
/// implementation defines the facts; the default bodies are there so that an
/// implementation need not write them, and verified code generic over the
/// context never relies on them.
pub trait PuzzleContext {
    closed spec fn holds_djinn(&self, id: DjinnId) -> bool {
        false
    }

    closed spec fn knows_element(&self, element: Element) -> bool {
        false
    }

    fn has_djinn(&self, id: &DjinnId) -> (r: bool)
        ensures
            r == self.holds_djinn(*id),
    ;

    fn has_element_ability(&self, element: Element) -> (r: bool)
        ensures
            r == self.knows_element(element),
    ;
}

/// Element pillars need an ability of their element, djinn puzzles need the
/// djinn; other puzzles can always be attempted.
pub fn can_attempt<C: PuzzleContext>(puzzle: &PuzzleDef, context: &C) -> (r: bool)
    ensures
        r == match puzzle.puzzle_type {
            PuzzleType::ElementPillar(e) => context.knows_element(e),
            PuzzleType::DjinnPuzzle(id) => context.holds_djinn(id),
            _ => true,
        },
{
    match &puzzle.puzzle_type {
        PuzzleType::ElementPillar(elem) => context.has_element_ability(*elem),
        PuzzleType::DjinnPuzzle(id) => context.has_djinn(id),
        _ => true,
    }
}

/// The pushes that solve a push-block puzzle.
pub open spec fn push_solution(i: int) -> Direction {
    if i == 0 {
        Direction::Up
    } else if i == 1 {
        Direction::Left
    } else {
        Direction::Down
    }
}

/// The slides that solve an ice puzzle.
pub open spec fn slide_solution(i: int) -> Direction {
    if i == 0 {
        Direction::Up
    } else if i == 1 {
        Direction::Right
    } else if i == 2 {
        Direction::Down
    } else {
        Direction::Left
    }
}

/// Outcome of one input: the new state, the new progress and the result
/// (`Solved` stands for `Solved` with the puzzle's reward).
pub ghost enum StepResult {
    Solved,
    Progress,
    Failed,
    AlreadySolved,
}

pub open spec fn spec_step(
    t: PuzzleType,
    state: PuzzleState,
    progress: PuzzleProgress,
    input: PuzzleInput,
) -> (PuzzleState, PuzzleProgress, StepResult) {
    if state == PuzzleState::Solved {
        (state, progress, StepResult::AlreadySolved)
    } else {
        match (t, input) {
            (PuzzleType::PushBlock, PuzzleInput::PushDirection(dir)) => match progress {
                PuzzleProgress::PushBlock { moves } => if moves < 3 && dir == push_solution(moves as int) {
                    if moves + 1 >= 3 {
                        (PuzzleState::Solved, PuzzleProgress::PushBlock { moves: (moves + 1) as u8 }, StepResult::Solved)
                    } else {
                        (PuzzleState::InProgress, PuzzleProgress::PushBlock { moves: (moves + 1) as u8 }, StepResult::Progress)
                    }
                } else {
                    (PuzzleState::Unsolved, PuzzleProgress::PushBlock { moves: 0 }, StepResult::Failed)
                },
                _ => (PuzzleState::InProgress, progress, StepResult::Failed),
            },
            (PuzzleType::ElementPillar(required), PuzzleInput::ActivateElement(elem)) => if elem == required {
                (PuzzleState::Solved, progress, StepResult::Solved)
            } else {
                (PuzzleState::Unsolved, progress, StepResult::Failed)
            },
            (PuzzleType::DjinnPuzzle(required), PuzzleInput::UseDjinn(used)) => if used@ == required@ {
                (PuzzleState::Solved, progress, StepResult::Solved)
            } else {
                (PuzzleState::Unsolved, progress, StepResult::Failed)
            },
            (PuzzleType::SwitchSequence, PuzzleInput::ToggleSwitch(idx)) => match progress {
                PuzzleProgress::SwitchSequence { next_switch } => if idx == next_switch {
                    if next_switch + 1 >= 3 {
                        (PuzzleState::Solved, PuzzleProgress::SwitchSequence { next_switch: (next_switch + 1) as usize }, StepResult::Solved)
                    } else {
                        (PuzzleState::InProgress, PuzzleProgress::SwitchSequence { next_switch: (next_switch + 1) as usize }, StepResult::Progress)
                    }
                } else {
                    (PuzzleState::Unsolved, PuzzleProgress::SwitchSequence { next_switch: 0 }, StepResult::Failed)
                },
                _ => (PuzzleState::InProgress, progress, StepResult::Failed),
            },
            (PuzzleType::IceSlide, PuzzleInput::SlideDirection(dir)) => match progress {
                PuzzleProgress::IceSlide { step } => if dir == slide_solution(step as int) {
                    if step + 1 >= 4 {
                        (PuzzleState::Solved, PuzzleProgress::IceSlide { step: (step + 1) as usize }, StepResult::Solved)
                    } else {
                        (PuzzleState::InProgress, PuzzleProgress::IceSlide { step: (step + 1) as usize }, StepResult::Progress)
                    }
                } else {
                    (PuzzleState::Unsolved, PuzzleProgress::IceSlide { step: 0 }, StepResult::Failed)
                },
                _ => (PuzzleState::InProgress, progress, StepResult::Failed),
            },
            _ => (PuzzleState::InProgress, progress, StepResult::Failed),
        }
    }
}

pub open spec fn result_view(r: StepResult, reward: Option<DialogueSideEffect>) -> PuzzleResultView {
    match r {
        StepResult::Solved => PuzzleResultView::Solved(reward_view(reward)),
        StepResult::Progress => PuzzleResultView::Progress,
        StepResult::Failed => PuzzleResultView::Failed,
        StepResult::AlreadySolved => PuzzleResultView::AlreadySolved,
    }
}

fn push_dir(i: u8) -> (d: Direction)
    requires
        i < 3,
    ensures
        d == push_solution(i as int),
{
    if i == 0 {
        Direction::Up
    } else if i == 1 {
        Direction::Left
    } else {
        Direction::Down
    }
}

fn slide_dir(i: usize) -> (d: Direction)
    requires
        i < 4,
    ensures
        d == slide_solution(i as int),
{
    if i == 0 {
        Direction::Up
    } else if i == 1 {
        Direction::Right
    } else if i == 2 {
        Direction::Down
    } else {
        Direction::Left
    }
}

fn solved_with(reward: &Option<DialogueSideEffect>) -> (r: PuzzleResult)
    ensures
        r@ == PuzzleResultView::Solved(reward_view(*reward)),
{
    match reward {
        Some(e) => PuzzleResult::Solved(Some(e.clone())),
        None => PuzzleResult::Solved(None),
    }
}

/// Advance a puzzle by one input. A solved puzzle answers `AlreadySolved`.
/// A correct step makes progress (or solves the puzzle, handing back its
/// reward); a wrong step resets the progress and fails; an input of the wrong
/// kind fails and leaves the progress as it was.
pub fn attempt_solve(instance: &mut PuzzleInstance, input: PuzzleInput) -> (r: PuzzleResult)
    requires
        old(instance).wf(),
    ensures
        final(instance).wf(),
        final(instance).spec_def() == old(instance).spec_def(),
        ({
            let (s, p, res) = spec_step(
                old(instance).spec_def().puzzle_type,
                old(instance).spec_state(),
                old(instance).spec_progress(),
                input,
            );
            &&& final(instance).spec_state() == s
            &&& final(instance).spec_progress() == p
            &&& r@ == result_view(res, old(instance).spec_def().reward)
        }),
{
    match instance.state {
        PuzzleState::Solved => {
            return PuzzleResult::AlreadySolved;
        },
        _ => {},
    }
    instance.state = PuzzleState::InProgress;
    match (&instance.def.puzzle_type, input) {
        (PuzzleType::PushBlock, PuzzleInput::PushDirection(dir)) => {
            match instance.progress {
                PuzzleProgress::PushBlock { moves } => {
                    if moves < 3 && dir == push_dir(moves) {
                        let m = moves + 1;
                        instance.progress = PuzzleProgress::PushBlock { moves: m };
                        if m >= 3 {
                            instance.state = PuzzleState::Solved;
                            return solved_with(&instance.def.reward);
                        }
                        PuzzleResult::Progress
                    } else {
                        instance.progress = PuzzleProgress::PushBlock { moves: 0 };
                        instance.state = PuzzleState::Unsolved;
                        PuzzleResult::Failed
                    }
                },
                _ => PuzzleResult::Failed,
            }
        },
        (PuzzleType::ElementPillar(required), PuzzleInput::ActivateElement(elem)) => {
            if elem == *required {
                instance.state = PuzzleState::Solved;
                solved_with(&instance.def.reward)
            } else {
                instance.state = PuzzleState::Unsolved;
                PuzzleResult::Failed
            }
        },
        (PuzzleType::DjinnPuzzle(required_id), PuzzleInput::UseDjinn(used_id)) => {
            if used_id.same_as(required_id) {
                instance.state = PuzzleState::Solved;
                solved_with(&instance.def.reward)
            } else {
                instance.state = PuzzleState::Unsolved;
                PuzzleResult::Failed
            }
        },
        (PuzzleType::SwitchSequence, PuzzleInput::ToggleSwitch(idx)) => {
            match instance.progress {
                PuzzleProgress::SwitchSequence { next_switch } => {
                    if idx == next_switch {
                        let n = next_switch + 1;
                        instance.progress = PuzzleProgress::SwitchSequence { next_switch: n };
                        if n >= 3 {
                            instance.state = PuzzleState::Solved;
                            return solved_with(&instance.def.reward);
                        }
                        PuzzleResult::Progress
                    } else {
                        instance.progress = PuzzleProgress::SwitchSequence { next_switch: 0 };
                        instance.state = PuzzleState::Unsolved;
                        PuzzleResult::Failed
                    }
                },
                _ => PuzzleResult::Failed,
            }
        },
        (PuzzleType::IceSlide, PuzzleInput::SlideDirection(dir)) => {
            match instance.progress {
                PuzzleProgress::IceSlide { step } => {
                    if dir == slide_dir(step) {
                        let n = step + 1;
                        instance.progress = PuzzleProgress::IceSlide { step: n };
                        if n >= 4 {
                            instance.state = PuzzleState::Solved;
                            return solved_with(&instance.def.reward);
                        }
                        PuzzleResult::Progress
                    } else {
                        instance.progress = PuzzleProgress::IceSlide { step: 0 };
                        instance.state = PuzzleState::Unsolved;
                        PuzzleResult::Failed
                    }
                },
                _ => PuzzleResult::Failed,
            }
        },
        _ => PuzzleResult::Failed,
    }
}


// ── Input histories ─────────────────────────────────────────────────

/// State and progress of a puzzle of type `t` after `inputs`, one by one.
pub open spec fn run_inputs(
    t: PuzzleType,
    state: PuzzleState,
    progress: PuzzleProgress,
    inputs: Seq<PuzzleInput>,
) -> (PuzzleState, PuzzleProgress)
    decreases inputs.len(),
{
    if inputs.len() == 0 {
        (state, progress)
    } else {
        let (s, p) = run_inputs(t, state, progress, inputs.drop_last());
        let (s2, p2, _r) = spec_step(t, s, p, inputs.last());
        (s2, p2)
    }
}

/// Correct moves in a row at the end of `moves` since the last wrong one,
/// where `solution` gives the `i`-th correct move and `len` of them solve
/// the puzzle for good.
pub open spec fn streak<A>(moves: Seq<A>, solution: spec_fn(int) -> A, len: nat) -> nat
    decreases moves.len(),
{
    if moves.len() == 0 {
        0
    } else {
        let k = streak(moves.drop_last(), solution, len);
        if k >= len {
            len
        } else if moves.last() == solution(k as int) {
            k + 1
        } else {
            0
        }
    }
}

pub open spec fn push_solution_fn() -> spec_fn(int) -> Direction {
    |i: int| push_solution(i)
}

pub open spec fn slide_solution_fn() -> spec_fn(int) -> Direction {
    |i: int| slide_solution(i)
}

pub open spec fn switch_solution_fn() -> spec_fn(int) -> usize {
    |i: int| i as usize
}

/// A push-block puzzle that is not solved and has made no move, given the
/// pushes `dirs`, has made as many correct pushes as the streak of correct
/// pushes since the last wrong one, and is solved exactly when that streak
/// reached the three pushes Up, Left, Down.
pub proof fn lemma_push_block_history(state: PuzzleState, dirs: Seq<Direction>)
    requires
        state != PuzzleState::Solved,
    ensures
        ({
            let (s, p) = run_inputs(
                PuzzleType::PushBlock,
                state,
                PuzzleProgress::PushBlock { moves: 0 },
                dirs.map_values(|d: Direction| PuzzleInput::PushDirection(d)),
            );
            let k = streak(dirs, push_solution_fn(), 3);
            &&& p == PuzzleProgress::PushBlock { moves: k as u8 }
            &&& (s == PuzzleState::Solved <==> k == 3)
        }),
    decreases dirs.len(),
{
    let inputs = dirs.map_values(|d: Direction| PuzzleInput::PushDirection(d));
    if dirs.len() > 0 {
        lemma_push_block_history(state, dirs.drop_last());
        assert(inputs.drop_last() =~= dirs.drop_last().map_values(|d: Direction| PuzzleInput::PushDirection(d)));
        assert(inputs.last() == PuzzleInput::PushDirection(dirs.last()));
    }
}

/// The same for a switch puzzle: the next switch is the streak of switches
/// 0, 1, 2 toggled in order since the last wrong one; it is solved exactly
/// when the streak reached three.
pub proof fn lemma_switch_sequence_history(state: PuzzleState, switches: Seq<usize>)
    requires
        state != PuzzleState::Solved,
    ensures
        ({
            let (s, p) = run_inputs(
                PuzzleType::SwitchSequence,
                state,
                PuzzleProgress::SwitchSequence { next_switch: 0 },
                switches.map_values(|i: usize| PuzzleInput::ToggleSwitch(i)),
            );
            let k = streak(switches, switch_solution_fn(), 3);
            &&& p == PuzzleProgress::SwitchSequence { next_switch: k as usize }
            &&& (s == PuzzleState::Solved <==> k == 3)
        }),
    decreases switches.len(),
{
    let inputs = switches.map_values(|i: usize| PuzzleInput::ToggleSwitch(i));
    if switches.len() > 0 {
        lemma_switch_sequence_history(state, switches.drop_last());
        assert(inputs.drop_last() =~= switches.drop_last().map_values(|i: usize| PuzzleInput::ToggleSwitch(i)));
        assert(inputs.last() == PuzzleInput::ToggleSwitch(switches.last()));
    }
}

/// The same for an ice puzzle: the slides made are the streak of the slides
/// Up, Right, Down, Left since the last wrong one; it is solved exactly when
/// the streak reached four.
pub proof fn lemma_ice_slide_history(state: PuzzleState, dirs: Seq<Direction>)
    requires
        state != PuzzleState::Solved,
    ensures
        ({
            let (s, p) = run_inputs(
                PuzzleType::IceSlide,
                state,
                PuzzleProgress::IceSlide { step: 0 },
                dirs.map_values(|d: Direction| PuzzleInput::SlideDirection(d)),
            );
            let k = streak(dirs, slide_solution_fn(), 4);
            &&& p == PuzzleProgress::IceSlide { step: k as usize }
            &&& (s == PuzzleState::Solved <==> k == 4)
        }),
    decreases dirs.len(),
{
    let inputs = dirs.map_values(|d: Direction| PuzzleInput::SlideDirection(d));
    if dirs.len() > 0 {
        lemma_ice_slide_history(state, dirs.drop_last());
        assert(inputs.drop_last() =~= dirs.drop_last().map_values(|d: Direction| PuzzleInput::SlideDirection(d)));
        assert(inputs.last() == PuzzleInput::SlideDirection(dirs.last()));
    }
}

} // verus!

use vale_village::domains::puzzle::{
    attempt_solve, can_attempt, PuzzleContext, PuzzleInput, PuzzleInstance, PuzzleResult,
    PuzzleState,
};
use vale_village::shared::bounded_types::Gold;
use vale_village::shared::{DialogueSideEffect, Direction, DjinnId, Element, PuzzleDef, PuzzleType};

struct MockCtx {
    djinn: Option<DjinnId>,
    elements: Vec<Element>,
}

impl PuzzleContext for MockCtx {
    fn has_djinn(&self, id: &DjinnId) -> bool {
        self.djinn.as_ref() == Some(id)
    }
    fn has_element_ability(&self, element: Element) -> bool {
        self.elements.contains(&element)
    }
}

fn push_block_def() -> PuzzleDef {
    PuzzleDef { puzzle_type: PuzzleType::PushBlock, reward: None }
}

fn element_pillar_def(elem: Element) -> PuzzleDef {
    PuzzleDef { puzzle_type: PuzzleType::ElementPillar(elem), reward: None }
}

fn djinn_def(id: &str) -> PuzzleDef {
    PuzzleDef { puzzle_type: PuzzleType::DjinnPuzzle(DjinnId(id.to_string())), reward: None }
}

fn switch_def() -> PuzzleDef {
    PuzzleDef { puzzle_type: PuzzleType::SwitchSequence, reward: None }
}

fn ice_slide_def() -> PuzzleDef {
    PuzzleDef { puzzle_type: PuzzleType::IceSlide, reward: None }
}

// ── PushBlock ──────────────────────────────────────────────────────

#[test]
fn push_block_solve_path() {
    let mut inst = PuzzleInstance::new(push_block_def());
    assert_eq!(attempt_solve(&mut inst, PuzzleInput::PushDirection(Direction::Up)), PuzzleResult::Progress);
    assert_eq!(attempt_solve(&mut inst, PuzzleInput::PushDirection(Direction::Left)), PuzzleResult::Progress);
    let result = attempt_solve(&mut inst, PuzzleInput::PushDirection(Direction::Down));
    assert_eq!(result, PuzzleResult::Solved(None));
    assert_eq!(inst.state, PuzzleState::Solved);
}

#[test]
fn push_block_wrong_direction_resets() {
    let mut inst = PuzzleInstance::new(push_block_def());
    // First push correct
    assert_eq!(attempt_solve(&mut inst, PuzzleInput::PushDirection(Direction::Up)), PuzzleResult::Progress);
    // Wrong direction — should reset
    assert_eq!(attempt_solve(&mut inst, PuzzleInput::PushDirection(Direction::Right)), PuzzleResult::Failed);
    assert_eq!(inst.state, PuzzleState::Unsolved);
    // Must restart the full sequence
    assert_eq!(attempt_solve(&mut inst, PuzzleInput::PushDirection(Direction::Up)), PuzzleResult::Progress);
    assert_eq!(attempt_solve(&mut inst, PuzzleInput::PushDirection(Direction::Left)), PuzzleResult::Progress);
    assert_eq!(attempt_solve(&mut inst, PuzzleInput::PushDirection(Direction::Down)), PuzzleResult::Solved(None));
}

// ── ElementPillar ──────────────────────────────────────────────────

#[test]
fn element_pillar_correct_element() {
    let mut inst = PuzzleInstance::new(element_pillar_def(Element::Venus));
    let result = attempt_solve(&mut inst, PuzzleInput::ActivateElement(Element::Venus));
    assert_eq!(result, PuzzleResult::Solved(None));
}

#[test]
fn element_pillar_wrong_element_fails() {
    let mut inst = PuzzleInstance::new(element_pillar_def(Element::Venus));
    let result = attempt_solve(&mut inst, PuzzleInput::ActivateElement(Element::Mars));
    assert_eq!(result, PuzzleResult::Failed);
    assert_eq!(inst.state, PuzzleState::Unsolved);
}

// ── DjinnPuzzle ───────────────────────────────────────────────────

#[test]
fn djinn_puzzle_correct_djinn() {
    let mut inst = PuzzleInstance::new(djinn_def("flint"));
    let result = attempt_solve(&mut inst, PuzzleInput::UseDjinn(DjinnId("flint".to_string())));
    assert_eq!(result, PuzzleResult::Solved(None));
}

#[test]
fn djinn_puzzle_wrong_djinn_fails() {
    let mut inst = PuzzleInstance::new(djinn_def("flint"));
    let result = attempt_solve(&mut inst, PuzzleInput::UseDjinn(DjinnId("forge".to_string())));
    assert_eq!(result, PuzzleResult::Failed);
}

// ── SwitchSequence ────────────────────────────────────────────────

#[test]
fn switch_sequence_solve_path() {
    let mut inst = PuzzleInstance::new(switch_def());
    assert_eq!(attempt_solve(&mut inst, PuzzleInput::ToggleSwitch(0)), PuzzleResult::Progress);
    assert_eq!(attempt_solve(&mut inst, PuzzleInput::ToggleSwitch(1)), PuzzleResult::Progress);
    let result = attempt_solve(&mut inst, PuzzleInput::ToggleSwitch(2));
    assert_eq!(result, PuzzleResult::Solved(None));
}

#[test]
fn switch_sequence_wrong_order_resets() {
    let mut inst = PuzzleInstance::new(switch_def());
    assert_eq!(attempt_solve(&mut inst, PuzzleInput::ToggleSwitch(0)), PuzzleResult::Progress);
    // Toggle switch 2 instead of 1 — should fail and reset
    assert_eq!(attempt_solve(&mut inst, PuzzleInput::ToggleSwitch(2)), PuzzleResult::Failed);
    // Should be able to restart from 0
    assert_eq!(attempt_solve(&mut inst, PuzzleInput::ToggleSwitch(0)), PuzzleResult::Progress);
}

// ── IceSlide ──────────────────────────────────────────────────────

#[test]
fn ice_slide_solve_path() {
    let mut inst = PuzzleInstance::new(ice_slide_def());
    assert_eq!(attempt_solve(&mut inst, PuzzleInput::SlideDirection(Direction::Up)), PuzzleResult::Progress);
    assert_eq!(attempt_solve(&mut inst, PuzzleInput::SlideDirection(Direction::Right)), PuzzleResult::Progress);
    assert_eq!(attempt_solve(&mut inst, PuzzleInput::SlideDirection(Direction::Down)), PuzzleResult::Progress);
    let result = attempt_solve(&mut inst, PuzzleInput::SlideDirection(Direction::Left));
    assert_eq!(result, PuzzleResult::Solved(None));
}

// ── Already-solved rejection ──────────────────────────────────────

#[test]
fn already_solved_returns_already_solved() {
    let mut inst = PuzzleInstance::new(push_block_def());
    // Solve it first with correct sequence
    attempt_solve(&mut inst, PuzzleInput::PushDirection(Direction::Up));
    attempt_solve(&mut inst, PuzzleInput::PushDirection(Direction::Left));
    attempt_solve(&mut inst, PuzzleInput::PushDirection(Direction::Down));
    assert_eq!(inst.state, PuzzleState::Solved);
    // Second attempt must be rejected
    let result = attempt_solve(&mut inst, PuzzleInput::PushDirection(Direction::Up));
    assert_eq!(result, PuzzleResult::AlreadySolved);
}

// ── Reward delivery ───────────────────────────────────────────────

#[test]
fn reward_is_delivered_on_solve() {
    let reward = DialogueSideEffect::GiveGold(Gold::new(100));
    let def = PuzzleDef {
        puzzle_type: PuzzleType::ElementPillar(Element::Jupiter),
        reward: Some(reward.clone()),
    };
    let mut inst = PuzzleInstance::new(def);
    let result = attempt_solve(&mut inst, PuzzleInput::ActivateElement(Element::Jupiter));
    assert_eq!(result, PuzzleResult::Solved(Some(reward)));
}

// ── can_attempt prerequisites ─────────────────────────────────────

#[test]
fn can_attempt_requires_element_ability() {
    let def = element_pillar_def(Element::Mars);
    let ctx_no = MockCtx { djinn: None, elements: vec![] };
    let ctx_yes = MockCtx { djinn: None, elements: vec![Element::Mars] };
    assert!(!can_attempt(&def, &ctx_no));
    assert!(can_attempt(&def, &ctx_yes));
}

#[test]
fn can_attempt_requires_djinn() {
    let def = djinn_def("zephyr");
    let ctx_no = MockCtx { djinn: None, elements: vec![] };
    let ctx_yes = MockCtx { djinn: Some(DjinnId("zephyr".to_string())), elements: vec![] };
    assert!(!can_attempt(&def, &ctx_no));
    assert!(can_attempt(&def, &ctx_yes));
}

#[test]
fn wrong_kind_of_input_fails_without_resetting_progress() {
    let mut inst = PuzzleInstance::new(switch_def());
    assert_eq!(attempt_solve(&mut inst, PuzzleInput::ToggleSwitch(0)), PuzzleResult::Progress);
    assert_eq!(attempt_solve(&mut inst, PuzzleInput::PushDirection(Direction::Up)), PuzzleResult::Failed);
    assert_eq!(inst.state, PuzzleState::InProgress);
    assert_eq!(attempt_solve(&mut inst, PuzzleInput::ToggleSwitch(1)), PuzzleResult::Progress);
    assert_eq!(attempt_solve(&mut inst, PuzzleInput::ToggleSwitch(2)), PuzzleResult::Solved(None));
}

#[test]
fn ice_slide_wrong_slide_resets() {
    let mut inst = PuzzleInstance::new(ice_slide_def());
    assert_eq!(attempt_solve(&mut inst, PuzzleInput::SlideDirection(Direction::Up)), PuzzleResult::Progress);
    assert_eq!(attempt_solve(&mut inst, PuzzleInput::SlideDirection(Direction::Up)), PuzzleResult::Failed);
    assert_eq!(inst.state, PuzzleState::Unsolved);
    assert_eq!(attempt_solve(&mut inst, PuzzleInput::SlideDirection(Direction::Up)), PuzzleResult::Progress);
}

#[test]
fn can_attempt_other_puzzles_always() {
    let ctx = MockCtx { djinn: None, elements: vec![] };
    assert!(can_attempt(&push_block_def(), &ctx));
    assert!(can_attempt(&switch_def(), &ctx));
    assert!(can_attempt(&ice_slide_def(), &ctx));
}

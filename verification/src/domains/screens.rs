//! Screen navigation: the active screen and the history to return to.
use vstd::prelude::*;

use crate::shared::{GameScreen, ScreenStack, ScreenTransition};

verus! {

pub const MAX_STACK_DEPTH: usize = 8;

/// The active screen and the screens to go back to.
#[derive(Debug, Clone)]
pub struct ScreenManager {
    pub current: GameScreen,
    pub stack: ScreenStack,
}

impl Default for ScreenManager {
    fn default() -> (r: Self)
        ensures
            r.current == GameScreen::Title,
            r.stack.stack@.len() == 0,
    {
        ScreenManager { current: GameScreen::default(), stack: ScreenStack::default() }
    }
}

impl ScreenManager {
    pub fn new(initial: GameScreen) -> (r: Self)
        ensures
            r.current == initial,
            r.stack.stack@.len() == 0,
    {
        ScreenManager { current: initial, stack: ScreenStack::default() }
    }
}

/// The stack is full and cannot take another screen.
#[derive(Debug, Clone, PartialEq, Eq)]
pub struct StackOverflowError {
    pub depth: usize,
}

/// Push `screen`; a stack already holding `MAX_STACK_DEPTH` screens is refused
/// and left as it was.
pub fn push_screen(stack: &mut ScreenStack, screen: GameScreen) -> (r: Result<(), StackOverflowError>)
    ensures
        old(stack).stack@.len() >= MAX_STACK_DEPTH ==> r == Err::<(), StackOverflowError>(
            StackOverflowError { depth: old(stack).stack@.len() as usize },
        ) && final(stack).stack@ == old(stack).stack@,
        old(stack).stack@.len() < MAX_STACK_DEPTH ==> r is Ok
            && final(stack).stack@ == old(stack).stack@.push(screen),
{
    if stack.stack.len() >= MAX_STACK_DEPTH {
        return Err(StackOverflowError { depth: stack.stack.len() });
    }
    stack.stack.push(screen);
    Ok(())
}

/// Remove and return the most recent screen, `None` when there is none.
pub fn pop_screen(stack: &mut ScreenStack) -> (r: Option<GameScreen>)
    ensures
        old(stack).stack@.len() == 0 ==> r is None && final(stack).stack@ == old(stack).stack@,
        old(stack).stack@.len() > 0 ==> r == Some(old(stack).stack@.last())
            && final(stack).stack@ == old(stack).stack@.drop_last(),
{
    stack.stack.pop()
}

pub fn current_screen(manager: &ScreenManager) -> (r: &GameScreen)
    ensures
        *r == manager.current,
{
    &manager.current
}

/// The stack after pushing `screen`, the oldest entry dropped when full.
pub open spec fn pushed_clamped(stack: Seq<GameScreen>, screen: GameScreen) -> Seq<GameScreen> {
    if stack.len() >= MAX_STACK_DEPTH {
        stack.drop_first().push(screen)
    } else {
        stack.push(screen)
    }
}

/// The screen that a forward transition leads to; `None` for the hard resets
/// and for going back.
pub open spec fn forward_target(t: ScreenTransition) -> Option<GameScreen> {
    match t {
        ScreenTransition::ToWorldMap => Some(GameScreen::WorldMap),
        ScreenTransition::EnterTown(id) => Some(GameScreen::Town(id)),
        ScreenTransition::EnterDungeon(id) => Some(GameScreen::Dungeon(id)),
        ScreenTransition::StartBattle(_) => Some(GameScreen::Battle),
        ScreenTransition::OpenMenu(m) => Some(GameScreen::Menu(m)),
        ScreenTransition::OpenShop(id) => Some(GameScreen::Shop(id)),
        ScreenTransition::StartDialogue(id) => Some(GameScreen::Dialogue(id)),
        ScreenTransition::OpenSaveLoad => Some(GameScreen::SaveLoad),
        _ => None,
    }
}

/// The screen a hard reset leads to, which clears the history.
pub open spec fn reset_target(t: ScreenTransition) -> Option<GameScreen> {
    match t {
        ScreenTransition::ToTitle => Some(GameScreen::Title),
        ScreenTransition::TriggerGameOver => Some(GameScreen::GameOver),
        ScreenTransition::TriggerVictory => Some(GameScreen::Victory),
        _ => None,
    }
}

/// Current screen and history after a transition.
pub open spec fn transition_step(
    current: GameScreen,
    stack: Seq<GameScreen>,
    t: ScreenTransition,
) -> (GameScreen, Seq<GameScreen>) {
    if let Some(target) = reset_target(t) {
        (target, Seq::empty())
    } else if let Some(target) = forward_target(t) {
        (target, pushed_clamped(stack, current))
    } else if stack.len() > 0 {
        (stack.last(), stack.drop_last())
    } else {
        (current, stack)
    }
}

fn push_or_clamp(stack: &mut ScreenStack, screen: GameScreen)
    ensures
        final(stack).stack@ == pushed_clamped(old(stack).stack@, screen),
{
    if stack.stack.len() >= MAX_STACK_DEPTH {
        stack.stack.remove(0);
        assert(stack.stack@ =~= old(stack).stack@.drop_first());
    }
    stack.stack.push(screen);
}

/// Apply a transition. Going forward remembers the screen left behind; going
/// back returns to the most recent one (or stays put with no history); the
/// title, game-over and victory screens clear the history.
pub fn apply_transition(manager: &mut ScreenManager, transition: ScreenTransition) -> (r: GameScreen)
    ensures
        (final(manager).current, final(manager).stack.stack@) == transition_step(
            old(manager).current,
            old(manager).stack.stack@,
            transition,
        ),
        r == final(manager).current,
{
    match transition {
        ScreenTransition::ToTitle => {
            manager.stack.stack.clear();
            manager.current = GameScreen::Title;
        },
        ScreenTransition::ToWorldMap => {
            push_or_clamp(&mut manager.stack, manager.current);
            manager.current = GameScreen::WorldMap;
        },
        ScreenTransition::EnterTown(id) => {
            push_or_clamp(&mut manager.stack, manager.current);
            manager.current = GameScreen::Town(id);
        },
        ScreenTransition::EnterDungeon(id) => {
            push_or_clamp(&mut manager.stack, manager.current);
            manager.current = GameScreen::Dungeon(id);
        },
        ScreenTransition::StartBattle(_encounter) => {
            push_or_clamp(&mut manager.stack, manager.current);
            manager.current = GameScreen::Battle;
        },
        ScreenTransition::OpenMenu(menu) => {
            push_or_clamp(&mut manager.stack, manager.current);
            manager.current = GameScreen::Menu(menu);
        },
        ScreenTransition::OpenShop(id) => {
            push_or_clamp(&mut manager.stack, manager.current);
            manager.current = GameScreen::Shop(id);
        },
        ScreenTransition::StartDialogue(id) => {
            push_or_clamp(&mut manager.stack, manager.current);
            manager.current = GameScreen::Dialogue(id);
        },
        ScreenTransition::OpenSaveLoad => {
            push_or_clamp(&mut manager.stack, manager.current);
            manager.current = GameScreen::SaveLoad;
        },
        ScreenTransition::TriggerGameOver => {
            manager.stack.stack.clear();
            manager.current = GameScreen::GameOver;
        },
        ScreenTransition::TriggerVictory => {
            manager.stack.stack.clear();
            manager.current = GameScreen::Victory;
        },
        ScreenTransition::ReturnToPrevious => {
            if let Some(prev) = manager.stack.stack.pop() {
                manager.current = prev;
            }
        },
    }
    manager.current
}

/// Going back right after a forward transition restores the screen and the
/// history as they were, as long as the history was not full.
pub proof fn lemma_return_undoes_forward(
    current: GameScreen,
    stack: Seq<GameScreen>,
    t: ScreenTransition,
)
    requires
        forward_target(t) is Some,
        stack.len() < MAX_STACK_DEPTH,
    ensures
        ({
            let (c1, s1) = transition_step(current, stack, t);
            transition_step(c1, s1, ScreenTransition::ReturnToPrevious) == (current, stack)
        }),
{
    let (c1, s1) = transition_step(current, stack, t);
    assert(s1 == stack.push(current));
    assert(s1.drop_last() =~= stack);
}

/// A history of at most `MAX_STACK_DEPTH` screens stays within that bound
/// whatever transition is applied.
pub proof fn lemma_history_stays_bounded(
    current: GameScreen,
    stack: Seq<GameScreen>,
    t: ScreenTransition,
)
    requires
        stack.len() <= MAX_STACK_DEPTH,
    ensures
        transition_step(current, stack, t).1.len() <= MAX_STACK_DEPTH,
{
}

} // verus!

use vale_village::domains::screens::{
    apply_transition, current_screen, pop_screen, push_screen, ScreenManager, MAX_STACK_DEPTH,
};
use vale_village::shared::bounded_types::{Gold, Xp};
use vale_village::shared::{
    Difficulty, DungeonId, EncounterDef, EncounterId, GameScreen, MenuScreen, NpcId, ScreenStack,
    ScreenTransition, ShopId, TownId,
};

fn make_encounter() -> EncounterDef {
    EncounterDef {
        id: EncounterId("test-enc".into()),
        name: "Test".into(),
        difficulty: Difficulty::Easy,
        enemies: vec![],
        xp_reward: Xp::new(10),
        gold_reward: Gold::new(5),
        recruit: None,
        djinn_reward: None,
        equipment_rewards: vec![],
    }
}

// 1. Default manager starts on Title screen
#[test]
fn test_default_screen_is_title() {
    let mgr = ScreenManager::default();
    assert_eq!(*current_screen(&mgr), GameScreen::Title);
}

// 2. Push / pop roundtrip
#[test]
fn test_push_pop_roundtrip() {
    let mut stack = ScreenStack::default();
    push_screen(&mut stack, GameScreen::WorldMap).unwrap();
    push_screen(&mut stack, GameScreen::Battle).unwrap();
    assert_eq!(pop_screen(&mut stack), Some(GameScreen::Battle));
    assert_eq!(pop_screen(&mut stack), Some(GameScreen::WorldMap));
    assert_eq!(pop_screen(&mut stack), None);
}

// 3. Max depth enforcement via push_screen
#[test]
fn test_max_depth_enforcement() {
    let mut stack = ScreenStack::default();
    for i in 0..MAX_STACK_DEPTH {
        push_screen(&mut stack, GameScreen::Town(TownId(i as u8))).unwrap();
    }
    let result = push_screen(&mut stack, GameScreen::Battle);
    assert!(result.is_err());
    assert_eq!(result.unwrap_err().depth, MAX_STACK_DEPTH);
}

// 4. apply_transition — ToTitle clears stack
#[test]
fn test_to_title_clears_stack() {
    let mut mgr = ScreenManager::new(GameScreen::WorldMap);
    mgr.stack.stack.push(GameScreen::Title);
    let screen = apply_transition(&mut mgr, ScreenTransition::ToTitle);
    assert_eq!(screen, GameScreen::Title);
    assert!(mgr.stack.stack.is_empty());
}

// 5. apply_transition — ToWorldMap
#[test]
fn test_transition_to_world_map() {
    let mut mgr = ScreenManager::new(GameScreen::Title);
    let screen = apply_transition(&mut mgr, ScreenTransition::ToWorldMap);
    assert_eq!(screen, GameScreen::WorldMap);
    assert_eq!(mgr.stack.stack.last(), Some(&GameScreen::Title));
}

// 6. apply_transition — EnterTown / EnterDungeon
#[test]
fn test_transition_enter_town_and_dungeon() {
    let mut mgr = ScreenManager::new(GameScreen::WorldMap);
    apply_transition(&mut mgr, ScreenTransition::EnterTown(TownId(3)));
    assert_eq!(mgr.current, GameScreen::Town(TownId(3)));

    apply_transition(&mut mgr, ScreenTransition::EnterDungeon(DungeonId(7)));
    assert_eq!(mgr.current, GameScreen::Dungeon(DungeonId(7)));
}

// 7. apply_transition — StartBattle
#[test]
fn test_transition_start_battle() {
    let mut mgr = ScreenManager::new(GameScreen::WorldMap);
    let screen = apply_transition(&mut mgr, ScreenTransition::StartBattle(make_encounter()));
    assert_eq!(screen, GameScreen::Battle);
}

// 8. apply_transition — OpenMenu / OpenShop / StartDialogue / OpenSaveLoad
#[test]
fn test_transition_open_overlays() {
    let mut mgr = ScreenManager::new(GameScreen::WorldMap);

    apply_transition(&mut mgr, ScreenTransition::OpenMenu(MenuScreen::Items));
    assert_eq!(mgr.current, GameScreen::Menu(MenuScreen::Items));

    apply_transition(&mut mgr, ScreenTransition::OpenShop(ShopId(2)));
    assert_eq!(mgr.current, GameScreen::Shop(ShopId(2)));

    apply_transition(&mut mgr, ScreenTransition::StartDialogue(NpcId(9)));
    assert_eq!(mgr.current, GameScreen::Dialogue(NpcId(9)));

    apply_transition(&mut mgr, ScreenTransition::OpenSaveLoad);
    assert_eq!(mgr.current, GameScreen::SaveLoad);
}

// 9. apply_transition — TriggerGameOver and TriggerVictory clear stack
#[test]
fn test_transition_game_over_and_victory() {
    let mut mgr = ScreenManager::new(GameScreen::Battle);
    mgr.stack.stack.push(GameScreen::WorldMap);

    apply_transition(&mut mgr, ScreenTransition::TriggerGameOver);
    assert_eq!(mgr.current, GameScreen::GameOver);
    assert!(mgr.stack.stack.is_empty());

    mgr.current = GameScreen::Battle;
    mgr.stack.stack.push(GameScreen::WorldMap);
    apply_transition(&mut mgr, ScreenTransition::TriggerVictory);
    assert_eq!(mgr.current, GameScreen::Victory);
    assert!(mgr.stack.stack.is_empty());
}

// 10. apply_transition — ReturnToPrevious
#[test]
fn test_transition_return_to_previous() {
    let mut mgr = ScreenManager::new(GameScreen::Menu(MenuScreen::Party));
    mgr.stack.stack.push(GameScreen::WorldMap);
    let screen = apply_transition(&mut mgr, ScreenTransition::ReturnToPrevious);
    assert_eq!(screen, GameScreen::WorldMap);
    assert!(mgr.stack.stack.is_empty());
}

// 11. ReturnToPrevious on empty stack is a no-op
#[test]
fn test_return_to_previous_empty_stack_noop() {
    let mut mgr = ScreenManager::new(GameScreen::Title);
    let screen = apply_transition(&mut mgr, ScreenTransition::ReturnToPrevious);
    assert_eq!(screen, GameScreen::Title);
}

// 12. Deep navigation sequence and full unwind
#[test]
fn test_deep_navigation_unwind() {
    let mut mgr = ScreenManager::new(GameScreen::Title);
    apply_transition(&mut mgr, ScreenTransition::ToWorldMap);
    apply_transition(&mut mgr, ScreenTransition::EnterTown(TownId(1)));
    apply_transition(&mut mgr, ScreenTransition::OpenMenu(MenuScreen::Equipment));
    assert_eq!(mgr.stack.stack.len(), 3);

    apply_transition(&mut mgr, ScreenTransition::ReturnToPrevious);
    apply_transition(&mut mgr, ScreenTransition::ReturnToPrevious);
    apply_transition(&mut mgr, ScreenTransition::ReturnToPrevious);
    assert_eq!(mgr.current, GameScreen::Title);
    assert!(mgr.stack.stack.is_empty());
}

// 13. All 12 MenuScreen variants reachable
#[test]
fn test_all_menu_screen_variants() {
    let menus = [
        MenuScreen::Party,
        MenuScreen::Equipment,
        MenuScreen::Djinn,
        MenuScreen::Items,
        MenuScreen::Psynergy,
        MenuScreen::Status,
        MenuScreen::QuestLog,
    ];
    for menu in menus {
        let mut mgr = ScreenManager::new(GameScreen::WorldMap);
        apply_transition(&mut mgr, ScreenTransition::OpenMenu(menu));
        assert_eq!(mgr.current, GameScreen::Menu(menu));
    }
}

#[test]
fn forward_navigation_drops_oldest_when_history_full() {
    let mut mgr = ScreenManager::new(GameScreen::Title);
    for i in 0..MAX_STACK_DEPTH {
        mgr.stack.stack.push(GameScreen::Town(TownId(i as u8)));
    }
    apply_transition(&mut mgr, ScreenTransition::ToWorldMap);
    assert_eq!(mgr.stack.stack.len(), MAX_STACK_DEPTH);
    assert_eq!(mgr.stack.stack[0], GameScreen::Town(TownId(1)));
    assert_eq!(mgr.stack.stack.last(), Some(&GameScreen::Title));
    assert_eq!(mgr.current, GameScreen::WorldMap);
}

#[test]
fn return_after_forward_restores_screen() {
    let mut mgr = ScreenManager::new(GameScreen::Town(TownId(4)));
    apply_transition(&mut mgr, ScreenTransition::OpenShop(ShopId(1)));
    let back = apply_transition(&mut mgr, ScreenTransition::ReturnToPrevious);
    assert_eq!(back, GameScreen::Town(TownId(4)));
    assert!(mgr.stack.stack.is_empty());
}

#[test]
fn push_screen_refusal_leaves_stack_unchanged() {
    let mut stack = ScreenStack::default();
    for _ in 0..MAX_STACK_DEPTH {
        push_screen(&mut stack, GameScreen::Battle).unwrap();
    }
    let before = stack.clone();
    assert!(push_screen(&mut stack, GameScreen::Title).is_err());
    assert_eq!(stack, before);
}

use vale_village::domains::dungeon::{
    collect_item, enter_dungeon, get_available_exits, get_room_puzzles, is_boss_room, move_to_room,
    trigger_encounter, ConditionContext, DungeonError,
};
use vale_village::shared::bounded_types::{Gold, Xp};
use vale_village::shared::{
    DialogueCondition, Difficulty, Direction, DjinnId, DungeonDef, DungeonId, EncounterDef,
    EncounterId, EncounterSlot, ItemId, PuzzleDef, PuzzleType, QuestFlagId, QuestStage, RoomDef,
    RoomExit, RoomId, RoomItem, RoomType, UnitId,
};

// ── Minimal ConditionContext for tests ────────────────────────────

struct TestCtx {
    items: Vec<ItemId>,
}

impl ConditionContext for TestCtx {
    fn has_item(&self, item: &ItemId) -> bool {
        self.items.contains(item)
    }
    fn has_djinn(&self, _: &DjinnId) -> bool { false }
    fn quest_at_stage(&self, _: &QuestFlagId, _: QuestStage) -> bool { false }
    fn gold_at_least(&self, _: Gold) -> bool { false }
    fn party_contains(&self, _: &UnitId) -> bool { false }
}

fn empty_ctx() -> TestCtx {
    TestCtx { items: vec![] }
}

// ── Dungeon fixture ───────────────────────────────────────────────

fn make_encounter(id: &str) -> EncounterDef {
    EncounterDef {
        id: EncounterId(id.to_string()),
        name: id.to_string(),
        difficulty: Difficulty::Easy,
        enemies: vec![],
        xp_reward: Xp::new(10),
        gold_reward: Gold::new(5),
        recruit: None,
        djinn_reward: None,
        equipment_rewards: vec![],
    }
}

fn make_dungeon() -> DungeonDef {
    let room0 = RoomDef {
        id: RoomId(0),
        room_type: RoomType::Normal,
        exits: vec![RoomExit {
            direction: Direction::Right,
            target_room: RoomId(1),
            requires: None,
        }],
        encounters: vec![EncounterSlot {
            encounter: make_encounter("slime"),
            weight: 10,
            max_triggers: Some(2),
        }],
        items: vec![RoomItem {
            item_id: ItemId("herb".to_string()),
            visible: true,
            quest_flag: None,
        }],
        puzzles: vec![],
    };

    let room1 = RoomDef {
        id: RoomId(1),
        room_type: RoomType::Normal,
        exits: vec![
            RoomExit {
                direction: Direction::Left,
                target_room: RoomId(0),
                requires: None,
            },
            RoomExit {
                direction: Direction::Right,
                target_room: RoomId(2),
                requires: Some(DialogueCondition::HasItem(ItemId("key".to_string()))),
            },
        ],
        encounters: vec![],
        items: vec![],
        puzzles: vec![PuzzleDef {
            puzzle_type: PuzzleType::PushBlock,
            reward: None,
        }],
    };

    let room2 = RoomDef {
        id: RoomId(2),
        room_type: RoomType::Boss,
        exits: vec![],
        encounters: vec![EncounterSlot {
            encounter: make_encounter("boss"),
            weight: 1,
            max_triggers: None, // unlimited
        }],
        items: vec![],
        puzzles: vec![],
    };

    DungeonDef {
        id: DungeonId(1),
        name: "Test Dungeon".to_string(),
        rooms: vec![room0, room1, room2],
        entry_room: RoomId(0),
        boss_room: Some(RoomId(2)),
    }
}

// ── Tests ─────────────────────────────────────────────────────────

#[test]
fn test_enter_dungeon_starts_at_entry_room() {
    let def = make_dungeon();
    let state = enter_dungeon(&def);
    assert_eq!(state.current_room, RoomId(0));
}

#[test]
fn test_enter_dungeon_marks_entry_visited() {
    let def = make_dungeon();
    let state = enter_dungeon(&def);
    assert!(state.visited_rooms.contains(&RoomId(0)));
}

#[test]
fn test_move_to_room_succeeds() {
    let def = make_dungeon();
    let mut state = enter_dungeon(&def);
    assert!(move_to_room(&mut state, &def, RoomId(1)).is_ok());
    assert_eq!(state.current_room, RoomId(1));
}

#[test]
fn test_move_to_room_marks_visited() {
    let def = make_dungeon();
    let mut state = enter_dungeon(&def);
    move_to_room(&mut state, &def, RoomId(1)).unwrap();
    assert!(state.visited_rooms.contains(&RoomId(1)));
}

#[test]
fn test_move_to_room_invalid_returns_error() {
    let def = make_dungeon();
    let mut state = enter_dungeon(&def);
    let result = move_to_room(&mut state, &def, RoomId(2));
    assert_eq!(result, Err(DungeonError::NoExitToRoom(RoomId(2))));
}

#[test]
fn test_item_collection_one_time() {
    let def = make_dungeon();
    let mut state = enter_dungeon(&def);
    let first = collect_item(&mut state, &def, 0);
    assert_eq!(first, Some(ItemId("herb".to_string())));
    let second = collect_item(&mut state, &def, 0);
    assert_eq!(second, None, "item should not be collectible twice");
}

#[test]
fn test_item_collection_out_of_bounds() {
    let def = make_dungeon();
    let mut state = enter_dungeon(&def);
    assert_eq!(collect_item(&mut state, &def, 99), None);
}

#[test]
fn test_encounter_trigger_respects_max_triggers() {
    let def = make_dungeon();
    let mut state = enter_dungeon(&def);
    // max_triggers == 2
    assert!(trigger_encounter(&mut state, &def, 0).is_some());
    assert!(trigger_encounter(&mut state, &def, 0).is_some());
    assert!(
        trigger_encounter(&mut state, &def, 0).is_none(),
        "encounter should be exhausted after max_triggers"
    );
}

#[test]
fn test_encounter_unlimited_triggers() {
    let def = make_dungeon();
    let mut state = enter_dungeon(&def);
    move_to_room(&mut state, &def, RoomId(1)).unwrap();
    // Need key to reach room 2; bypass by moving via def directly
    // Instead just manipulate state manually for test purposes
    state.current_room = RoomId(2);
    for _ in 0..10 {
        assert!(
            trigger_encounter(&mut state, &def, 0).is_some(),
            "unlimited encounter should always trigger"
        );
    }
}

#[test]
fn test_conditional_exits_filtered_without_item() {
    let def = make_dungeon();
    let mut state = enter_dungeon(&def);
    move_to_room(&mut state, &def, RoomId(1)).unwrap();
    let ctx = empty_ctx();
    let exits = get_available_exits(&state, &def, &ctx);
    // Only the unconditional left exit should be visible
    assert_eq!(exits.len(), 1);
    assert_eq!(exits[0].0, Direction::Left);
}

#[test]
fn test_conditional_exits_shown_with_item() {
    let def = make_dungeon();
    let mut state = enter_dungeon(&def);
    move_to_room(&mut state, &def, RoomId(1)).unwrap();
    let ctx = TestCtx { items: vec![ItemId("key".to_string())] };
    let exits = get_available_exits(&state, &def, &ctx);
    assert_eq!(exits.len(), 2, "both exits visible when player has key");
}

#[test]
fn test_is_boss_room_true() {
    let def = make_dungeon();
    assert!(is_boss_room(&def, RoomId(2)));
}

#[test]
fn test_is_boss_room_false() {
    let def = make_dungeon();
    assert!(!is_boss_room(&def, RoomId(0)));
    assert!(!is_boss_room(&def, RoomId(1)));
}

#[test]
fn test_get_room_puzzles() {
    let def = make_dungeon();
    let mut state = enter_dungeon(&def);
    move_to_room(&mut state, &def, RoomId(1)).unwrap();
    let puzzles = get_room_puzzles(&state, &def);
    assert_eq!(puzzles.len(), 1);
    assert_eq!(puzzles[0].puzzle_type, PuzzleType::PushBlock);
}

#[test]
fn test_move_to_missing_room_returns_room_not_found() {
    let mut def = make_dungeon();
    def.rooms[0].exits.push(RoomExit { direction: Direction::Up, target_room: RoomId(9), requires: None });
    let mut state = enter_dungeon(&def);
    assert_eq!(move_to_room(&mut state, &def, RoomId(9)), Err(DungeonError::RoomNotFound(RoomId(9))));
    assert_eq!(state.current_room, RoomId(0));
}

#[test]
fn test_revisiting_room_records_it_once() {
    let def = make_dungeon();
    let mut state = enter_dungeon(&def);
    move_to_room(&mut state, &def, RoomId(1)).unwrap();
    move_to_room(&mut state, &def, RoomId(0)).unwrap();
    assert_eq!(state.visited_rooms, vec![RoomId(0), RoomId(1)]);
}

#[test]
fn test_trigger_missing_slot_is_none() {
    let def = make_dungeon();
    let mut state = enter_dungeon(&def);
    assert!(trigger_encounter(&mut state, &def, 5).is_none());
    assert!(state.encounter_counts.is_empty());
}

#[test]
fn test_triggered_encounter_is_the_slot_encounter() {
    let def = make_dungeon();
    let mut state = enter_dungeon(&def);
    let enc = trigger_encounter(&mut state, &def, 0).unwrap();
    assert_eq!(enc.id, EncounterId("slime".to_string()));
}

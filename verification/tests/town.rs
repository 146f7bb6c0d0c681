use vale_village::domains::town::{
    discover_djinn, check_djinn_discovery, get_exits, get_npc_dialogue, get_npcs, get_shops,
    load_town,
};
use vale_village::shared::{
    DialogueTreeId, Direction, DjinnDiscoveryPoint, DjinnId, MapNodeId, NpcId, NpcPlacement,
    QuestFlagId, QuestStage, QuestState, ShopId, TownDef, TownId,
};

fn make_def() -> TownDef {
    TownDef {
        id: TownId(1),
        name: "Vale Village".to_string(),
        npcs: vec![
            NpcPlacement {
                npc_id: NpcId(10),
                facing: Direction::Down,
                dialogue_tree: DialogueTreeId(100),
            },
            NpcPlacement {
                npc_id: NpcId(11),
                facing: Direction::Up,
                dialogue_tree: DialogueTreeId(101),
            },
        ],
        shops: vec![ShopId(1), ShopId(2)],
        djinn_points: vec![
            DjinnDiscoveryPoint {
                djinn_id: DjinnId("Flint".to_string()),
                requires_puzzle: false,
                quest_flag: None,
            },
            DjinnDiscoveryPoint {
                djinn_id: DjinnId("Forge".to_string()),
                requires_puzzle: false,
                quest_flag: Some(QuestFlagId(5)),
            },
        ],
        exits: vec![MapNodeId(3), MapNodeId(4)],
    }
}

#[test]
fn test_load_town_sets_current_town() {
    let def = make_def();
    let state = load_town(&def);
    assert_eq!(state.current_town, Some(TownId(1)));
    assert!(state.discovered_djinn.is_empty());
}

#[test]
fn test_get_npcs_returns_all() {
    let def = make_def();
    assert_eq!(get_npcs(&def).len(), 2);
}

#[test]
fn test_get_npc_dialogue_found() {
    let def = make_def();
    assert_eq!(get_npc_dialogue(&def, NpcId(10)), Some(DialogueTreeId(100)));
    assert_eq!(get_npc_dialogue(&def, NpcId(11)), Some(DialogueTreeId(101)));
}

#[test]
fn test_get_npc_dialogue_not_found() {
    let def = make_def();
    assert_eq!(get_npc_dialogue(&def, NpcId(99)), None);
}

#[test]
fn test_get_shops_returns_all() {
    let def = make_def();
    let shops = get_shops(&def);
    assert_eq!(shops.len(), 2);
    assert!(shops.contains(&ShopId(1)));
    assert!(shops.contains(&ShopId(2)));
}

#[test]
fn test_get_exits_returns_all() {
    let def = make_def();
    let exits = get_exits(&def);
    assert_eq!(exits.len(), 2);
    assert!(exits.contains(&MapNodeId(3)));
    assert!(exits.contains(&MapNodeId(4)));
}

// The library takes, for each djinn point, whether the player stands within
// the discovery radius (1.5) of it; the points of the fixture stand at (0, 0)
// and (20, 20), and `in_range` measures the player's distance to them.

const POINT_POSITIONS: [(f32, f32); 2] = [(0.0, 0.0), (20.0, 20.0)];

fn in_range(position: (f32, f32)) -> Vec<bool> {
    POINT_POSITIONS
        .iter()
        .map(|p| {
            let dx = position.0 - p.0;
            let dy = position.1 - p.1;
            dx * dx + dy * dy <= 1.5 * 1.5
        })
        .collect()
}

#[test]
fn test_djinn_discovery_within_range() {
    let def = make_def();
    let state = load_town(&def);
    let qs = QuestState::default();
    let result = check_djinn_discovery(&def, &state, &in_range((0.5, 0.5)), &qs);
    assert_eq!(result, Some(DjinnId("Flint".to_string())));
}

#[test]
fn test_djinn_discovery_out_of_range() {
    let def = make_def();
    let state = load_town(&def);
    let qs = QuestState::default();
    let result = check_djinn_discovery(&def, &state, &in_range((10.0, 10.0)), &qs);
    assert_eq!(result, None);
}

#[test]
fn test_djinn_discovery_one_time() {
    let def = make_def();
    let mut state = load_town(&def);
    let qs = QuestState::default();

    let first = check_djinn_discovery(&def, &state, &in_range((0.5, 0.5)), &qs);
    assert_eq!(first, Some(DjinnId("Flint".to_string())));

    discover_djinn(&mut state, DjinnId("Flint".to_string()));

    let second = check_djinn_discovery(&def, &state, &in_range((0.5, 0.5)), &qs);
    assert_eq!(second, None);
}

#[test]
fn test_djinn_quest_gated_blocked() {
    let def = make_def();
    let state = load_town(&def);
    let qs = QuestState::default();
    let result = check_djinn_discovery(&def, &state, &in_range((20.0, 20.0)), &qs);
    assert_eq!(result, None);
}

#[test]
fn test_djinn_quest_gated_unlocked() {
    let def = make_def();
    let state = load_town(&def);
    let mut qs = QuestState::default();
    qs.advance(QuestFlagId(5), QuestStage::Active);
    let result = check_djinn_discovery(&def, &state, &in_range((20.0, 20.0)), &qs);
    assert_eq!(result, Some(DjinnId("Forge".to_string())));
}

#[test]
fn test_djinn_requires_puzzle_blocks_until_complete() {
    let mut def = make_def();
    def.djinn_points[1].requires_puzzle = true;

    let state = load_town(&def);
    let mut qs = QuestState::default();
    qs.advance(QuestFlagId(5), QuestStage::Active);

    let blocked = check_djinn_discovery(&def, &state, &in_range((20.0, 20.0)), &qs);
    assert_eq!(blocked, None);

    qs.advance(QuestFlagId(5), QuestStage::Complete);

    let unlocked = check_djinn_discovery(&def, &state, &in_range((20.0, 20.0)), &qs);
    assert_eq!(unlocked, Some(DjinnId("Forge".to_string())));
}

#[test]
fn discovering_twice_records_once() {
    let def = make_def();
    let mut state = load_town(&def);
    discover_djinn(&mut state, DjinnId("Flint".to_string()));
    discover_djinn(&mut state, DjinnId("Flint".to_string()));
    assert_eq!(state.discovered_djinn.len(), 1);
}

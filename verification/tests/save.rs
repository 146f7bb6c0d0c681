use vale_village::domains::save::{
    check_save_version, create_new_game, SaveError, SavedEquipment, CURRENT_SAVE_VERSION,
};
use vale_village::shared::EquipmentId;

#[test]
fn new_game_has_four_party_members() {
    let data = create_new_game();
    assert_eq!(data.player_party.len(), 4);

    let ids: Vec<&str> = data.player_party.iter().map(|u| u.unit_id.0.as_str()).collect();
    assert!(ids.contains(&"adept"));
    assert!(ids.contains(&"war-mage"));
    assert!(ids.contains(&"mystic"));
    assert!(ids.contains(&"ranger"));
}

#[test]
fn new_game_starting_level_is_one() {
    let data = create_new_game();
    for unit in &data.player_party {
        assert_eq!(unit.level, 1, "unit {} should be level 1", unit.unit_id.0);
    }
}

#[test]
fn new_game_starting_resources() {
    let data = create_new_game();
    assert_eq!(data.version, CURRENT_SAVE_VERSION);
    assert_eq!(data.gold, 200);
    assert_eq!(data.xp, 0);
    assert!(data.roster.is_empty());
    assert!(data.inventory.is_empty());
    assert!(data.team_djinn.is_empty());
    assert_eq!(data.current_encounter_id, None);
    assert_eq!(data.player_party[1].equipment.weapon, Some(EquipmentId("wooden-axe".to_string())));
    assert_eq!(data.player_party[2].equipment.weapon, Some(EquipmentId("wooden-staff".to_string())));
    assert_eq!(data.player_party[0].equipment.helm, None);
    assert_eq!(data.player_party[3].current_hp, 100);
}

#[test]
fn version_mismatch_detected() {
    match check_save_version(999) {
        Err(SaveError::VersionMismatch { expected, found }) => {
            assert_eq!(expected, CURRENT_SAVE_VERSION);
            assert_eq!(found, 999);
        }
        other => panic!("expected VersionMismatch, got: {:?}", other),
    }
}

#[test]
fn current_version_is_accepted() {
    assert!(check_save_version(CURRENT_SAVE_VERSION).is_ok());
}

#[test]
fn version_mismatch_text() {
    let e = SaveError::VersionMismatch { expected: 1, found: 999 };
    assert_eq!(e.describe(), "Version mismatch: expected 1, found 999");
    let e = SaveError::VersionMismatch { expected: 10, found: 0 };
    assert_eq!(e.describe(), "Version mismatch: expected 10, found 0");
}

#[test]
fn error_texts() {
    assert_eq!(SaveError::SerializeError("x".to_string()).describe(), "Serialize error: x");
    assert_eq!(SaveError::DeserializeError("y".to_string()).describe(), "Deserialize error: y");
    let io = SaveError::IoError(std::io::Error::new(std::io::ErrorKind::NotFound, "gone"));
    assert_eq!(io.describe(), "IO error: gone");
}

#[test]
fn saved_equipment_default_is_empty() {
    let e = SavedEquipment::default();
    assert_eq!(e.weapon, None);
    assert_eq!(e.helm, None);
    assert_eq!(e.armor, None);
    assert_eq!(e.boots, None);
    assert_eq!(e.accessory, None);
}

#[test]
fn new_game_has_no_extension() {
    let data = create_new_game();
    assert!(data.extension.is_none());
}

#[test]
fn default_extension_is_empty_at_title() {
    let ext = vale_village::domains::save::create_default_extension();
    assert!(ext.quest_state.is_empty());
    assert!(ext.map_unlock_state.is_empty());
    assert_eq!(ext.overworld.location, vale_village::shared::GameScreen::Title);
    assert!(ext.overworld.room.is_none());
    assert_eq!(ext.overworld.position_x_bits, 0.0f32.to_bits());
    assert_eq!(ext.overworld.position_y_bits, 0.0f32.to_bits());
    assert_eq!(ext.overworld.facing, vale_village::shared::Direction::Down);
    assert!(ext.shop_stock.is_empty());
    assert!(ext.visited_rooms.is_empty());
    assert!(ext.collected_items.is_empty());
    assert_eq!(ext.play_time_seconds, 0);
    assert!(ext.save_timestamp.is_empty());
}

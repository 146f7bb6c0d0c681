use vale_village::domains::encounter::{decrement_slot, prepare_boss, select_encounter, should_encounter};
use vale_village::shared::bounded_types::{EncounterRate, Gold, Xp};
use vale_village::shared::{
    BossEncounter, DialogueTreeId, Difficulty, EncounterDef, EncounterId, EncounterSlot,
    EncounterTable, MapNodeId,
};

fn make_encounter(id: &str) -> EncounterDef {
    EncounterDef {
        id: EncounterId(id.to_string()),
        name: id.to_string(),
        difficulty: Difficulty::Medium,
        enemies: vec![],
        xp_reward: Xp::new(10),
        gold_reward: Gold::new(5),
        recruit: None,
        djinn_reward: None,
        equipment_rewards: vec![],
    }
}

fn make_table(base_rate: u8, slots: Vec<EncounterSlot>) -> EncounterTable {
    EncounterTable {
        region_id: 1,
        base_rate: EncounterRate::new(base_rate),
        entries: slots,
    }
}

fn slot(id: &str, weight: u8, max_triggers: Option<u8>) -> EncounterSlot {
    EncounterSlot {
        encounter: make_encounter(id),
        weight,
        max_triggers,
    }
}

// ── should_encounter ────────────────────────────────────────────

#[test]
fn test_should_encounter_below_threshold() {
    let table = make_table(10, vec![slot("wolf", 1, None)]);
    assert!(!should_encounter(&table, 9));
}

#[test]
fn test_should_encounter_at_threshold() {
    let table = make_table(10, vec![slot("wolf", 1, None)]);
    assert!(should_encounter(&table, 10));
}

#[test]
fn test_should_encounter_above_threshold() {
    let table = make_table(5, vec![slot("wolf", 1, None)]);
    assert!(should_encounter(&table, 99));
}

// ── select_encounter ────────────────────────────────────────────

#[test]
fn test_select_encounter_deterministic() {
    let table = make_table(5, vec![slot("slime", 3, None), slot("wolf", 7, None)]);
    // Same step_count must always return the same encounter.
    let a = select_encounter(&table, 42).map(|e| e.id.0.clone());
    let b = select_encounter(&table, 42).map(|e| e.id.0.clone());
    assert_eq!(a, b);
}

#[test]
fn test_select_encounter_weighted() {
    // weight 10 for "slime", 0 for "wolf" → always slime
    let table = make_table(5, vec![slot("slime", 10, None), slot("wolf", 0, None)]);
    for step in 0..20u16 {
        let enc = select_encounter(&table, step);
        assert_eq!(enc.map(|e| e.id.0.as_str()), Some("slime"));
    }
}

#[test]
fn test_select_encounter_empty_table() {
    let table = make_table(5, vec![]);
    assert!(select_encounter(&table, 0).is_none());
}

#[test]
fn test_select_encounter_all_exhausted() {
    let table = make_table(5, vec![slot("slime", 5, Some(0)), slot("wolf", 5, Some(0))]);
    assert!(select_encounter(&table, 7).is_none());
}

#[test]
fn test_select_encounter_skips_exhausted_slot() {
    // slime exhausted, wolf still available
    let table = make_table(5, vec![slot("slime", 5, Some(0)), slot("wolf", 5, None)]);
    let enc = select_encounter(&table, 0);
    assert_eq!(enc.map(|e| e.id.0.as_str()), Some("wolf"));
}

// ── decrement_slot ──────────────────────────────────────────────

#[test]
fn test_decrement_slot_reduces_triggers() {
    let mut table = make_table(5, vec![slot("boss", 1, Some(3))]);
    decrement_slot(&mut table, 0);
    assert_eq!(table.entries[0].max_triggers, Some(2));
}

#[test]
fn test_decrement_slot_no_underflow() {
    let mut table = make_table(5, vec![slot("boss", 1, Some(0))]);
    decrement_slot(&mut table, 0);
    assert_eq!(table.entries[0].max_triggers, Some(0));
}

#[test]
fn test_decrement_slot_unlimited_unchanged() {
    let mut table = make_table(5, vec![slot("wolf", 1, None)]);
    decrement_slot(&mut table, 0);
    assert_eq!(table.entries[0].max_triggers, None);
}

// ── prepare_boss ────────────────────────────────────────────────

#[test]
fn test_prepare_boss_returns_correct_fields() {
    let boss = BossEncounter {
        encounter: make_encounter("dragon"),
        pre_dialogue: Some(DialogueTreeId(42)),
        post_dialogue: None,
        quest_advance: None,
        unlock_on_defeat: vec![MapNodeId(7), MapNodeId(8)],
    };
    let (dlg, enc, nodes) = prepare_boss(&boss);
    assert_eq!(dlg, Some(DialogueTreeId(42)));
    assert_eq!(enc.id.0, "dragon");
    assert_eq!(nodes, vec![MapNodeId(7), MapNodeId(8)]);
}

#[test]
fn test_prepare_boss_no_dialogue() {
    let boss = BossEncounter {
        encounter: make_encounter("golem"),
        pre_dialogue: None,
        post_dialogue: None,
        quest_advance: None,
        unlock_on_defeat: vec![],
    };
    let (dlg, enc, nodes) = prepare_boss(&boss);
    assert_eq!(dlg, None);
    assert_eq!(enc.id.0, "golem");
    assert!(nodes.is_empty());
}

#[test]
fn test_select_encounter_weight_boundaries() {
    // weights 3 and 7: picks 0..3 -> slime, 3..10 -> wolf
    let table = make_table(5, vec![slot("slime", 3, None), slot("wolf", 7, None)]);
    assert_eq!(select_encounter(&table, 2).map(|e| e.id.0.as_str()), Some("slime"));
    assert_eq!(select_encounter(&table, 3).map(|e| e.id.0.as_str()), Some("wolf"));
    assert_eq!(select_encounter(&table, 13).map(|e| e.id.0.as_str()), Some("wolf"));
}

#[test]
fn test_select_encounter_zero_total_weight() {
    let table = make_table(5, vec![slot("slime", 0, None)]);
    assert!(select_encounter(&table, 3).is_none());
}

#[test]
fn test_decrement_slot_out_of_range_is_noop() {
    let mut table = make_table(5, vec![slot("boss", 1, Some(3))]);
    decrement_slot(&mut table, 4);
    assert_eq!(table.entries[0].max_triggers, Some(3));
}

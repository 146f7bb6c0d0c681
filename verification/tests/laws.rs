use vale_village::domains::combat::ManaPool;
use vale_village::domains::djinn::{determine_compatibility, tick_recovery, DjinnInstance, DjinnSlots};
use vale_village::domains::encounter::{decrement_slot, select_encounter};
use vale_village::domains::equipment::{equip, unequip, EquipmentLoadout};
use vale_village::domains::progression::{add_xp, UnitProgress};
use vale_village::domains::status::{consume_barrier, ActiveBarrier};
use vale_village::shared::bounded_types::{EncounterRate, Gold, Xp};
use vale_village::shared::{
    Difficulty, DjinnId, DjinnState, Element, EncounterDef, EncounterId, EncounterSlot, EncounterTable,
    EquipmentDef, EquipmentId, EquipmentSlot, EquipmentTier, QuestFlagId, QuestStage, QuestState, Side, StatBonus,
    TargetRef, UnitId,
};

fn encounter(id: &str) -> EncounterDef {
    EncounterDef {
        id: EncounterId(id.to_string()),
        name: id.to_string(),
        difficulty: Difficulty::Easy,
        enemies: vec![],
        xp_reward: Xp::new(1),
        gold_reward: Gold::new(1),
        recruit: None,
        djinn_reward: None,
        equipment_rewards: vec![],
    }
}

#[test]
fn limited_slot_fires_exactly_its_limit() {
    let mut table = EncounterTable {
        region_id: 1,
        base_rate: EncounterRate::new(5),
        entries: vec![EncounterSlot { encounter: encounter("bandits"), weight: 1, max_triggers: Some(3) }],
    };
    let mut fired = 0;
    for step in 0..10u16 {
        if select_encounter(&table, step).is_some() {
            fired += 1;
            decrement_slot(&mut table, 0);
        }
    }
    assert_eq!(fired, 3);
}

#[test]
fn unequip_gives_back_what_equip_put_in() {
    let def = EquipmentDef {
        id: EquipmentId("bronze-sword".to_string()),
        name: "Bronze Sword".to_string(),
        slot: EquipmentSlot::Weapon,
        tier: EquipmentTier::Bronze,
        cost: Gold::new(100),
        allowed_elements: vec![Element::Venus],
        stat_bonus: StatBonus::default(),
        unlocks_ability: None,
        set_id: None,
        always_first_turn: false,
        mana_bonus: None,
        hit_count_bonus: None,
    };
    let mut loadout = EquipmentLoadout::default();
    loadout.helm = Some(EquipmentId("cap".to_string()));
    let before = loadout.clone();
    assert!(equip(&mut loadout, EquipmentSlot::Weapon, def.id.clone(), &def, Element::Venus).is_ok());
    assert_eq!(unequip(&mut loadout, EquipmentSlot::Weapon), Some(def.id.clone()));
    assert_eq!(loadout, before);
}

#[test]
fn quest_advances_in_any_order_end_alike() {
    let mut a = QuestState::default();
    a.advance(QuestFlagId(1), QuestStage::Complete);
    a.advance(QuestFlagId(1), QuestStage::Active);
    let mut b = QuestState::default();
    b.advance(QuestFlagId(1), QuestStage::Active);
    b.advance(QuestFlagId(1), QuestStage::Complete);
    assert_eq!(a.get(QuestFlagId(1)), QuestStage::Complete);
    assert_eq!(b.get(QuestFlagId(1)), QuestStage::Complete);
}

#[test]
fn xp_in_two_steps_reaches_the_same_level() {
    let mut once = UnitProgress { unit_id: UnitId("adept".to_string()), level: 1, current_xp: 100 };
    let mut twice = once.clone();
    add_xp(&mut once, 1500);
    add_xp(&mut twice, 700);
    add_xp(&mut twice, 800);
    assert_eq!(once.level, twice.level);
    assert_eq!(once.level, 4);
    assert_eq!(once.current_xp, twice.current_xp);
}

#[test]
fn every_djinn_recovers_within_its_load() {
    let unit = TargetRef { side: Side::Player, index: 0 };
    let mut slots = DjinnSlots::new();
    for (i, turns) in [2u8, 0, 1].iter().enumerate() {
        slots.slots.push(DjinnInstance {
            djinn_id: DjinnId(format!("d{}", i)),
            state: DjinnState::Recovery,
            recovery_turns_remaining: *turns,
            activation_order: i as u32,
        });
    }
    // Load: (2 + 1) + (0 + 1) + (1 + 1) = 6 ticks at most.
    let mut recovered = 0;
    for _ in 0..6 {
        recovered += tick_recovery(&mut slots, unit).len();
    }
    assert_eq!(recovered, 3);
    assert!(slots.slots.iter().all(|d| d.state == DjinnState::Good));
}

#[test]
fn barriers_block_one_hit_per_charge() {
    let mut barriers = vec![
        ActiveBarrier { charges: 2, remaining_turns: 3 },
        ActiveBarrier { charges: 1, remaining_turns: 1 },
    ];
    let blocked = (0..5).filter(|_| consume_barrier(&mut barriers)).count();
    assert_eq!(blocked, 3);
}

#[test]
fn compatibility_is_symmetric() {
    let all = [Element::Venus, Element::Mars, Element::Mercury, Element::Jupiter];
    for a in all {
        for b in all {
            assert_eq!(determine_compatibility(a, b), determine_compatibility(b, a));
        }
    }
}

#[test]
fn generating_spent_mana_restores_the_pool() {
    let mut pool = ManaPool::new(8);
    pool.current_mana = 6;
    assert!(pool.spend_mana(4));
    pool.generate_mana(4);
    assert_eq!(pool.current_mana, 6);
}

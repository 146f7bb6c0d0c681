use vale_village::domains::djinn::{
    activate_djinn, compute_djinn_stat_bonus, determine_compatibility, execute_summon,
    get_available_summons, get_granted_abilities, tick_recovery, DjinnActivationEffectType,
    DjinnSlots,
};
use vale_village::shared::bounded_types::{DjinnTier, StatMod};
use vale_village::shared::{
    AbilityId, DjinnAbilityPairs, DjinnAbilitySet, DjinnCompatibility, DjinnDef, DjinnId,
    DjinnState, Element, Side, StatBonus, SummonEffect, TargetRef,
};

fn unit_ref() -> TargetRef {
    TargetRef {
        side: Side::Player,
        index: 0,
    }
}

fn make_djinn_def(id: &str, element: Element) -> DjinnDef {
    DjinnDef {
        id: DjinnId(id.to_string()),
        name: id.to_string(),
        element,
        tier: DjinnTier::new_unchecked(1),
        stat_bonus: StatBonus {
            atk: StatMod::new_unchecked(5),
            def: StatMod::new_unchecked(3),
            mag: StatMod::new_unchecked(2),
            spd: StatMod::new_unchecked(1),
            hp: StatMod::new_unchecked(10),
        },
        summon_effect: None,
        ability_pairs: DjinnAbilityPairs {
            same: DjinnAbilitySet {
                good_abilities: vec![AbilityId("same_good".into())],
                recovery_abilities: vec![AbilityId("same_recovery".into())],
            },
            counter: DjinnAbilitySet {
                good_abilities: vec![AbilityId("counter_good".into())],
                recovery_abilities: vec![AbilityId("counter_recovery".into())],
            },
            neutral: DjinnAbilitySet {
                good_abilities: vec![AbilityId("neutral_always".into())],
                recovery_abilities: vec![AbilityId("neutral_always".into())],
            },
        },
    }
}

fn make_djinn_def_with_summon_effect(
    id: &str,
    element: Element,
    summon_effect: SummonEffect,
) -> DjinnDef {
    let mut def = make_djinn_def(id, element);
    def.summon_effect = Some(summon_effect);
    def
}

fn make_slots_with(ids: &[&str], element: Element) -> DjinnSlots {
    let mut slots = DjinnSlots::new();
    for id in ids {
        slots.add(DjinnId(id.to_string()));
        // Ensure element is carried by DjinnDef, not instance
        let _ = element;
    }
    slots
}

// ── Compatibility tests ──

#[test]
fn compatibility_same_all_elements() {
    for elem in &[
        Element::Venus,
        Element::Mars,
        Element::Mercury,
        Element::Jupiter,
    ] {
        assert_eq!(
            determine_compatibility(*elem, *elem),
            DjinnCompatibility::Same
        );
    }
}

#[test]
fn compatibility_counter_all_pairs() {
    assert_eq!(
        determine_compatibility(Element::Jupiter, Element::Venus),
        DjinnCompatibility::Counter
    );
    assert_eq!(
        determine_compatibility(Element::Venus, Element::Jupiter),
        DjinnCompatibility::Counter
    );
    assert_eq!(
        determine_compatibility(Element::Mercury, Element::Mars),
        DjinnCompatibility::Counter
    );
    assert_eq!(
        determine_compatibility(Element::Mars, Element::Mercury),
        DjinnCompatibility::Counter
    );
}

#[test]
fn compatibility_neutral() {
    assert_eq!(
        determine_compatibility(Element::Venus, Element::Mars),
        DjinnCompatibility::Neutral
    );
    assert_eq!(
        determine_compatibility(Element::Mercury, Element::Jupiter),
        DjinnCompatibility::Neutral
    );
    assert_eq!(
        determine_compatibility(Element::Mars, Element::Jupiter),
        DjinnCompatibility::Neutral
    );
    assert_eq!(
        determine_compatibility(Element::Venus, Element::Mercury),
        DjinnCompatibility::Neutral
    );
}

// ── Ability grant tests ──

#[test]
fn abilities_same_good() {
    let def = make_djinn_def("flint", Element::Venus);
    let abilities = get_granted_abilities(&def, DjinnCompatibility::Same, DjinnState::Good);
    assert_eq!(abilities, vec![AbilityId("same_good".into())]);
}

#[test]
fn abilities_same_recovery() {
    let def = make_djinn_def("flint", Element::Venus);
    let abilities = get_granted_abilities(&def, DjinnCompatibility::Same, DjinnState::Recovery);
    assert_eq!(abilities, vec![AbilityId("same_recovery".into())]);
}

#[test]
fn abilities_counter_good() {
    let def = make_djinn_def("forge", Element::Mars);
    let abilities = get_granted_abilities(&def, DjinnCompatibility::Counter, DjinnState::Good);
    assert_eq!(abilities, vec![AbilityId("counter_good".into())]);
}

#[test]
fn abilities_counter_recovery() {
    let def = make_djinn_def("forge", Element::Mars);
    let abilities =
        get_granted_abilities(&def, DjinnCompatibility::Counter, DjinnState::Recovery);
    assert_eq!(abilities, vec![AbilityId("counter_recovery".into())]);
}

#[test]
fn abilities_neutral_always_good() {
    let def = make_djinn_def("fizz", Element::Mercury);
    let abilities = get_granted_abilities(&def, DjinnCompatibility::Neutral, DjinnState::Good);
    assert_eq!(abilities, vec![AbilityId("neutral_always".into())]);
}

#[test]
fn abilities_neutral_always_recovery() {
    let def = make_djinn_def("fizz", Element::Mercury);
    let abilities =
        get_granted_abilities(&def, DjinnCompatibility::Neutral, DjinnState::Recovery);
    assert_eq!(abilities, vec![AbilityId("neutral_always".into())]);
}

// ── Activate djinn tests ──

#[test]
fn activate_good_djinn_succeeds() {
    let mut slots = make_slots_with(&["flint"], Element::Venus);
    let def = make_djinn_def("flint", Element::Venus);
    let event = activate_djinn(&mut slots, 0, unit_ref(), 2, &def);
    assert!(event.is_some());
    let (ev, activation) = event.unwrap();
    assert_eq!(ev.old_state, DjinnState::Good);
    assert_eq!(ev.new_state, DjinnState::Recovery);
    assert_eq!(ev.recovery_turns, Some(2));
    assert_eq!(activation.element, Element::Venus);
    assert_eq!(activation.base_damage, 0);
    assert_eq!(activation.effect_type, None);
    assert_eq!(slots.slots[0].state, DjinnState::Recovery);
}

#[test]
fn test_activation_damage_event() {
    let mut slots = make_slots_with(&["flint"], Element::Venus);
    let def = make_djinn_def_with_summon_effect(
        "flint",
        Element::Venus,
        SummonEffect {
            damage: 27,
            buff: None,
            status: None,
            heal: None,
        },
    );

    let (_, activation) = activate_djinn(&mut slots, 0, unit_ref(), 2, &def).unwrap();

    assert_eq!(activation.element, Element::Venus);
    assert_eq!(activation.base_damage, 27);
    assert_eq!(
        activation.effect_type,
        Some(DjinnActivationEffectType::Damage)
    );
}

#[test]
fn test_activation_heal_event() {
    let mut slots = make_slots_with(&["mist"], Element::Mercury);
    let def = make_djinn_def_with_summon_effect(
        "mist",
        Element::Mercury,
        SummonEffect {
            damage: 0,
            buff: None,
            status: None,
            heal: Some(18),
        },
    );

    let (_, activation) = activate_djinn(&mut slots, 0, unit_ref(), 2, &def).unwrap();

    assert_eq!(activation.element, Element::Mercury);
    assert_eq!(activation.base_damage, 0);
    assert_eq!(
        activation.effect_type,
        Some(DjinnActivationEffectType::Heal)
    );
}

#[test]
fn activate_recovery_djinn_fails() {
    let mut slots = make_slots_with(&["flint"], Element::Venus);
    slots.slots[0].state = DjinnState::Recovery;
    let def = make_djinn_def("flint", Element::Venus);
    let event = activate_djinn(&mut slots, 0, unit_ref(), 2, &def);
    assert!(event.is_none());
}

#[test]
fn activate_out_of_range_fails() {
    let mut slots = make_slots_with(&["flint"], Element::Venus);
    let def = make_djinn_def("flint", Element::Venus);
    let event = activate_djinn(&mut slots, 5, unit_ref(), 2, &def);
    assert!(event.is_none());
}

// ── Stat bonus tests ──

#[test]
fn stat_bonus_only_good_djinn() {
    let mut slots = make_slots_with(&["flint", "granite"], Element::Venus);
    let defs = vec![
        make_djinn_def("flint", Element::Venus),
        make_djinn_def("granite", Element::Venus),
    ];

    // Both Good: both contribute
    let bonus = compute_djinn_stat_bonus(&slots, &defs);
    assert_eq!(bonus.atk.get(), 10);
    assert_eq!(bonus.def.get(), 6);

    // Set one to Recovery
    slots.slots[1].state = DjinnState::Recovery;
    let bonus = compute_djinn_stat_bonus(&slots, &defs);
    assert_eq!(bonus.atk.get(), 5);
    assert_eq!(bonus.def.get(), 3);
}

#[test]
fn stat_bonus_empty_slots() {
    let slots = DjinnSlots::new();
    let defs: Vec<DjinnDef> = vec![];
    let bonus = compute_djinn_stat_bonus(&slots, &defs);
    assert_eq!(bonus.atk.get(), 0);
    assert_eq!(bonus.def.get(), 0);
}

// ── Summon availability tests ──

#[test]
fn summon_availability_zero_good() {
    let tiers = get_available_summons(0);
    assert!(tiers.is_empty());
}

#[test]
fn summon_availability_one_good() {
    let tiers = get_available_summons(1);
    assert_eq!(tiers.len(), 1);
    assert_eq!(tiers[0].tier, 1);
}

#[test]
fn summon_availability_two_good() {
    let tiers = get_available_summons(2);
    assert_eq!(tiers.len(), 2);
    assert_eq!(tiers[0].tier, 1);
    assert_eq!(tiers[1].tier, 2);
}

#[test]
fn summon_availability_three_good() {
    let tiers = get_available_summons(3);
    assert_eq!(tiers.len(), 3);
    assert_eq!(tiers[2].tier, 3);
    assert_eq!(tiers[2].required_good, 3);
}

// ── Execute summon tests ──

#[test]
fn execute_summon_transitions_all_to_recovery() {
    let mut slots = make_slots_with(&["flint", "granite", "quartz"], Element::Venus);
    let events = execute_summon(&mut slots, &[0, 1, 2], unit_ref(), 2);
    assert!(events.is_some());
    let events = events.unwrap();
    assert_eq!(events.len(), 3);
    for ev in &events {
        assert_eq!(ev.new_state, DjinnState::Recovery);
    }
    for inst in &slots.slots {
        assert_eq!(inst.state, DjinnState::Recovery);
    }
}

#[test]
fn execute_summon_fails_if_any_recovery() {
    let mut slots = make_slots_with(&["flint", "granite"], Element::Venus);
    slots.slots[1].state = DjinnState::Recovery;
    let events = execute_summon(&mut slots, &[0, 1], unit_ref(), 2);
    assert!(events.is_none());
    // First djinn should still be Good (transaction rolled back)
    assert_eq!(slots.slots[0].state, DjinnState::Good);
}

// ── Recovery tick tests ──

#[test]
fn tick_recovery_respects_delay() {
    let mut slots = make_slots_with(&["flint"], Element::Venus);
    // Activate with recovery_turns=2 (matches DESIGN_LOCK: "starting the turn after next")
    // Activated Turn N -> no recovery Turn N+1 -> no recovery Turn N+2's start -> recovers Turn N+2
    let def = make_djinn_def("flint", Element::Venus);
    activate_djinn(&mut slots, 0, unit_ref(), 2, &def);
    assert_eq!(slots.slots[0].state, DjinnState::Recovery);
    assert_eq!(slots.slots[0].recovery_turns_remaining, 2);

    // Tick 1 (end of activation turn): not at 0 yet, decrement 2->1, no recovery
    let events = tick_recovery(&mut slots, unit_ref());
    assert!(events.is_empty());
    assert_eq!(slots.slots[0].recovery_turns_remaining, 1);

    // Tick 2 (end of Turn N+1): not at 0 yet, decrement 1->0, no recovery
    // DESIGN_LOCK: "Turn 4: Nothing recovers yet."
    let events = tick_recovery(&mut slots, unit_ref());
    assert!(events.is_empty());
    assert_eq!(slots.slots[0].recovery_turns_remaining, 0);

    // Tick 3 (end of Turn N+2): already at 0, recovers!
    // DESIGN_LOCK: "Turn 5: Djinn 1 → GOOD."
    let events = tick_recovery(&mut slots, unit_ref());
    assert_eq!(events.len(), 1);
    assert_eq!(events[0].new_state, DjinnState::Good);
}

#[test]
fn tick_recovery_staggered_order() {
    let mut slots = make_slots_with(&["flint", "granite"], Element::Venus);

    // Activate flint first (order 0), then granite (order 1), both with 1 recovery turn
    let def_a = make_djinn_def("flint", Element::Venus);
    let def_b = make_djinn_def("granite", Element::Venus);
    activate_djinn(&mut slots, 0, unit_ref(), 1, &def_a);
    activate_djinn(&mut slots, 1, unit_ref(), 1, &def_b);

    // Tick 1: neither is at 0 yet, decrement both 1->0, no recovery
    let events = tick_recovery(&mut slots, unit_ref());
    assert!(events.is_empty());
    assert_eq!(slots.slots[0].recovery_turns_remaining, 0);
    assert_eq!(slots.slots[1].recovery_turns_remaining, 0);

    // Tick 2: both at 0. Flint recovers first (lower activation_order).
    let events = tick_recovery(&mut slots, unit_ref());
    assert_eq!(events.len(), 1);
    assert_eq!(events[0].djinn_id, DjinnId("flint".into()));
    assert_eq!(slots.slots[0].state, DjinnState::Good);
    assert_eq!(slots.slots[1].state, DjinnState::Recovery);

    // Tick 3: granite recovers (still at 0, now lowest remaining order)
    let events = tick_recovery(&mut slots, unit_ref());
    assert_eq!(events.len(), 1);
    assert_eq!(events[0].djinn_id, DjinnId("granite".into()));
    assert_eq!(slots.slots[1].state, DjinnState::Good);
}

#[test]
fn tick_recovery_no_recovery_djinn() {
    let mut slots = make_slots_with(&["flint"], Element::Venus);
    // All Good, nothing to recover
    let events = tick_recovery(&mut slots, unit_ref());
    assert!(events.is_empty());
}

// ── DESIGN_LOCK compliance test ──

/// Mirrors the exact 3-Djinn Summon Example from DESIGN_LOCK.md §4:
///   Turn 3: Summon fires. All 3 djinn → RECOVERY.
///   Turn 4: Nothing recovers yet.
///   Turn 5: Djinn 1 → GOOD.
///   Turn 6: Djinn 2 → GOOD.
///   Turn 7: Djinn 3 → GOOD.
#[test]
fn design_lock_3_djinn_summon_example() {
    let mut slots = make_slots_with(&["djinn1", "djinn2", "djinn3"], Element::Venus);

    // Turn 3: Summon fires with recovery_turns=2 (delay=1 + per_turn=1)
    let events = execute_summon(&mut slots, &[0, 1, 2], unit_ref(), 2);
    assert!(events.is_some());
    assert_eq!(slots.slots[0].state, DjinnState::Recovery);
    assert_eq!(slots.slots[1].state, DjinnState::Recovery);
    assert_eq!(slots.slots[2].state, DjinnState::Recovery);

    // End of Turn 3: tick — all at 2, decrement to 1, no recovery
    let events = tick_recovery(&mut slots, unit_ref());
    assert!(events.is_empty(), "End of Turn 3: nothing should recover");

    // End of Turn 4: tick — all at 1, decrement to 0, no recovery
    // DESIGN_LOCK: "Turn 4: Nothing recovers yet."
    let events = tick_recovery(&mut slots, unit_ref());
    assert!(
        events.is_empty(),
        "Turn 4: Nothing recovers yet (DESIGN_LOCK)"
    );

    // End of Turn 5: all at 0. Djinn 1 recovers (lowest activation_order).
    // DESIGN_LOCK: "Turn 5: Djinn 1 → GOOD."
    let events = tick_recovery(&mut slots, unit_ref());
    assert_eq!(events.len(), 1);
    assert_eq!(events[0].djinn_id, DjinnId("djinn1".into()));
    assert_eq!(events[0].new_state, DjinnState::Good);
    assert_eq!(slots.slots[0].state, DjinnState::Good);
    assert_eq!(slots.slots[1].state, DjinnState::Recovery);
    assert_eq!(slots.slots[2].state, DjinnState::Recovery);

    // End of Turn 6: Djinn 2 → GOOD.
    let events = tick_recovery(&mut slots, unit_ref());
    assert_eq!(events.len(), 1);
    assert_eq!(events[0].djinn_id, DjinnId("djinn2".into()));
    assert_eq!(events[0].new_state, DjinnState::Good);
    assert_eq!(slots.slots[1].state, DjinnState::Good);
    assert_eq!(slots.slots[2].state, DjinnState::Recovery);

    // End of Turn 7: Djinn 3 → GOOD. All restored.
    let events = tick_recovery(&mut slots, unit_ref());
    assert_eq!(events.len(), 1);
    assert_eq!(events[0].djinn_id, DjinnId("djinn3".into()));
    assert_eq!(events[0].new_state, DjinnState::Good);
    assert_eq!(slots.slots[0].state, DjinnState::Good);
    assert_eq!(slots.slots[1].state, DjinnState::Good);
    assert_eq!(slots.slots[2].state, DjinnState::Good);
}

// ── Ability oscillation test ──

#[test]
fn ability_oscillation_on_state_change() {
    let def = make_djinn_def("flint", Element::Venus);
    let compat = DjinnCompatibility::Same;

    // Good state
    let abilities = get_granted_abilities(&def, compat, DjinnState::Good);
    assert_eq!(abilities, vec![AbilityId("same_good".into())]);

    // After activation -> Recovery
    let abilities = get_granted_abilities(&def, compat, DjinnState::Recovery);
    assert_eq!(abilities, vec![AbilityId("same_recovery".into())]);

    // After recovery tick -> Good again
    let abilities = get_granted_abilities(&def, compat, DjinnState::Good);
    assert_eq!(abilities, vec![AbilityId("same_good".into())]);
}

// ── Slot capacity test ──

#[test]
fn slots_max_capacity_is_three() {
    let mut slots = DjinnSlots::new();
    assert!(slots.add(DjinnId("a".into())));
    assert!(slots.add(DjinnId("b".into())));
    assert!(slots.add(DjinnId("c".into())));
    assert!(!slots.add(DjinnId("d".into())));
    assert_eq!(slots.slots.len(), 3);
}

#[test]
fn good_count_tracks_correctly() {
    let mut slots = make_slots_with(&["a", "b", "c"], Element::Venus);
    assert_eq!(slots.good_count(), 3);
    slots.slots[0].state = DjinnState::Recovery;
    assert_eq!(slots.good_count(), 2);
    slots.slots[1].state = DjinnState::Recovery;
    assert_eq!(slots.good_count(), 1);
}


#[test]
fn activate_with_other_definition_fails() {
    let mut slots = make_slots_with(&["flint"], Element::Venus);
    let def = make_djinn_def("granite", Element::Venus);
    assert!(activate_djinn(&mut slots, 0, unit_ref(), 2, &def).is_none());
    assert_eq!(slots.slots[0].state, DjinnState::Good);
    assert_eq!(slots.next_activation_order, 0);
}

#[test]
fn activation_event_prefers_buff_then_heal_then_status() {
    let mut slots = make_slots_with(&["gust"], Element::Jupiter);
    let def = make_djinn_def_with_summon_effect(
        "gust",
        Element::Jupiter,
        SummonEffect {
            damage: 0,
            buff: Some(vale_village::shared::BuffEffect { stat_modifiers: StatBonus::default(), duration: 2 }),
            status: None,
            heal: Some(4),
        },
    );
    let (_, activation) = activate_djinn(&mut slots, 0, unit_ref(), 2, &def).unwrap();
    assert_eq!(activation.effect_type, Some(DjinnActivationEffectType::Buff));
}

#[test]
fn execute_summon_out_of_range_fails() {
    let mut slots = make_slots_with(&["flint"], Element::Venus);
    assert!(execute_summon(&mut slots, &[0, 3], unit_ref(), 2).is_none());
    assert_eq!(slots.slots[0].state, DjinnState::Good);
}

#[test]
fn stat_bonus_ignores_unknown_djinn() {
    let slots = make_slots_with(&["mystery"], Element::Venus);
    let defs = vec![make_djinn_def("flint", Element::Venus)];
    let bonus = compute_djinn_stat_bonus(&slots, &defs);
    assert_eq!(bonus.atk.get(), 0);
    assert_eq!(bonus.hp.get(), 0);
}

#[test]
fn summon_availability_caps_at_three() {
    let tiers = get_available_summons(7);
    assert_eq!(tiers.len(), 3);
    assert_eq!(tiers[0].required_good, 1);
}

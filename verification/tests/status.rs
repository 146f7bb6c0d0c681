use vale_village::domains::status::{
    apply_barrier, apply_buff, apply_debuff, apply_hot, apply_status, can_act, can_auto_attack,
    can_use_ability, cleanse, compute_stat_modifiers, consume_barrier, tick_barriers, tick_buffs,
    tick_hots, tick_immunity, tick_statuses, ActiveBarrier, ActiveBuff, ActiveHoT, ActiveImmunity,
    ActiveStatus, UnitStatusState,
};
use vale_village::shared::bounded_types::StatMod;
use vale_village::shared::{
    BuffEffect, CleanseType, DebuffEffect, StatBonus, StatusEffect, StatusEffectType,
};

fn bonus(atk: i16, def: i16, mag: i16) -> StatBonus {
    StatBonus {
        atk: StatMod::new(atk),
        def: StatMod::new(def),
        mag: StatMod::new(mag),
        spd: StatMod::new(0),
        hp: StatMod::new(0),
    }
}

// -- helpers --

fn make_state() -> UnitStatusState {
    UnitStatusState::new()
}

fn burn_effect(pct: u8, dur: u8) -> StatusEffect {
    StatusEffect {
        effect_type: StatusEffectType::Burn,
        duration: dur,
        burn_percent: Some(pct),
        poison_percent: None,
        freeze_threshold: None,
    }
}

fn poison_effect(pct: u8, dur: u8) -> StatusEffect {
    StatusEffect {
        effect_type: StatusEffectType::Poison,
        duration: dur,
        burn_percent: None,
        poison_percent: Some(pct),
        freeze_threshold: None,
    }
}

fn freeze_effect(threshold: u16, dur: u8) -> StatusEffect {
    StatusEffect {
        effect_type: StatusEffectType::Freeze,
        duration: dur,
        burn_percent: None,
        poison_percent: None,
        freeze_threshold: Some(threshold),
    }
}

fn stun_effect(dur: u8) -> StatusEffect {
    StatusEffect {
        effect_type: StatusEffectType::Stun,
        duration: dur,
        burn_percent: None,
        poison_percent: None,
        freeze_threshold: None,
    }
}

fn null_effect(dur: u8) -> StatusEffect {
    StatusEffect {
        effect_type: StatusEffectType::Null,
        duration: dur,
        burn_percent: None,
        poison_percent: None,
        freeze_threshold: None,
    }
}

fn incap_effect(dur: u8) -> StatusEffect {
    StatusEffect {
        effect_type: StatusEffectType::Incapacitate,
        duration: dur,
        burn_percent: None,
        poison_percent: None,
        freeze_threshold: None,
    }
}

fn buff(atk: i16, def: i16, dur: u8) -> BuffEffect {
    BuffEffect {
        stat_modifiers: bonus(atk, def, 0),
        duration: dur,
    }
}

fn debuff(atk: i16, def: i16, dur: u8) -> DebuffEffect {
    DebuffEffect {
        stat_modifiers: bonus(atk, def, 0),
        duration: dur,
    }
}

// ── S07: Burn ───────────────────────────────────────────────────

#[test]
fn test_burn_damage_calculation() {
    let mut statuses = vec![ActiveStatus {
        effect_type: StatusEffectType::Burn,
        remaining_turns: 3,
        burn_percent: Some(10),
        poison_percent: None,
        freeze_threshold: None,
        freeze_damage_taken: 0,
    }];
    let result = tick_statuses(100, 100, &mut statuses);
    assert_eq!(result.damage, 10); // 10% of 100 max HP
}

// ── S07: Poison ─────────────────────────────────────────────────

#[test]
fn test_poison_damage_calculation() {
    let mut statuses = vec![ActiveStatus {
        effect_type: StatusEffectType::Poison,
        remaining_turns: 3,
        burn_percent: None,
        poison_percent: Some(5),
        freeze_threshold: None,
        freeze_damage_taken: 0,
    }];
    // max_hp=100, current_hp=60 => missing=40 => 5% of 40 = 2
    let result = tick_statuses(100, 60, &mut statuses);
    assert_eq!(result.damage, 2);
}

// ── S07: Freeze breaks at threshold ─────────────────────────────

#[test]
fn test_freeze_breaks_at_threshold() {
    let mut statuses = vec![ActiveStatus {
        effect_type: StatusEffectType::Freeze,
        remaining_turns: 5,
        burn_percent: None,
        poison_percent: None,
        freeze_threshold: Some(30),
        freeze_damage_taken: 30,
    }];
    let result = tick_statuses(100, 100, &mut statuses);
    assert!(result.freeze_broken);
    assert!(statuses.is_empty()); // removed after breaking
}

// ── S07: Freeze does NOT break below threshold ──────────────────

#[test]
fn test_freeze_does_not_break_below_threshold() {
    let mut statuses = vec![ActiveStatus {
        effect_type: StatusEffectType::Freeze,
        remaining_turns: 5,
        burn_percent: None,
        poison_percent: None,
        freeze_threshold: Some(30),
        freeze_damage_taken: 20,
    }];
    let result = tick_statuses(100, 100, &mut statuses);
    assert!(!result.freeze_broken);
    assert_eq!(statuses.len(), 1);
}

// ── S07: Stun prevents all actions ──────────────────────────────

#[test]
fn test_stun_prevents_all_actions() {
    let statuses = vec![ActiveStatus {
        effect_type: StatusEffectType::Stun,
        remaining_turns: 2,
        burn_percent: None,
        poison_percent: None,
        freeze_threshold: None,
        freeze_damage_taken: 0,
    }];
    assert!(!can_act(&statuses));
    assert!(!can_auto_attack(&statuses));
    assert!(!can_use_ability(&statuses));
}

// ── S07: Null allows auto-attack only ───────────────────────────

#[test]
fn test_null_allows_auto_attack_only() {
    let statuses = vec![ActiveStatus {
        effect_type: StatusEffectType::Null,
        remaining_turns: 2,
        burn_percent: None,
        poison_percent: None,
        freeze_threshold: None,
        freeze_damage_taken: 0,
    }];
    assert!(can_act(&statuses));
    assert!(can_auto_attack(&statuses));
    assert!(!can_use_ability(&statuses));
}

// ── S07: Incapacitate allows ability only ───────────────────────

#[test]
fn test_incapacitate_allows_ability_only() {
    let statuses = vec![ActiveStatus {
        effect_type: StatusEffectType::Incapacitate,
        remaining_turns: 2,
        burn_percent: None,
        poison_percent: None,
        freeze_threshold: None,
        freeze_damage_taken: 0,
    }];
    assert!(can_act(&statuses));
    assert!(!can_auto_attack(&statuses));
    assert!(can_use_ability(&statuses));
}

// ── S07: Status duration expires ────────────────────────────────

#[test]
fn test_status_duration_expires() {
    let mut statuses = vec![ActiveStatus {
        effect_type: StatusEffectType::Stun,
        remaining_turns: 1,
        burn_percent: None,
        poison_percent: None,
        freeze_threshold: None,
        freeze_damage_taken: 0,
    }];
    let result = tick_statuses(100, 100, &mut statuses);
    assert!(statuses.is_empty());
    assert!(result.expired.contains(&StatusEffectType::Stun));
}

// ── S08: Buff stacking up to 3 ─────────────────────────────────

#[test]
fn test_buff_stacking_max_3() {
    let mut state = make_state();
    let b = buff(5, 0, 3);
    apply_buff(&mut state, &b);
    apply_buff(&mut state, &b);
    apply_buff(&mut state, &b);
    apply_buff(&mut state, &b); // 4th should be rejected
    assert_eq!(state.buffs.len(), 3);
}

// ── S08: Buff stat modifier computation ─────────────────────────

#[test]
fn test_buff_stat_modifier_computation() {
    let buffs = vec![
        ActiveBuff {
            stat_modifiers: bonus(5, 3, 0),
            remaining_turns: 2,
        },
        ActiveBuff {
            stat_modifiers: bonus(10, 0, 2),
            remaining_turns: 3,
        },
    ];
    let debuffs = vec![ActiveBuff {
        stat_modifiers: bonus(-4, -2, 0),
        remaining_turns: 1,
    }];
    let total = compute_stat_modifiers(&buffs, &debuffs);
    assert_eq!(total.atk.get(), 11); // 5 + 10 - 4
    assert_eq!(total.def.get(), 1);  // 3 + 0 - 2
    assert_eq!(total.mag.get(), 2);
}

// ── S08: Buff tick expires ──────────────────────────────────────

#[test]
fn test_buff_tick_expires() {
    let mut buffs = vec![
        ActiveBuff {
            stat_modifiers: StatBonus::default(),
            remaining_turns: 1,
        },
        ActiveBuff {
            stat_modifiers: StatBonus::default(),
            remaining_turns: 3,
        },
    ];
    tick_buffs(&mut buffs);
    assert_eq!(buffs.len(), 1);
    assert_eq!(buffs[0].remaining_turns, 2);
}

// ── S09: Barrier blocks one hit ─────────────────────────────────

#[test]
fn test_barrier_blocks_one_hit() {
    let mut barriers = vec![ActiveBarrier { charges: 1, remaining_turns: 3 }];
    assert!(consume_barrier(&mut barriers));
    assert_eq!(barriers[0].charges, 0);
}

// ── S09: Barrier consumed per hit in multi-hit ──────────────────

#[test]
fn test_barrier_consumed_per_hit_multi() {
    let mut barriers = vec![ActiveBarrier { charges: 3, remaining_turns: 5 }];
    assert!(consume_barrier(&mut barriers)); // hit 1
    assert!(consume_barrier(&mut barriers)); // hit 2
    assert!(consume_barrier(&mut barriers)); // hit 3
    assert!(!consume_barrier(&mut barriers)); // no more charges
}

// ── S09: Barrier does NOT block burn/poison ─────────────────────

#[test]
fn test_barrier_does_not_block_burn_poison() {
    // Burn still deals damage even with a barrier active
    let mut statuses = vec![ActiveStatus {
        effect_type: StatusEffectType::Burn,
        remaining_turns: 3,
        burn_percent: Some(10),
        poison_percent: None,
        freeze_threshold: None,
        freeze_damage_taken: 0,
    }];
    let barriers = vec![ActiveBarrier { charges: 2, remaining_turns: 5 }];
    // tick_statuses does not interact with barriers at all — burn still ticks
    let result = tick_statuses(100, 100, &mut statuses);
    assert_eq!(result.damage, 10);
    // barriers unchanged
    assert_eq!(barriers[0].charges, 2);
}

// ── S09: Barrier tick expires ───────────────────────────────────

#[test]
fn test_barrier_tick_expires() {
    let mut barriers = vec![
        ActiveBarrier { charges: 2, remaining_turns: 1 },
        ActiveBarrier { charges: 1, remaining_turns: 3 },
    ];
    tick_barriers(&mut barriers);
    assert_eq!(barriers.len(), 1);
    assert_eq!(barriers[0].charges, 1);
    assert_eq!(barriers[0].remaining_turns, 2);
}

// ── S10: HoT healing per tick ───────────────────────────────────

#[test]
fn test_hot_healing_per_tick() {
    let mut hots = vec![
        ActiveHoT { amount: 15, remaining_turns: 3 },
        ActiveHoT { amount: 10, remaining_turns: 1 },
    ];
    let healing = tick_hots(&mut hots);
    assert_eq!(healing, 25); // 15 + 10
    assert_eq!(hots.len(), 1); // second HoT expired
}

// ── S12: Immunity blocks status application ─────────────────────

#[test]
fn test_immunity_blocks_status_application() {
    let mut state = make_state();
    state.immunity = Some(ActiveImmunity {
        all: true,
        types: Vec::new(),
        remaining_turns: 3,
    });
    let imm = state.immunity.clone();
    let applied = apply_status(&mut state, &stun_effect(2), &imm);
    assert!(!applied);
    assert!(state.statuses.is_empty());
}

// ── S12: Immunity type-specific ─────────────────────────────────

#[test]
fn test_immunity_type_specific() {
    let mut state = make_state();
    state.immunity = Some(ActiveImmunity {
        all: false,
        types: vec![StatusEffectType::Burn],
        remaining_turns: 3,
    });
    // Burn should be blocked
    let imm = state.immunity.clone();
    let burn_applied = apply_status(&mut state, &burn_effect(10, 3), &imm);
    assert!(!burn_applied);
    // Stun should go through
    let imm2 = state.immunity.clone();
    let stun_applied = apply_status(&mut state, &stun_effect(2), &imm2);
    assert!(stun_applied);
    assert_eq!(state.statuses.len(), 1);
    assert_eq!(state.statuses[0].effect_type, StatusEffectType::Stun);
}

// ── S13: Cleanse All removes everything ─────────────────────────

#[test]
fn test_cleanse_all_removes_everything() {
    let mut statuses = vec![
        ActiveStatus {
            effect_type: StatusEffectType::Burn,
            remaining_turns: 3,
            burn_percent: Some(10),
            poison_percent: None,
            freeze_threshold: None,
            freeze_damage_taken: 0,
        },
        ActiveStatus {
            effect_type: StatusEffectType::Stun,
            remaining_turns: 1,
            burn_percent: None,
            poison_percent: None,
            freeze_threshold: None,
            freeze_damage_taken: 0,
        },
    ];
    let removed = cleanse(&mut statuses, &CleanseType::All);
    assert!(statuses.is_empty());
    assert_eq!(removed.len(), 2);
}

// ── S13: Cleanse ByType removes only specified ──────────────────

#[test]
fn test_cleanse_by_type_removes_only_specified() {
    let mut statuses = vec![
        ActiveStatus {
            effect_type: StatusEffectType::Burn,
            remaining_turns: 3,
            burn_percent: Some(10),
            poison_percent: None,
            freeze_threshold: None,
            freeze_damage_taken: 0,
        },
        ActiveStatus {
            effect_type: StatusEffectType::Stun,
            remaining_turns: 2,
            burn_percent: None,
            poison_percent: None,
            freeze_threshold: None,
            freeze_damage_taken: 0,
        },
        ActiveStatus {
            effect_type: StatusEffectType::Poison,
            remaining_turns: 2,
            burn_percent: None,
            poison_percent: Some(5),
            freeze_threshold: None,
            freeze_damage_taken: 0,
        },
    ];
    let removed = cleanse(
        &mut statuses,
        &CleanseType::ByType(vec![StatusEffectType::Burn, StatusEffectType::Poison]),
    );
    assert_eq!(statuses.len(), 1);
    assert_eq!(statuses[0].effect_type, StatusEffectType::Stun);
    assert_eq!(removed.len(), 2);
    assert!(removed.contains(&StatusEffectType::Burn));
    assert!(removed.contains(&StatusEffectType::Poison));
}

// ── Tick order: damage then healing ─────────────────────────────

#[test]
fn test_tick_order_damage_then_healing() {
    // Simulate a full tick: status damage comes first, then HoT healing
    let mut statuses = vec![ActiveStatus {
        effect_type: StatusEffectType::Burn,
        remaining_turns: 3,
        burn_percent: Some(10),
        poison_percent: None,
        freeze_threshold: None,
        freeze_damage_taken: 0,
    }];
    let mut hots = vec![ActiveHoT { amount: 5, remaining_turns: 3 }];

    // Step 1: tick statuses (damage)
    let tick_result = tick_statuses(100, 80, &mut statuses);
    // Step 2: tick hots (healing)
    let healing = tick_hots(&mut hots);

    // Damage applied before healing
    assert_eq!(tick_result.damage, 10);
    assert_eq!(healing, 5);
    // Net effect: -10 + 5 = -5
}

// ── Apply status through full flow ──────────────────────────────

#[test]
fn test_apply_status_creates_active_status() {
    let mut state = make_state();
    let applied = apply_status(&mut state, &burn_effect(15, 2), &None);
    assert!(applied);
    assert_eq!(state.statuses.len(), 1);
    assert_eq!(state.statuses[0].effect_type, StatusEffectType::Burn);
    assert_eq!(state.statuses[0].remaining_turns, 2);
    assert_eq!(state.statuses[0].burn_percent, Some(15));
}

// ── Apply barrier and consume ───────────────────────────────────

#[test]
fn test_apply_barrier_and_consume() {
    let mut state = make_state();
    apply_barrier(&mut state, 2, 5);
    assert_eq!(state.barriers.len(), 1);
    assert!(consume_barrier(&mut state.barriers));
    assert_eq!(state.barriers[0].charges, 1);
    assert!(consume_barrier(&mut state.barriers));
    assert_eq!(state.barriers[0].charges, 0);
    assert!(!consume_barrier(&mut state.barriers));
}

// ── Apply HoT and tick ──────────────────────────────────────────

#[test]
fn test_apply_hot_and_tick() {
    let mut state = make_state();
    apply_hot(&mut state, 20, 2);
    assert_eq!(state.hots.len(), 1);
    let h1 = tick_hots(&mut state.hots);
    assert_eq!(h1, 20);
    assert_eq!(state.hots.len(), 1);
    let h2 = tick_hots(&mut state.hots);
    assert_eq!(h2, 20);
    assert!(state.hots.is_empty());
}

// ── Debuff stacking max 3 ───────────────────────────────────────

#[test]
fn test_debuff_stacking_max_3() {
    let mut state = make_state();
    let d = debuff(-3, -2, 2);
    apply_debuff(&mut state, &d);
    apply_debuff(&mut state, &d);
    apply_debuff(&mut state, &d);
    apply_debuff(&mut state, &d); // 4th rejected
    assert_eq!(state.debuffs.len(), 3);
}

// ── Immunity tick expires ───────────────────────────────────────

#[test]
fn test_immunity_tick_expires() {
    let mut immunity = Some(ActiveImmunity {
        all: true,
        types: Vec::new(),
        remaining_turns: 1,
    });
    tick_immunity(&mut immunity);
    assert!(immunity.is_none());
}

// ── Multiple barriers stack from different sources ───────────────

#[test]
fn test_multiple_barriers_stack() {
    let mut state = make_state();
    apply_barrier(&mut state, 1, 3);
    apply_barrier(&mut state, 2, 5);
    assert_eq!(state.barriers.len(), 2);
    // Consume from oldest first
    assert!(consume_barrier(&mut state.barriers));
    assert_eq!(state.barriers[0].charges, 0); // oldest depleted
    assert!(consume_barrier(&mut state.barriers)); // now from second
    assert_eq!(state.barriers[1].charges, 1);
}

#[test]
fn poison_and_burn_damage_add_up() {
    let mut statuses = vec![
        ActiveStatus {
            effect_type: StatusEffectType::Burn,
            remaining_turns: 2,
            burn_percent: Some(10),
            poison_percent: None,
            freeze_threshold: None,
            freeze_damage_taken: 0,
        },
        ActiveStatus {
            effect_type: StatusEffectType::Poison,
            remaining_turns: 1,
            burn_percent: None,
            poison_percent: Some(50),
            freeze_threshold: None,
            freeze_damage_taken: 0,
        },
    ];
    // 10% of 200 plus half of the 50 missing HP.
    let result = tick_statuses(200, 150, &mut statuses);
    assert_eq!(result.damage, 45);
    assert_eq!(result.expired, vec![StatusEffectType::Poison]);
    assert_eq!(statuses.len(), 1);
    assert_eq!(statuses[0].remaining_turns, 1);
}

#[test]
fn buff_modifiers_clamp_at_bounds() {
    let buffs = vec![
        ActiveBuff { stat_modifiers: bonus(900, 0, 0), remaining_turns: 2 },
        ActiveBuff { stat_modifiers: bonus(900, 0, 0), remaining_turns: 2 },
    ];
    let debuffs = vec![ActiveBuff { stat_modifiers: bonus(-100, 0, 0), remaining_turns: 2 }];
    let total = compute_stat_modifiers(&buffs, &debuffs);
    assert_eq!(total.atk.get(), 899);
}

#[test]
fn barrier_without_charges_is_dropped_on_tick() {
    let mut barriers = vec![
        ActiveBarrier { charges: 0, remaining_turns: 4 },
        ActiveBarrier { charges: 2, remaining_turns: 4 },
    ];
    tick_barriers(&mut barriers);
    assert_eq!(barriers, vec![ActiveBarrier { charges: 2, remaining_turns: 3 }]);
}

#[test]
fn immunity_with_turns_left_is_kept() {
    let mut immunity = Some(ActiveImmunity {
        all: false,
        types: vec![StatusEffectType::Stun],
        remaining_turns: 3,
    });
    tick_immunity(&mut immunity);
    assert_eq!(immunity.as_ref().map(|i| i.remaining_turns), Some(2));
}

#[test]
fn hot_healing_saturates() {
    let mut hots = vec![
        ActiveHoT { amount: 60000, remaining_turns: 2 },
        ActiveHoT { amount: 60000, remaining_turns: 2 },
    ];
    assert_eq!(tick_hots(&mut hots), u16::MAX);
}

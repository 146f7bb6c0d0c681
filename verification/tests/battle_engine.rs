use vale_village::data::default_combat_config;
use vale_village::domains::ai::AiStrategy;
use vale_village::domains::combat;
use vale_village::domains::battle_engine::{
    apply_chain_damage, check_battle_end, execute_round, get_planning_order, get_unit, new_battle, plan_action,
    plan_enemy_actions, plan_enemy_actions_with_ai, Battle, BattleEvent, BattleResult,
    EnemyUnitData, PlanError, PlayerUnitData,
};
use vale_village::domains::djinn::DjinnSlots;
use vale_village::domains::equipment::{EquipmentEffects, EquipmentLoadout};
use vale_village::domains::status;
use vale_village::shared::bounded_types::{
    BasePower, BaseStat, DjinnTier, Gold, HitCount, Hp, Level, ManaCost, StatMod, Xp,
};
use vale_village::shared::{
    AbilityCategory, AbilityDef, AbilityId, BattleAction, BattlePhase, BuffEffect, CleanseType,
    CombatConfig, DamageType, DjinnAbilityPairs, DjinnAbilitySet, DjinnDef, DjinnId, DjinnState,
    Element, EnemyDef, EnemyId, Immunity, Side, StatBonus, Stats, StatusEffect, StatusEffectType,
    SummonEffect, TargetMode, TargetRef, DamageDealt, HealingDone,
};

fn test_config() -> CombatConfig {
    default_combat_config()
}

fn test_stats(hp: u16, atk: u16, def: u16, mag: u16, spd: u16) -> Stats {
    Stats {
        hp: Hp::new(hp),
        atk: BaseStat::new(atk),
        def: BaseStat::new(def),
        mag: BaseStat::new(mag),
        spd: BaseStat::new(spd),
    }
}

fn make_player(id: &str, stats: Stats, mana: u8) -> PlayerUnitData {
    PlayerUnitData {
        id: id.to_string(),
        base_stats: stats,
        equipment: EquipmentLoadout::default(),
        djinn_slots: DjinnSlots::new(),
        mana_contribution: mana,
        equipment_effects: EquipmentEffects::default(),
    }
}

fn make_enemy(id: &str, stats: Stats) -> EnemyUnitData {
    EnemyUnitData {
        enemy_def: EnemyDef {
            id: EnemyId(id.to_string()),
            name: id.to_string(),
            element: Element::Venus,
            level: Level::new_unchecked(1),
            stats,
            xp: vale_village::shared::bounded_types::Xp::new_unchecked(10),
            gold: vale_village::shared::bounded_types::Gold::new_unchecked(5),
            abilities: vec![],
        },
    }
}

fn make_basic_ability(id: &str, cost: u8, power: u16) -> (AbilityId, AbilityDef) {
    let aid = AbilityId(id.to_string());
    let def = AbilityDef {
        id: aid.clone(),
        name: id.to_string(),
        category: AbilityCategory::Psynergy,
        damage_type: Some(DamageType::Psynergy),
        element: Some(Element::Venus),
        mana_cost: ManaCost::new(cost),
        base_power: BasePower::new(power),
        targets: TargetMode::SingleEnemy,
        unlock_level: Level::new_unchecked(1),
        hit_count: HitCount::new_unchecked(1),
        status_effect: None,
        buff_effect: None,
        debuff_effect: None,
        shield_charges: None,
        shield_duration: None,
        heal_over_time: None,
        grant_immunity: None,
        cleanse: None,
        ignore_defense_percent: None,
        splash_damage_percent: None,
        chain_damage: false,
        revive: false,
        revive_hp_percent: None,
    };
    (aid, def)
}

fn make_djinn_def(id: &str, element: Element, summon_damage: u16) -> (DjinnId, DjinnDef) {
    let djinn_id = DjinnId(id.to_string());
    let empty_ability_set = vale_village::shared::DjinnAbilitySet {
        good_abilities: vec![],
        recovery_abilities: vec![],
    };
    let djinn_def = DjinnDef {
        id: djinn_id.clone(),
        name: id.to_string(),
        element,
        tier: vale_village::shared::bounded_types::DjinnTier::new_unchecked(1),
        stat_bonus: vale_village::shared::StatBonus::default(),
        summon_effect: Some(vale_village::shared::SummonEffect {
            damage: summon_damage,
            buff: None,
            status: None,
            heal: None,
        }),
        ability_pairs: vale_village::shared::DjinnAbilityPairs {
            same: empty_ability_set.clone(),
            counter: empty_ability_set.clone(),
            neutral: empty_ability_set,
        },
    };
    (djinn_id, djinn_def)
}

fn setup_basic_battle() -> Battle {
    let player_stats = test_stats(100, 30, 20, 25, 15);
    let enemy_stats = test_stats(80, 20, 15, 10, 10);

    let player = make_player("hero", player_stats, 5);
    let enemy = make_enemy("goblin", enemy_stats);

    let (aid, adef) = make_basic_ability("quake", 3, 40);
    let mut abilities = Vec::new();
    abilities.push(adef);

    new_battle(
        vec![player],
        vec![enemy],
        test_config(),
        abilities,
        Vec::new(),
    )
}

// ── Test: new_battle correct mana pool ──────────────────────────

#[test]
fn test_new_battle_mana_pool() {
    let battle = setup_basic_battle();
    assert_eq!(battle.mana_pool.max_mana, 5);
    assert_eq!(battle.mana_pool.current_mana, 5);
    assert_eq!(battle.round, 1);
    assert_eq!(battle.phase, BattlePhase::Planning);
}

// ── Test: new_battle stats initialized ──────────────────────────

#[test]
fn test_new_battle_stats_initialized() {
    let battle = setup_basic_battle();
    let player = &battle.player_units[0];
    assert_eq!(player.unit.stats.hp.get(), 100);
    assert_eq!(player.unit.stats.atk.get(), 30);
    assert_eq!(player.unit.current_hp, 100);
    assert!(player.unit.is_alive);
    assert_eq!(player.unit.crit_counter, 0);

    let enemy = &battle.enemies[0];
    assert_eq!(enemy.unit.stats.hp.get(), 80);
    assert_eq!(enemy.unit.current_hp, 80);
    assert!(enemy.unit.is_alive);
}

// ── Test: plan_action attack succeeds ───────────────────────────

#[test]
fn test_plan_attack_succeeds() {
    let mut battle = setup_basic_battle();
    let actor = TargetRef {
        side: Side::Player,
        index: 0,
    };
    let target = TargetRef {
        side: Side::Enemy,
        index: 0,
    };
    let result = plan_action(&mut battle, actor, BattleAction::Attack { target });
    assert!(result.is_ok());
    assert_eq!(battle.planned_actions.len(), 1);
}

#[test]
fn test_planned_attack_adds_projected_mana() {
    let player_stats = test_stats(100, 30, 20, 25, 15);
    let enemy_stats = test_stats(80, 20, 15, 10, 10);

    let mut player = make_player("hero", player_stats, 5);
    player.equipment_effects.total_hit_count_bonus = 2;
    let enemy = make_enemy("goblin", enemy_stats);

    let mut battle = new_battle(
        vec![player],
        vec![enemy],
        test_config(),
        Vec::new(),
        Vec::new(),
    );

    let actor = TargetRef {
        side: Side::Player,
        index: 0,
    };
    let target = TargetRef {
        side: Side::Enemy,
        index: 0,
    };

    plan_action(&mut battle, actor, BattleAction::Attack { target }).unwrap();

    assert_eq!(battle.mana_pool.projected_mana, 8);
}

#[test]
fn test_planned_attack_undo_reverses_mana() {
    let mut battle = setup_basic_battle();
    let actor = TargetRef {
        side: Side::Player,
        index: 0,
    };
    let target = TargetRef {
        side: Side::Enemy,
        index: 0,
    };

    plan_action(&mut battle, actor, BattleAction::Attack { target }).unwrap();
    assert_eq!(battle.mana_pool.projected_mana, 6);

    plan_action(
        &mut battle,
        actor,
        BattleAction::UseAbility {
            ability_id: AbilityId("quake".into()),
            targets: vec![target],
        },
    )
    .unwrap();

    assert_eq!(battle.mana_pool.projected_mana, 2);
    assert_eq!(battle.planned_actions.len(), 1);
    assert!(matches!(
        &battle.planned_actions[0].1,
        BattleAction::UseAbility { .. }
    ));
}

// ── Test: plan_action ability with enough mana succeeds ─────────

#[test]
fn test_plan_ability_sufficient_mana() {
    let mut battle = setup_basic_battle();
    let actor = TargetRef {
        side: Side::Player,
        index: 0,
    };
    let target = TargetRef {
        side: Side::Enemy,
        index: 0,
    };
    let result = plan_action(
        &mut battle,
        actor,
        BattleAction::UseAbility {
            ability_id: AbilityId("quake".into()),
            targets: vec![target],
        },
    );
    assert!(result.is_ok());
}

// ── Test: plan_action ability with insufficient mana fails ──────

#[test]
fn test_plan_ability_insufficient_mana() {
    let mut battle = setup_basic_battle();
    // Drain mana
    battle.mana_pool.spend_mana(4);
    assert_eq!(battle.mana_pool.current_mana, 1);

    let actor = TargetRef {
        side: Side::Player,
        index: 0,
    };
    let target = TargetRef {
        side: Side::Enemy,
        index: 0,
    };
    let result = plan_action(
        &mut battle,
        actor,
        BattleAction::UseAbility {
            ability_id: AbilityId("quake".into()),
            targets: vec![target],
        },
    );
    assert_eq!(result, Err(PlanError::InsufficientMana));
}

// ── Test: execute_round auto-attack deals damage ────────────────

#[test]
fn test_execute_round_auto_attack_damage() {
    let mut battle = setup_basic_battle();
    let actor = TargetRef {
        side: Side::Player,
        index: 0,
    };
    let target = TargetRef {
        side: Side::Enemy,
        index: 0,
    };
    plan_action(&mut battle, actor, BattleAction::Attack { target }).unwrap();

    let enemy_hp_before = battle.enemies[0].unit.current_hp;
    let events = execute_round(&mut battle);

    let enemy_hp_after = battle.enemies[0].unit.current_hp;
    assert!(
        enemy_hp_after < enemy_hp_before,
        "Enemy should have taken damage"
    );

    let has_damage = events
        .iter()
        .any(|e| matches!(e, BattleEvent::DamageDealt(_)));
    assert!(has_damage, "Should have a DamageDealt event");
}

// ── Test: execute_round ability spends mana ─────────────────────

#[test]
fn test_execute_round_ability_spends_mana() {
    let mut battle = setup_basic_battle();
    let actor = TargetRef {
        side: Side::Player,
        index: 0,
    };
    let target = TargetRef {
        side: Side::Enemy,
        index: 0,
    };

    plan_action(
        &mut battle,
        actor,
        BattleAction::UseAbility {
            ability_id: AbilityId("quake".into()),
            targets: vec![target],
        },
    )
    .unwrap();

    assert_eq!(battle.mana_pool.current_mana, 5);
    let events = execute_round(&mut battle);

    // Mana should have been spent then reset
    let has_mana_change = events
        .iter()
        .any(|e| matches!(e, BattleEvent::ManaChanged(_)));
    assert!(has_mana_change, "Should have ManaChanged event");

    // After round reset, mana should be back to max
    assert_eq!(battle.mana_pool.current_mana, 5);
}

// ── Test: multi-hit generates mana for auto-attacks ─────────────

#[test]
fn test_multi_hit_generates_mana() {
    let player_stats = test_stats(100, 30, 20, 25, 15);
    let enemy_stats = test_stats(200, 20, 15, 10, 10);

    let mut player = make_player("hero", player_stats, 5);
    player.equipment_effects.total_hit_count_bonus = 0;

    let enemy = make_enemy("troll", enemy_stats);
    let mut battle = new_battle(
        vec![player],
        vec![enemy],
        test_config(),
        Vec::new(),
        Vec::new(),
    );

    // Spend some mana first to track generation
    battle.mana_pool.spend_mana(3);
    let _mana_before = battle.mana_pool.current_mana;

    let actor = TargetRef {
        side: Side::Player,
        index: 0,
    };
    let target = TargetRef {
        side: Side::Enemy,
        index: 0,
    };
    plan_action(&mut battle, actor, BattleAction::Attack { target }).unwrap();

    execute_round(&mut battle);
    // After round ends mana resets, but during execution mana was generated
    // We verify through events
    // The mana was generated during execution and then reset at end-of-round
    assert_eq!(battle.mana_pool.current_mana, 5); // reset to max
}

// ── Test: barrier blocks damage ─────────────────────────────────

#[test]
fn test_barrier_blocks_damage() {
    let mut battle = setup_basic_battle();

    // Give the enemy a barrier
    status::apply_barrier(&mut battle.enemies[0].status_state, 1, 5);

    let actor = TargetRef {
        side: Side::Player,
        index: 0,
    };
    let target = TargetRef {
        side: Side::Enemy,
        index: 0,
    };
    plan_action(&mut battle, actor, BattleAction::Attack { target }).unwrap();

    let enemy_hp_before = battle.enemies[0].unit.current_hp;
    let events = execute_round(&mut battle);

    let enemy_hp_after = battle.enemies[0].unit.current_hp;
    assert_eq!(
        enemy_hp_after, enemy_hp_before,
        "Barrier should have blocked damage"
    );

    let has_barrier = events
        .iter()
        .any(|e| matches!(e, BattleEvent::BarrierBlocked(_)));
    assert!(has_barrier, "Should have BarrierBlocked event");
}

// ── Test: burn ticks at end of round ────────────────────────────

#[test]
fn test_burn_ticks_at_end_of_round() {
    let mut battle = setup_basic_battle();

    // Apply burn to enemy
    let burn = StatusEffect {
        effect_type: StatusEffectType::Burn,
        duration: 3,
        burn_percent: Some(10),
        poison_percent: None,
        freeze_threshold: None,
    };
    status::apply_status(&mut battle.enemies[0].status_state, &burn, &None);

    let enemy_hp_before = battle.enemies[0].unit.current_hp;
    let _events = execute_round(&mut battle);

    let enemy_hp_after = battle.enemies[0].unit.current_hp;
    // Burn should deal 10% of max HP (80) = 8
    assert_eq!(
        enemy_hp_before - enemy_hp_after,
        8,
        "Burn should deal 10% of 80 max HP = 8"
    );
}

// ── Test: unit death from damage ────────────────────────────────

#[test]
fn test_unit_death_from_damage() {
    let player_stats = test_stats(100, 200, 20, 25, 15);
    let enemy_stats = test_stats(30, 20, 5, 10, 10);

    let player = make_player("hero", player_stats, 5);
    let enemy = make_enemy("weak_goblin", enemy_stats);
    let mut battle = new_battle(
        vec![player],
        vec![enemy],
        test_config(),
        Vec::new(),
        Vec::new(),
    );

    let actor = TargetRef {
        side: Side::Player,
        index: 0,
    };
    let target = TargetRef {
        side: Side::Enemy,
        index: 0,
    };
    plan_action(&mut battle, actor, BattleAction::Attack { target }).unwrap();

    let events = execute_round(&mut battle);

    assert!(!battle.enemies[0].unit.is_alive, "Enemy should be dead");
    let has_defeated = events
        .iter()
        .any(|e| matches!(e, BattleEvent::UnitDefeated(_)));
    assert!(has_defeated, "Should have UnitDefeated event");
}

// ── Test: check_battle_end victory when all enemies dead ────────

#[test]
fn test_check_battle_end_victory() {
    let mut battle = setup_basic_battle();
    battle.enemies[0].unit.is_alive = false;
    battle.enemies[0].unit.current_hp = 0;

    let result = check_battle_end(&battle);
    assert!(result.is_some());
    match result.unwrap() {
        BattleResult::Victory { xp, gold } => {
            assert!(xp > 0);
            assert!(gold > 0);
        }
        BattleResult::Defeat => panic!("Expected Victory"),
    }
}

// ── Test: check_battle_end defeat when all players dead ─────────

#[test]
fn test_check_battle_end_defeat() {
    let mut battle = setup_basic_battle();
    battle.player_units[0].unit.is_alive = false;
    battle.player_units[0].unit.current_hp = 0;

    let result = check_battle_end(&battle);
    assert_eq!(result, Some(BattleResult::Defeat));
}

// ── Test: check_battle_end None when both sides alive ───────────

#[test]
fn test_check_battle_end_none() {
    let battle = setup_basic_battle();
    let result = check_battle_end(&battle);
    assert!(result.is_none());
}

// ── Test: plan attack on dead unit fails ────────────────────────

#[test]
fn test_plan_action_dead_unit_cannot_act() {
    let mut battle = setup_basic_battle();
    battle.player_units[0].unit.is_alive = false;

    let actor = TargetRef {
        side: Side::Player,
        index: 0,
    };
    let target = TargetRef {
        side: Side::Enemy,
        index: 0,
    };
    let result = plan_action(&mut battle, actor, BattleAction::Attack { target });
    assert_eq!(result, Err(PlanError::UnitCannotAct));
}

// ── Test: plan djinn not ready ──────────────────────────────────

#[test]
fn test_plan_djinn_not_ready() {
    let mut battle = setup_basic_battle();
    // Add a djinn in Recovery state
    battle.player_units[0]
        .djinn_slots
        .add(DjinnId("flint".into()));
    battle.player_units[0].djinn_slots.slots[0].state = DjinnState::Recovery;

    let actor = TargetRef {
        side: Side::Player,
        index: 0,
    };
    let result = plan_action(
        &mut battle,
        actor,
        BattleAction::ActivateDjinn { djinn_index: 0 },
    );
    assert_eq!(result, Err(PlanError::DjinnNotReady));
}

// ── Test: plan invalid djinn index ──────────────────────────────

#[test]
fn test_plan_invalid_djinn_index() {
    let mut battle = setup_basic_battle();

    let actor = TargetRef {
        side: Side::Player,
        index: 0,
    };
    let result = plan_action(
        &mut battle,
        actor,
        BattleAction::ActivateDjinn { djinn_index: 5 },
    );
    assert_eq!(result, Err(PlanError::InvalidDjinnIndex));
}

#[test]
fn test_any_player_can_activate_team_djinn_pool() {
    let p1 = make_player("adept", test_stats(100, 10, 10, 10, 10), 2);
    let p2 = make_player("blaze", test_stats(100, 12, 8, 12, 12), 2);
    let enemy = make_enemy("goblin", test_stats(100, 10, 10, 5, 5));

    let (djinn_id, djinn_def) = make_djinn_def("flint", Element::Venus, 50);
    let mut djinn_defs = Vec::new();
    djinn_defs.push(djinn_def);

    let mut players = vec![p1, p2];
    players[0].djinn_slots.add(djinn_id);

    let mut battle = new_battle(
        players,
        vec![enemy],
        test_config(),
        Vec::new(),
        djinn_defs,
    );

    let actor = TargetRef {
        side: Side::Player,
        index: 1,
    };
    let result = plan_action(
        &mut battle,
        actor,
        BattleAction::ActivateDjinn { djinn_index: 0 },
    );
    assert_eq!(result, Ok(()));

    let events = execute_round(&mut battle);
    assert!(events
        .iter()
        .any(|event| matches!(event, BattleEvent::DjinnChanged(_))));
    assert_eq!(battle.team_djinn_slots.slots[0].state, DjinnState::Recovery);
    assert_eq!(
        battle.player_units[0].djinn_slots.slots[0].state,
        DjinnState::Recovery
    );
    assert_eq!(
        battle.player_units[1].djinn_slots.slots[0].state,
        DjinnState::Recovery
    );
}

// ── Test: full scenario plan + execute + check across 2 rounds ──

#[test]
fn test_full_two_round_scenario() {
    let player_stats = test_stats(200, 40, 20, 30, 15);
    let enemy_stats = test_stats(50, 15, 10, 10, 8);

    let player = make_player("hero", player_stats, 5);
    let enemy = make_enemy("goblin", enemy_stats);

    let (aid, adef) = make_basic_ability("quake", 2, 30);
    let mut abilities = Vec::new();
    abilities.push(adef);

    let mut battle = new_battle(
        vec![player],
        vec![enemy],
        test_config(),
        abilities,
        Vec::new(),
    );

    // Round 1: auto-attack
    let actor = TargetRef {
        side: Side::Player,
        index: 0,
    };
    let target = TargetRef {
        side: Side::Enemy,
        index: 0,
    };
    plan_action(&mut battle, actor, BattleAction::Attack { target }).unwrap();

    assert_eq!(battle.round, 1);
    let events_r1 = execute_round(&mut battle);
    assert!(!events_r1.is_empty());
    assert_eq!(battle.round, 2);

    // Check if enemy survived round 1
    let result = check_battle_end(&battle);
    if result.is_some() {
        // Enemy died in round 1, that is fine
        match result.unwrap() {
            BattleResult::Victory { .. } => return,
            _ => panic!("Expected Victory if enemy died"),
        }
    }

    // Round 2: use ability to finish
    plan_action(
        &mut battle,
        actor,
        BattleAction::UseAbility {
            ability_id: AbilityId("quake".into()),
            targets: vec![target],
        },
    )
    .unwrap();

    let events_r2 = execute_round(&mut battle);
    assert!(!events_r2.is_empty());
    assert_eq!(battle.round, 3);

    // Should be victory now
    let result = check_battle_end(&battle);
    assert!(result.is_some());
    match result.unwrap() {
        BattleResult::Victory { xp, gold } => {
            assert!(xp > 0);
            assert!(gold > 0);
        }
        BattleResult::Defeat => panic!("Expected Victory"),
    }
}

// ── Test: get_unit returns correct unit ─────────────────────────

#[test]
fn test_get_unit() {
    let battle = setup_basic_battle();
    let player_ref = TargetRef {
        side: Side::Player,
        index: 0,
    };
    let enemy_ref = TargetRef {
        side: Side::Enemy,
        index: 0,
    };
    let invalid_ref = TargetRef {
        side: Side::Player,
        index: 99,
    };

    assert!(get_unit(&battle, player_ref).is_some());
    assert!(get_unit(&battle, enemy_ref).is_some());
    assert!(get_unit(&battle, invalid_ref).is_none());
}

// ── Test: multiple mana contributions ───────────────────────────

#[test]
fn test_multi_player_mana_pool() {
    let stats = test_stats(100, 20, 15, 10, 10);
    let p1 = make_player("hero1", stats, 3);
    let p2 = make_player("hero2", stats, 4);
    let enemy = make_enemy("goblin", stats);

    let battle = new_battle(
        vec![p1, p2],
        vec![enemy],
        test_config(),
        Vec::new(),
        Vec::new(),
    );
    assert_eq!(battle.mana_pool.max_mana, 7);
    assert_eq!(battle.mana_pool.current_mana, 7);
}

// ── Test: execute_round with djinn activation ───────────────────

#[test]
fn test_djinn_activation_deals_damage() {
    let player_stats = test_stats(100, 30, 20, 25, 15);
    let enemy_stats = test_stats(80, 20, 15, 10, 10);

    let player = make_player("hero", player_stats, 5);
    let first_enemy = make_enemy("fallen-goblin", enemy_stats);
    let second_enemy = make_enemy("target-goblin", enemy_stats);
    let (djinn_id, djinn_def) = make_djinn_def("flint", Element::Venus, 50);
    let mut djinn_defs = Vec::new();
    djinn_defs.push(djinn_def);

    let mut battle = new_battle(
        vec![player],
        vec![first_enemy, second_enemy],
        test_config(),
        Vec::new(),
        djinn_defs,
    );
    battle.player_units[0].djinn_slots.add(djinn_id);
    battle.enemies[0].unit.is_alive = false;
    battle.enemies[0].unit.current_hp = 0;

    let actor = TargetRef {
        side: Side::Player,
        index: 0,
    };
    plan_action(
        &mut battle,
        actor,
        BattleAction::ActivateDjinn { djinn_index: 0 },
    )
    .unwrap();

    let expected_damage = combat::calculate_damage(
        50,
        DamageType::Psynergy,
        &battle.player_units[0].unit.stats,
        &battle.enemies[1].unit.stats,
        &battle.config,
    );
    let events = execute_round(&mut battle);

    assert_eq!(battle.enemies[1].unit.current_hp, 80 - expected_damage);
    let damage_events: Vec<&DamageDealt> = events
        .iter()
        .filter_map(|event| match event {
            BattleEvent::DamageDealt(damage) => Some(damage),
            _ => None,
        })
        .collect();
    assert!(
        damage_events.iter().any(|damage| {
            damage.target
                == TargetRef {
                    side: Side::Enemy,
                    index: 1,
                }
                && damage.amount == expected_damage
                && damage.damage_type == DamageType::Psynergy
        }),
        "Activation should deal psynergy damage to the first alive enemy"
    );
}

#[test]
fn test_djinn_activation_still_changes_state() {
    let mut battle = setup_basic_battle();
    let (djinn_id, djinn_def) = make_djinn_def("flint", Element::Venus, 50);
    battle.djinn_defs.push(djinn_def);
    battle.player_units[0].djinn_slots.add(djinn_id);

    let actor = TargetRef {
        side: Side::Player,
        index: 0,
    };
    plan_action(
        &mut battle,
        actor,
        BattleAction::ActivateDjinn { djinn_index: 0 },
    )
    .unwrap();

    let events = execute_round(&mut battle);

    assert_eq!(
        battle.player_units[0].djinn_slots.slots[0].state,
        DjinnState::Recovery,
        "Djinn should be in Recovery after activation"
    );

    let has_djinn_change = events
        .iter()
        .any(|e| matches!(e, BattleEvent::DjinnChanged(_)));
    assert!(has_djinn_change, "Should have DjinnChanged event");
}

#[test]
fn test_djinn_activation_heal_restores_caster_team() {
    let player_stats = test_stats(100, 30, 20, 25, 15);
    let ally_stats = test_stats(90, 18, 14, 12, 11);
    let enemy_stats = test_stats(80, 20, 15, 10, 10);

    let player = make_player("hero", player_stats, 5);
    let ally = make_player("ally", ally_stats, 3);
    let enemy = make_enemy("goblin", enemy_stats);

    let djinn_id = DjinnId("mist".into());
    let empty_ability_set = vale_village::shared::DjinnAbilitySet {
        good_abilities: vec![],
        recovery_abilities: vec![],
    };
    let djinn_def = DjinnDef {
        id: djinn_id.clone(),
        name: "Mist".to_string(),
        element: Element::Mercury,
        tier: vale_village::shared::bounded_types::DjinnTier::new_unchecked(1),
        stat_bonus: vale_village::shared::StatBonus::default(),
        summon_effect: Some(vale_village::shared::SummonEffect {
            damage: 0,
            buff: None,
            status: None,
            heal: Some(18),
        }),
        ability_pairs: vale_village::shared::DjinnAbilityPairs {
            same: empty_ability_set.clone(),
            counter: empty_ability_set.clone(),
            neutral: empty_ability_set,
        },
    };
    let mut djinn_defs = Vec::new();
    djinn_defs.push(djinn_def);

    let mut battle = new_battle(
        vec![player, ally],
        vec![enemy],
        test_config(),
        Vec::new(),
        djinn_defs,
    );
    battle.player_units[0].djinn_slots.add(djinn_id);
    battle.player_units[0].unit.current_hp = 55;
    battle.player_units[1].unit.current_hp = 40;

    let actor = TargetRef {
        side: Side::Player,
        index: 0,
    };
    plan_action(
        &mut battle,
        actor,
        BattleAction::ActivateDjinn { djinn_index: 0 },
    )
    .unwrap();

    let events = execute_round(&mut battle);

    assert_eq!(
        battle.player_units[0].unit.current_hp,
        battle.player_units[0].unit.stats.hp.get()
    );
    assert_eq!(
        battle.player_units[1].unit.current_hp,
        battle.player_units[1].unit.stats.hp.get()
    );
    assert!(
        events.iter().any(|event| matches!(
            event,
            BattleEvent::HealingDone(HealingDone {
                source,
                target,
                amount: 45,
            }) if *source == actor && *target == actor
        )),
        "Activation should heal the caster back to full HP"
    );
    assert!(
        events.iter().any(|event| matches!(
            event,
            BattleEvent::HealingDone(HealingDone {
                source,
                target,
                amount: 50,
            }) if *source == actor
                && *target == TargetRef {
                    side: Side::Player,
                    index: 1,
                }
        )),
        "Activation should heal allies on the caster's side"
    );
}

#[test]
fn test_djinn_activation_buff_applies_atk_to_caster() {
    let player_stats = test_stats(100, 30, 20, 25, 15);
    let enemy_stats = test_stats(80, 20, 15, 10, 10);

    let player = make_player("hero", player_stats, 5);
    let enemy = make_enemy("goblin", enemy_stats);

    let djinn_id = DjinnId("forge".into());
    let empty_ability_set = vale_village::shared::DjinnAbilitySet {
        good_abilities: vec![],
        recovery_abilities: vec![],
    };
    let djinn_def = DjinnDef {
        id: djinn_id.clone(),
        name: "Forge".to_string(),
        element: Element::Mars,
        tier: vale_village::shared::bounded_types::DjinnTier::new_unchecked(1),
        stat_bonus: vale_village::shared::StatBonus::default(),
        summon_effect: Some(vale_village::shared::SummonEffect {
            damage: 0,
            buff: Some(vale_village::shared::BuffEffect {
                stat_modifiers: vale_village::shared::StatBonus {
                    atk: vale_village::shared::bounded_types::StatMod::new_unchecked(5),
                    def: vale_village::shared::bounded_types::StatMod::new_unchecked(0),
                    mag: vale_village::shared::bounded_types::StatMod::new_unchecked(0),
                    spd: vale_village::shared::bounded_types::StatMod::new_unchecked(0),
                    hp: vale_village::shared::bounded_types::StatMod::new_unchecked(0),
                },
                duration: 2,
            }),
            status: None,
            heal: None,
        }),
        ability_pairs: vale_village::shared::DjinnAbilityPairs {
            same: empty_ability_set.clone(),
            counter: empty_ability_set.clone(),
            neutral: empty_ability_set,
        },
    };
    let mut djinn_defs = Vec::new();
    djinn_defs.push(djinn_def);

    let mut battle = new_battle(
        vec![player],
        vec![enemy],
        test_config(),
        Vec::new(),
        djinn_defs,
    );
    battle.player_units[0].djinn_slots.add(djinn_id);

    let actor = TargetRef {
        side: Side::Player,
        index: 0,
    };
    plan_action(
        &mut battle,
        actor,
        BattleAction::ActivateDjinn { djinn_index: 0 },
    )
    .unwrap();

    execute_round(&mut battle);

    let buff_mods = status::compute_stat_modifiers(
        &battle.player_units[0].status_state.buffs,
        &battle.player_units[0].status_state.debuffs,
    );
    assert_eq!(
        buff_mods.atk.get(),
        2,
        "Activation buff should grant ATK +2"
    );
    assert_eq!(battle.player_units[0].status_state.buffs.len(), 1);
}

// ── Test: plan_enemy_actions plans correctly ────────────────────

#[test]
fn test_plan_enemy_actions_targets_first_alive_player() {
    let player_stats = test_stats(100, 20, 15, 10, 10);
    let enemy_stats = test_stats(80, 25, 10, 10, 12);

    let p1 = make_player("hero1", player_stats, 3);
    let p2 = make_player("hero2", player_stats, 3);
    let e1 = make_enemy("goblin-a", enemy_stats);
    let e2 = make_enemy("goblin-b", enemy_stats);

    let mut battle = new_battle(
        vec![p1, p2],
        vec![e1, e2],
        test_config(),
        Vec::new(),
        Vec::new(),
    );

    plan_enemy_actions(&mut battle);

    // Both enemies should have planned an attack on player index 0
    assert_eq!(
        battle.planned_actions.len(),
        2,
        "Both enemies should plan actions"
    );
    for (actor_ref, action) in &battle.planned_actions {
        assert_eq!(actor_ref.side, Side::Enemy, "Actor should be enemy");
        match action {
            BattleAction::Attack { target } => {
                assert_eq!(target.side, Side::Player, "Target should be player");
                assert_eq!(target.index, 0, "Should target first alive player");
            }
            _ => panic!("Expected Attack action"),
        }
    }
}

// ── Test: plan_enemy_actions skips dead enemies ─────────────────

#[test]
fn test_plan_enemy_actions_skips_dead_enemies() {
    let stats = test_stats(100, 20, 15, 10, 10);
    let p1 = make_player("hero", stats, 3);
    let e1 = make_enemy("dead-goblin", stats);
    let e2 = make_enemy("live-goblin", stats);

    let mut battle = new_battle(
        vec![p1],
        vec![e1, e2],
        test_config(),
        Vec::new(),
        Vec::new(),
    );
    // Kill first enemy
    battle.enemies[0].unit.is_alive = false;
    battle.enemies[0].unit.current_hp = 0;

    plan_enemy_actions(&mut battle);

    assert_eq!(
        battle.planned_actions.len(),
        1,
        "Only alive enemy should plan"
    );
    assert_eq!(
        battle.planned_actions[0].0.index, 1,
        "Second enemy should be the actor"
    );
}

// ── Test: plan_enemy_actions targets second player if first dead ─

#[test]
fn test_plan_enemy_actions_targets_second_player_if_first_dead() {
    let stats = test_stats(100, 20, 15, 10, 10);
    let p1 = make_player("dead-hero", stats, 3);
    let p2 = make_player("alive-hero", stats, 3);
    let e1 = make_enemy("goblin", stats);

    let mut battle = new_battle(
        vec![p1, p2],
        vec![e1],
        test_config(),
        Vec::new(),
        Vec::new(),
    );
    // Kill first player
    battle.player_units[0].unit.is_alive = false;
    battle.player_units[0].unit.current_hp = 0;

    plan_enemy_actions(&mut battle);

    assert_eq!(battle.planned_actions.len(), 1);
    match &battle.planned_actions[0].1 {
        BattleAction::Attack { target } => {
            assert_eq!(target.index, 1, "Should target second (alive) player");
        }
        _ => panic!("Expected Attack"),
    }
}

// ── Test: enemy deals damage to player unit ─────────────────────

#[test]
fn test_enemy_deals_damage_to_player() {
    let player_stats = test_stats(100, 20, 10, 10, 8);
    let enemy_stats = test_stats(80, 30, 10, 10, 12);

    let p1 = make_player("hero", player_stats, 3);
    let e1 = make_enemy("strong-goblin", enemy_stats);

    let mut battle = new_battle(
        vec![p1],
        vec![e1],
        test_config(),
        Vec::new(),
        Vec::new(),
    );

    // Only plan enemy action (no player action)
    plan_enemy_actions(&mut battle);

    let player_hp_before = battle.player_units[0].unit.current_hp;
    let events = execute_round(&mut battle);
    let player_hp_after = battle.player_units[0].unit.current_hp;

    assert!(
        player_hp_after < player_hp_before,
        "Player should have taken damage from enemy attack: before={}, after={}",
        player_hp_before,
        player_hp_after
    );

    // Verify a DamageDealt event from enemy to player exists
    let has_enemy_damage = events.iter().any(|e| match e {
        BattleEvent::DamageDealt(dd) => {
            dd.source.side == Side::Enemy && dd.target.side == Side::Player
        }
        _ => false,
    });
    assert!(has_enemy_damage, "Should have enemy->player damage event");
}

// ── Test: player unit can die → battle ends in defeat ───────────

#[test]
fn test_player_death_leads_to_defeat() {
    // Give enemy massive ATK so it kills the player in one round
    let player_stats = test_stats(30, 5, 2, 5, 5);
    let enemy_stats = test_stats(500, 200, 50, 10, 20);

    let p1 = make_player("fragile-hero", player_stats, 1);
    let e1 = make_enemy("boss-goblin", enemy_stats);

    let mut battle = new_battle(
        vec![p1],
        vec![e1],
        test_config(),
        Vec::new(),
        Vec::new(),
    );

    // Plan both sides
    let player_ref = TargetRef {
        side: Side::Player,
        index: 0,
    };
    let enemy_target = TargetRef {
        side: Side::Enemy,
        index: 0,
    };
    let _ = plan_action(
        &mut battle,
        player_ref,
        BattleAction::Attack {
            target: enemy_target,
        },
    );
    plan_enemy_actions(&mut battle);

    let events = execute_round(&mut battle);

    // Player should be dead
    assert!(
        !battle.player_units[0].unit.is_alive,
        "Player should be dead after enemy attack"
    );

    // Should have UnitDefeated event for the player
    let has_player_defeated = events.iter().any(|e| match e {
        BattleEvent::UnitDefeated(ud) => ud.unit.side == Side::Player,
        _ => false,
    });
    assert!(
        has_player_defeated,
        "Should have UnitDefeated event for player"
    );

    // Battle should end in defeat
    let result = check_battle_end(&battle);
    assert_eq!(result, Some(BattleResult::Defeat));
}

// ── Test: two-sided combat — both sides attack each round ───────

#[test]
fn test_two_sided_combat_round() {
    let player_stats = test_stats(200, 25, 15, 10, 15);
    let enemy_stats = test_stats(150, 20, 12, 10, 10);

    let p1 = make_player("hero", player_stats, 3);
    let e1 = make_enemy("goblin", enemy_stats);

    let mut battle = new_battle(
        vec![p1],
        vec![e1],
        test_config(),
        Vec::new(),
        Vec::new(),
    );

    // Plan player attack
    let player_ref = TargetRef {
        side: Side::Player,
        index: 0,
    };
    let enemy_ref = TargetRef {
        side: Side::Enemy,
        index: 0,
    };
    plan_action(
        &mut battle,
        player_ref,
        BattleAction::Attack { target: enemy_ref },
    )
    .unwrap();

    // Plan enemy attacks
    plan_enemy_actions(&mut battle);

    let enemy_hp_before = battle.enemies[0].unit.current_hp;
    let player_hp_before = battle.player_units[0].unit.current_hp;

    let _events = execute_round(&mut battle);

    let enemy_hp_after = battle.enemies[0].unit.current_hp;
    let player_hp_after = battle.player_units[0].unit.current_hp;

    assert!(
        enemy_hp_after < enemy_hp_before,
        "Enemy should take damage from player"
    );
    assert!(
        player_hp_after < player_hp_before,
        "Player should take damage from enemy"
    );
}

// ── Test: AI enemy uses ability when mana available ──────────────

#[test]
fn test_ai_enemy_uses_ability_when_mana_available() {
    let player_stats = test_stats(100, 20, 10, 10, 10);
    let enemy_stats = test_stats(80, 25, 10, 15, 12);

    let player = make_player("hero", player_stats, 5);
    let mut enemy_data = make_enemy("smart-goblin", enemy_stats);
    // Give the enemy an ability it can use
    let (aid, adef) = make_basic_ability("fire-bolt", 2, 40);
    enemy_data.enemy_def.abilities = vec![aid.clone()];

    let mut abilities = Vec::new();
    abilities.push(adef);

    let mut battle = new_battle(
        vec![player],
        vec![enemy_data],
        test_config(),
        abilities,
        Vec::new(),
    );

    // Verify the enemy has ability_ids populated
    assert_eq!(battle.enemies[0].ability_ids.len(), 1);
    assert_eq!(battle.enemies[0].ability_ids[0].0, "fire-bolt");

    // Use AI planning with Aggressive strategy (prefers abilities)
    plan_enemy_actions_with_ai(&mut battle, AiStrategy::Aggressive);

    // The enemy should have planned a UseAbility action (not just Attack)
    assert_eq!(battle.planned_actions.len(), 1);
    match &battle.planned_actions[0].1 {
        BattleAction::UseAbility {
            ability_id,
            targets,
        } => {
            assert_eq!(ability_id.0, "fire-bolt", "Enemy should use fire-bolt");
            assert!(!targets.is_empty(), "Should have at least one target");
            assert_eq!(targets[0].side, Side::Player, "Target should be a player");
        }
        _ => panic!("Expected UseAbility, got {:?}", battle.planned_actions[0].1),
    }

    // Execute and verify the ability actually deals damage
    let player_hp_before = battle.player_units[0].unit.current_hp;
    let events = execute_round(&mut battle);
    let player_hp_after = battle.player_units[0].unit.current_hp;

    assert!(
        player_hp_after < player_hp_before,
        "Player should take damage from enemy ability"
    );

    // Should have an EnemyAbilityUsed event
    let has_ability_event = events.iter().any(|e| {
        matches!(e, BattleEvent::EnemyAbilityUsed { ability_name, .. } if ability_name == "fire-bolt")
    });
    assert!(has_ability_event, "Should emit EnemyAbilityUsed event");
}

// ── Test: AI enemy targets lowest HP player when aggressive ──────

#[test]
fn test_ai_enemy_targets_lowest_hp_player_when_aggressive() {
    let player_stats = test_stats(100, 20, 10, 10, 10);
    let enemy_stats = test_stats(80, 25, 10, 10, 12);

    let p1 = make_player("hero-a", player_stats, 3);
    let p2 = make_player("hero-b", player_stats, 3);
    let enemy = make_enemy("aggressive-goblin", enemy_stats);

    let mut battle = new_battle(
        vec![p1, p2],
        vec![enemy],
        test_config(),
        Vec::new(),
        Vec::new(),
    );

    // Damage player 1 so it has lower HP
    battle.player_units[1].unit.current_hp = 20;

    plan_enemy_actions_with_ai(&mut battle, AiStrategy::Aggressive);

    assert_eq!(battle.planned_actions.len(), 1);
    match &battle.planned_actions[0].1 {
        BattleAction::Attack { target } => {
            assert_eq!(target.side, Side::Player);
            assert_eq!(
                target.index, 1,
                "Aggressive AI should target the player with lowest HP (index 1 at 20 HP)"
            );
        }
        _ => panic!("Expected Attack action"),
    }
}

// ── Test: AI falls back to basic attack when no abilities ────────

#[test]
fn test_ai_fallback_to_basic_attack_when_no_abilities() {
    let player_stats = test_stats(100, 20, 10, 10, 10);
    let enemy_stats = test_stats(80, 25, 10, 10, 12);

    let player = make_player("hero", player_stats, 5);
    let enemy = make_enemy("dumb-goblin", enemy_stats);
    // Enemy has no abilities (empty list from make_enemy)

    let mut battle = new_battle(
        vec![player],
        vec![enemy],
        test_config(),
        Vec::new(),
        Vec::new(),
    );

    assert!(
        battle.enemies[0].ability_ids.is_empty(),
        "Enemy should have no abilities"
    );

    plan_enemy_actions_with_ai(&mut battle, AiStrategy::Balanced);

    // With no abilities, AI should fall back to a basic Attack
    assert_eq!(battle.planned_actions.len(), 1);
    match &battle.planned_actions[0].1 {
        BattleAction::Attack { target } => {
            assert_eq!(target.side, Side::Player);
            assert_eq!(target.index, 0, "Should target first alive player");
        }
        _ => panic!(
            "Expected Attack fallback when no abilities, got {:?}",
            battle.planned_actions[0].1
        ),
    }
}

// ── FIX 1 Test: Planning order = execution order ────────────────

#[test]
fn test_planning_order_equals_execution_order() {
    // Set up: 2 players with different SPD, slower one planned first.
    // Under the old SPD-sort the faster unit would execute first.
    // Under the fix, the planning order is preserved.
    let slow_stats = test_stats(200, 30, 20, 10, 5);
    let fast_stats = test_stats(200, 30, 20, 10, 50);
    let enemy_stats = test_stats(500, 10, 5, 5, 1);

    let p1 = make_player("slow-hero", slow_stats, 3);
    let p2 = make_player("fast-hero", fast_stats, 3);
    let enemy = make_enemy("dummy", enemy_stats);

    let mut battle = new_battle(
        vec![p1, p2],
        vec![enemy],
        test_config(),
        Vec::new(),
        Vec::new(),
    );

    let slow_ref = TargetRef {
        side: Side::Player,
        index: 0,
    };
    let fast_ref = TargetRef {
        side: Side::Player,
        index: 1,
    };
    let enemy_ref = TargetRef {
        side: Side::Enemy,
        index: 0,
    };

    // Plan slow hero FIRST, then fast hero
    plan_action(
        &mut battle,
        slow_ref,
        BattleAction::Attack { target: enemy_ref },
    )
    .unwrap();
    plan_action(
        &mut battle,
        fast_ref,
        BattleAction::Attack { target: enemy_ref },
    )
    .unwrap();

    let events = execute_round(&mut battle);

    // Collect DamageDealt events in order
    let damage_sources: Vec<TargetRef> = events
        .iter()
        .filter_map(|e| match e {
            BattleEvent::DamageDealt(dd) if dd.source.side == Side::Player => Some(dd.source),
            _ => None,
        })
        .collect();

    assert!(damage_sources.len() >= 2, "Both players should deal damage");
    // The SLOW hero (index 0) was planned first, so should appear first
    assert_eq!(
        damage_sources[0].index, 0,
        "Slow hero (planned first) should execute first, not sorted by SPD"
    );
    assert_eq!(
        damage_sources[1].index, 1,
        "Fast hero (planned second) should execute second"
    );
}

// ── FIX 2 Test: Freeze broken by accumulated damage ─────────────

#[test]
fn test_freeze_broken_by_damage() {
    let player_stats = test_stats(200, 50, 20, 10, 15);
    let enemy_stats = test_stats(300, 10, 5, 5, 5);

    let player = make_player("hero", player_stats, 5);
    let enemy = make_enemy("frozen-goblin", enemy_stats);

    let mut battle = new_battle(
        vec![player],
        vec![enemy],
        test_config(),
        Vec::new(),
        Vec::new(),
    );

    // Apply freeze with a low threshold to the enemy
    let freeze = StatusEffect {
        effect_type: StatusEffectType::Freeze,
        duration: 10,
        burn_percent: None,
        poison_percent: None,
        freeze_threshold: Some(10), // breaks after 10 cumulative damage
    };
    status::apply_status(&mut battle.enemies[0].status_state, &freeze, &None);

    // Verify freeze is active
    assert_eq!(battle.enemies[0].status_state.statuses.len(), 1);
    assert_eq!(
        battle.enemies[0].status_state.statuses[0].effect_type,
        StatusEffectType::Freeze
    );

    // Plan an attack that will deal damage
    let actor = TargetRef {
        side: Side::Player,
        index: 0,
    };
    let target = TargetRef {
        side: Side::Enemy,
        index: 0,
    };
    plan_action(&mut battle, actor, BattleAction::Attack { target }).unwrap();

    execute_round(&mut battle);

    // The attack should have accumulated freeze damage
    // After end-of-round tick, freeze should have broken
    // (damage from ATK 50 vs DEF 5 should easily exceed threshold of 10)
    // The freeze status should have been removed by tick_statuses
    let freeze_statuses: Vec<_> = battle.enemies[0]
        .status_state
        .statuses
        .iter()
        .filter(|s| s.effect_type == StatusEffectType::Freeze)
        .collect();
    assert!(
        freeze_statuses.is_empty(),
        "Freeze should be broken after sufficient damage accumulation"
    );
}

// ── FIX 3 Test: Chain damage hits all enemies ────────────────────

#[test]
fn test_chain_damage_hits_all_enemies() {
    let player_stats = test_stats(200, 10, 20, 40, 15);
    let enemy_stats = test_stats(200, 10, 5, 5, 5);

    let player = make_player("hero", player_stats, 10);
    let e1 = make_enemy("goblin-a", enemy_stats);
    let e2 = make_enemy("goblin-b", enemy_stats);
    let e3 = make_enemy("goblin-c", enemy_stats);

    let chain_ability_id = AbilityId("chain-bolt".to_string());
    let chain_ability = AbilityDef {
        id: chain_ability_id.clone(),
        name: "Chain Bolt".to_string(),
        category: AbilityCategory::Psynergy,
        damage_type: Some(DamageType::Psynergy),
        element: Some(Element::Jupiter),
        mana_cost: ManaCost::new_unchecked(2),
        base_power: BasePower::new_unchecked(30),
        targets: TargetMode::SingleEnemy,
        unlock_level: Level::new_unchecked(1),
        hit_count: HitCount::new_unchecked(1),
        status_effect: None,
        buff_effect: None,
        debuff_effect: None,
        shield_charges: None,
        shield_duration: None,
        heal_over_time: None,
        grant_immunity: None,
        cleanse: None,
        ignore_defense_percent: None,
        splash_damage_percent: None,
        chain_damage: true, // chain damage enabled
        revive: false,
        revive_hp_percent: None,
    };

    let mut abilities = Vec::new();
    abilities.push(chain_ability);

    let mut battle = new_battle(
        vec![player],
        vec![e1, e2, e3],
        test_config(),
        abilities,
        Vec::new(),
    );

    let actor = TargetRef {
        side: Side::Player,
        index: 0,
    };
    // Target only the first enemy
    let primary_target = TargetRef {
        side: Side::Enemy,
        index: 0,
    };
    plan_action(
        &mut battle,
        actor,
        BattleAction::UseAbility {
            ability_id: AbilityId("chain-bolt".into()),
            targets: vec![primary_target],
        },
    )
    .unwrap();

    let e1_hp_before = battle.enemies[0].unit.current_hp;
    let e2_hp_before = battle.enemies[1].unit.current_hp;
    let e3_hp_before = battle.enemies[2].unit.current_hp;

    execute_round(&mut battle);

    // Primary target should be damaged
    assert!(
        battle.enemies[0].unit.current_hp < e1_hp_before,
        "Primary target should take damage"
    );
    // Chain should hit other enemies too
    assert!(
        battle.enemies[1].unit.current_hp < e2_hp_before,
        "Chain should hit second enemy"
    );
    assert!(
        battle.enemies[2].unit.current_hp < e3_hp_before,
        "Chain should hit third enemy"
    );
}

#[test]
fn test_chain_hit_preserves_crit_flag() {
    let player_stats = test_stats(200, 10, 20, 40, 15);
    let enemy_stats = test_stats(200, 10, 5, 5, 5);

    let player = make_player("hero", player_stats, 10);
    let e1 = make_enemy("goblin-a", enemy_stats);
    let e2 = make_enemy("goblin-b", enemy_stats);
    let e3 = make_enemy("goblin-c", enemy_stats);

    let mut battle = new_battle(
        vec![player],
        vec![e1, e2, e3],
        test_config(),
        Vec::new(),
        Vec::new(),
    );

    let actor = TargetRef {
        side: Side::Player,
        index: 0,
    };
    let primary_target = TargetRef {
        side: Side::Enemy,
        index: 0,
    };
    let mut events = Vec::new();

    apply_chain_damage(
        &mut battle,
        actor,
        primary_target,
        25,
        DamageType::Psynergy,
        true,
        &mut events,
    );

    let chain_damage_events: Vec<&DamageDealt> = events
        .iter()
        .filter_map(|event| match event {
            BattleEvent::DamageDealt(damage)
                if damage.target.side == Side::Enemy && damage.target.index != 0 =>
            {
                Some(damage)
            }
            _ => None,
        })
        .collect();

    assert_eq!(
        chain_damage_events.len(),
        2,
        "Chain should hit both secondary enemies"
    );
    assert!(
        chain_damage_events.iter().all(|damage| damage.is_crit),
        "Chain hit events should preserve the primary crit flag",
    );
}

// ── FIX 4 Test: Immunity blocks status ──────────────────────────

#[test]
fn test_immunity_blocks_status() {
    let player_stats = test_stats(200, 10, 20, 30, 15);
    let enemy_stats = test_stats(200, 20, 5, 5, 5);

    let player = make_player("hero", player_stats, 10);
    let enemy = make_enemy("goblin", enemy_stats);

    // Create an immunity-granting ability
    let imm_ability_id = AbilityId("ward".to_string());
    let imm_ability = AbilityDef {
        id: imm_ability_id.clone(),
        name: "Ward".to_string(),
        category: AbilityCategory::Buff,
        damage_type: None,
        element: None,
        mana_cost: ManaCost::new_unchecked(2),
        base_power: BasePower::new_unchecked(0),
        targets: TargetMode::SingleAlly,
        unlock_level: Level::new_unchecked(1),
        hit_count: HitCount::new_unchecked(1),
        status_effect: None,
        buff_effect: None,
        debuff_effect: None,
        shield_charges: None,
        shield_duration: None,
        heal_over_time: None,
        grant_immunity: Some(Immunity {
            all: true,
            types: vec![],
            duration: 3,
        }),
        cleanse: None,
        ignore_defense_percent: None,
        splash_damage_percent: None,
        chain_damage: false,
        revive: false,
        revive_hp_percent: None,
    };

    let mut abilities = Vec::new();
    abilities.push(imm_ability);

    let mut battle = new_battle(
        vec![player],
        vec![enemy],
        test_config(),
        abilities,
        Vec::new(),
    );

    // Use ward on self
    let actor = TargetRef {
        side: Side::Player,
        index: 0,
    };
    plan_action(
        &mut battle,
        actor,
        BattleAction::UseAbility {
            ability_id: AbilityId("ward".into()),
            targets: vec![actor],
        },
    )
    .unwrap();
    execute_round(&mut battle);

    // Player should now have immunity
    assert!(
        battle.player_units[0].status_state.immunity.is_some(),
        "Player should have immunity after using ward"
    );

    // Try to apply a burn status — should be blocked
    let burn = StatusEffect {
        effect_type: StatusEffectType::Burn,
        duration: 3,
        burn_percent: Some(10),
        poison_percent: None,
        freeze_threshold: None,
    };
    let imm = battle.player_units[0].status_state.immunity.clone();
    let applied = status::apply_status(&mut battle.player_units[0].status_state, &burn, &imm);
    assert!(!applied, "Status should be blocked by immunity");
    assert!(
        battle.player_units[0].status_state.statuses.is_empty(),
        "No status should be applied when immune"
    );
}

// ── FIX 4 Test: Cleanse removes statuses ────────────────────────

#[test]
fn test_cleanse_removes_statuses() {
    let player_stats = test_stats(200, 10, 20, 30, 15);
    let enemy_stats = test_stats(200, 10, 5, 5, 5);

    let player = make_player("hero", player_stats, 10);
    let enemy = make_enemy("goblin", enemy_stats);

    // Create a cleanse ability (Buff category, not Healing, to avoid the healing continue path)
    let cleanse_id = AbilityId("purify".to_string());
    let cleanse_ability = AbilityDef {
        id: cleanse_id.clone(),
        name: "Purify".to_string(),
        category: AbilityCategory::Buff,
        damage_type: None,
        element: None,
        mana_cost: ManaCost::new_unchecked(2),
        base_power: BasePower::new_unchecked(0),
        targets: TargetMode::SingleAlly,
        unlock_level: Level::new_unchecked(1),
        hit_count: HitCount::new_unchecked(1),
        status_effect: None,
        buff_effect: None,
        debuff_effect: None,
        shield_charges: None,
        shield_duration: None,
        heal_over_time: None,
        grant_immunity: None,
        cleanse: Some(CleanseType::All),
        ignore_defense_percent: None,
        splash_damage_percent: None,
        chain_damage: false,
        revive: false,
        revive_hp_percent: None,
    };

    let mut abilities = Vec::new();
    abilities.push(cleanse_ability);

    let mut battle = new_battle(
        vec![player],
        vec![enemy],
        test_config(),
        abilities,
        Vec::new(),
    );

    // Apply burn and poison to the player (not stun — stun prevents acting)
    let burn = StatusEffect {
        effect_type: StatusEffectType::Burn,
        duration: 5,
        burn_percent: Some(10),
        poison_percent: None,
        freeze_threshold: None,
    };
    let poison = StatusEffect {
        effect_type: StatusEffectType::Poison,
        duration: 5,
        burn_percent: None,
        poison_percent: Some(5),
        freeze_threshold: None,
    };
    status::apply_status(&mut battle.player_units[0].status_state, &burn, &None);
    status::apply_status(&mut battle.player_units[0].status_state, &poison, &None);
    assert_eq!(battle.player_units[0].status_state.statuses.len(), 2);

    // Use cleanse on self
    let actor = TargetRef {
        side: Side::Player,
        index: 0,
    };
    plan_action(
        &mut battle,
        actor,
        BattleAction::UseAbility {
            ability_id: AbilityId("purify".into()),
            targets: vec![actor],
        },
    )
    .unwrap();
    execute_round(&mut battle);

    // All statuses should be cleansed
    assert!(
        battle.player_units[0].status_state.statuses.is_empty(),
        "All statuses should be removed by cleanse"
    );
}

// ── FIX 5 Test: Revive dead ally ────────────────────────────────

#[test]
fn test_revive_dead_ally() {
    let player_stats = test_stats(100, 10, 20, 30, 15);
    let enemy_stats = test_stats(200, 10, 5, 5, 5);

    let p1 = make_player("healer", player_stats, 10);
    let p2 = make_player("dead-ally", player_stats, 0);
    let enemy = make_enemy("goblin", enemy_stats);

    // Create a revive ability
    let revive_id = AbilityId("revive".to_string());
    let revive_ability = AbilityDef {
        id: revive_id.clone(),
        name: "Revive".to_string(),
        category: AbilityCategory::Healing,
        damage_type: None,
        element: None,
        mana_cost: ManaCost::new_unchecked(3),
        base_power: BasePower::new_unchecked(0),
        targets: TargetMode::SingleAlly,
        unlock_level: Level::new_unchecked(1),
        hit_count: HitCount::new_unchecked(1),
        status_effect: None,
        buff_effect: None,
        debuff_effect: None,
        shield_charges: None,
        shield_duration: None,
        heal_over_time: None,
        grant_immunity: None,
        cleanse: None,
        ignore_defense_percent: None,
        splash_damage_percent: None,
        chain_damage: false,
        revive: true,
        revive_hp_percent: Some(50), // revive at 50% HP
    };

    let mut abilities = Vec::new();
    abilities.push(revive_ability);

    let mut battle = new_battle(
        vec![p1, p2],
        vec![enemy],
        test_config(),
        abilities,
        Vec::new(),
    );

    // Kill the second player
    battle.player_units[1].unit.is_alive = false;
    battle.player_units[1].unit.current_hp = 0;

    // Use revive
    let actor = TargetRef {
        side: Side::Player,
        index: 0,
    };
    // Target the dead ally (the ability is healing category, targeting the ally)
    let dead_ally = TargetRef {
        side: Side::Player,
        index: 1,
    };
    plan_action(
        &mut battle,
        actor,
        BattleAction::UseAbility {
            ability_id: AbilityId("revive".into()),
            targets: vec![dead_ally],
        },
    )
    .unwrap();

    let events = execute_round(&mut battle);

    // Dead ally should be revived
    assert!(
        battle.player_units[1].unit.is_alive,
        "Dead ally should be revived"
    );
    // HP should be 50% of max (100 * 0.5 = 50)
    assert_eq!(
        battle.player_units[1].unit.current_hp, 50,
        "Revived ally should have 50% max HP"
    );

    // Should have a HealingDone event for the revive
    let has_revive_heal = events.iter().any(|e| match e {
        BattleEvent::HealingDone(hd) => hd.target.side == Side::Player && hd.target.index == 1,
        _ => false,
    });
    assert!(has_revive_heal, "Should have HealingDone event for revive");
}

// ── FIX 6 Test: Healing includes MAG stat ───────────────────────

#[test]
fn test_healing_includes_mag_stat() {
    let player_stats = test_stats(200, 10, 20, 30, 15);
    let enemy_stats = test_stats(200, 10, 5, 5, 5);

    let player = make_player("healer", player_stats, 10);
    let enemy = make_enemy("goblin", enemy_stats);

    // Create a healing ability with base_power 20
    let heal_id = AbilityId("cure".to_string());
    let heal_ability = AbilityDef {
        id: heal_id.clone(),
        name: "Cure".to_string(),
        category: AbilityCategory::Healing,
        damage_type: None,
        element: None,
        mana_cost: ManaCost::new_unchecked(2),
        base_power: BasePower::new_unchecked(20), // base heal = 20
        targets: TargetMode::SingleAlly,
        unlock_level: Level::new_unchecked(1),
        hit_count: HitCount::new_unchecked(1),
        status_effect: None,
        buff_effect: None,
        debuff_effect: None,
        shield_charges: None,
        shield_duration: None,
        heal_over_time: None,
        grant_immunity: None,
        cleanse: None,
        ignore_defense_percent: None,
        splash_damage_percent: None,
        chain_damage: false,
        revive: false,
        revive_hp_percent: None,
    };

    let mut abilities = Vec::new();
    abilities.push(heal_ability);

    let mut battle = new_battle(
        vec![player],
        vec![enemy],
        test_config(),
        abilities,
        Vec::new(),
    );

    // Damage the player to make healing visible
    battle.player_units[0].unit.current_hp = 100;

    let actor = TargetRef {
        side: Side::Player,
        index: 0,
    };
    plan_action(
        &mut battle,
        actor,
        BattleAction::UseAbility {
            ability_id: AbilityId("cure".into()),
            targets: vec![actor],
        },
    )
    .unwrap();

    let events = execute_round(&mut battle);

    // Expected heal: base_power (20) + mag (30) = 50
    // Player started at 100/200, should now be 150
    assert_eq!(
        battle.player_units[0].unit.current_hp, 150,
        "Healing should be base_power + MAG: 20 + 30 = 50, so 100 + 50 = 150"
    );

    // Verify the HealingDone event has the correct amount
    let heal_event = events.iter().find_map(|e| match e {
        BattleEvent::HealingDone(hd) if hd.source == actor && hd.target == actor => {
            Some(hd.amount)
        }
        _ => None,
    });
    assert_eq!(
        heal_event,
        Some(50),
        "HealingDone amount should be 50 (base 20 + MAG 30)"
    );
}

// ── Audit Round 2: test_barrier_ability_without_duration_uses_default ──

#[test]
fn test_barrier_ability_without_duration_uses_default() {
    let player_stats = test_stats(200, 10, 20, 30, 15);
    let enemy_stats = test_stats(200, 10, 5, 5, 5);

    let player = make_player("hero", player_stats, 10);
    let enemy = make_enemy("goblin", enemy_stats);

    // Create a barrier ability with shield_charges but NO shield_duration
    let barrier_id = AbilityId("shield-no-dur".to_string());
    let barrier_ability = AbilityDef {
        id: barrier_id.clone(),
        name: "Shield".to_string(),
        category: AbilityCategory::Buff,
        damage_type: None,
        element: None,
        mana_cost: ManaCost::new_unchecked(2),
        base_power: BasePower::new_unchecked(0),
        targets: TargetMode::SingleAlly,
        unlock_level: Level::new_unchecked(1),
        hit_count: HitCount::new_unchecked(1),
        status_effect: None,
        buff_effect: None,
        debuff_effect: None,
        shield_charges: Some(2),
        shield_duration: None, // no duration specified
        heal_over_time: None,
        grant_immunity: None,
        cleanse: None,
        ignore_defense_percent: None,
        splash_damage_percent: None,
        chain_damage: false,
        revive: false,
        revive_hp_percent: None,
    };

    let mut abilities = Vec::new();
    abilities.push(barrier_ability);

    let mut battle = new_battle(
        vec![player],
        vec![enemy],
        test_config(),
        abilities,
        Vec::new(),
    );

    let actor = TargetRef {
        side: Side::Player,
        index: 0,
    };
    plan_action(
        &mut battle,
        actor,
        BattleAction::UseAbility {
            ability_id: AbilityId("shield-no-dur".into()),
            targets: vec![actor],
        },
    )
    .unwrap();

    execute_round(&mut battle);

    // Barrier should have been applied with default duration 3
    // (tick_barriers decremented it once at end-of-round, so remaining_turns = 2)
    assert_eq!(
        battle.player_units[0].status_state.barriers.len(),
        1,
        "Barrier should exist"
    );
    assert_eq!(
        battle.player_units[0].status_state.barriers[0].charges, 2,
        "Barrier should have 2 charges"
    );
    assert_eq!(
        battle.player_units[0].status_state.barriers[0].remaining_turns, 2,
        "Barrier should have 2 remaining turns (default 3 minus 1 tick)"
    );
}

// ── Audit Round 2: test_immunity_expires_after_duration ──

#[test]
fn test_immunity_expires_after_duration() {
    let player_stats = test_stats(200, 10, 20, 30, 15);
    let enemy_stats = test_stats(200, 10, 5, 5, 5);

    let player = make_player("hero", player_stats, 10);
    let enemy = make_enemy("goblin", enemy_stats);

    let mut battle = new_battle(
        vec![player],
        vec![enemy],
        test_config(),
        Vec::new(),
        Vec::new(),
    );

    // Grant immunity with duration 2
    let immunity = Immunity {
        all: true,
        types: vec![],
        duration: 2,
    };
    status::apply_immunity(&mut battle.player_units[0].status_state, &immunity);
    assert!(
        battle.player_units[0].status_state.immunity.is_some(),
        "Immunity should be active"
    );

    // Round 1: immunity ticks from 2 -> 1
    execute_round(&mut battle);
    assert!(
        battle.player_units[0].status_state.immunity.is_some(),
        "Immunity should still be active after 1 round"
    );

    // Round 2: immunity ticks from 1 -> 0 and expires
    execute_round(&mut battle);
    assert!(
        battle.player_units[0].status_state.immunity.is_none(),
        "Immunity should have expired after 2 rounds"
    );
}

// ── Audit Round 2: test_buffs_affect_damage_calculation ──

#[test]
fn test_buffs_affect_damage_calculation() {
    let player_stats = test_stats(200, 30, 20, 10, 15);
    let enemy_stats = test_stats(300, 10, 15, 10, 5);

    let player = make_player("hero", player_stats, 10);
    let e1 = make_enemy("goblin-a", enemy_stats);
    let e2 = make_enemy("goblin-b", enemy_stats);

    let mut battle = new_battle(
        vec![player],
        vec![e1, e2],
        test_config(),
        Vec::new(),
        Vec::new(),
    );

    // Attack without buffs — measure baseline damage
    let actor = TargetRef {
        side: Side::Player,
        index: 0,
    };
    let target1 = TargetRef {
        side: Side::Enemy,
        index: 0,
    };
    plan_action(&mut battle, actor, BattleAction::Attack { target: target1 }).unwrap();
    execute_round(&mut battle);
    let damage_without_buff = 300u16.saturating_sub(battle.enemies[0].unit.current_hp);

    // Now apply a strong ATK buff to the player
    let atk_buff = vale_village::shared::BuffEffect {
        stat_modifiers: vale_village::shared::StatBonus {
            atk: vale_village::shared::bounded_types::StatMod::new_unchecked(20),
            def: vale_village::shared::bounded_types::StatMod::new_unchecked(0),
            mag: vale_village::shared::bounded_types::StatMod::new_unchecked(0),
            spd: vale_village::shared::bounded_types::StatMod::new_unchecked(0),
            hp: vale_village::shared::bounded_types::StatMod::new_unchecked(0),
        },
        duration: 5,
    };
    status::apply_buff_stacked(&mut battle.player_units[0].status_state, &atk_buff, 3);

    // Attack second enemy with buff active
    let target2 = TargetRef {
        side: Side::Enemy,
        index: 1,
    };
    plan_action(&mut battle, actor, BattleAction::Attack { target: target2 }).unwrap();
    execute_round(&mut battle);
    let damage_with_buff = 300u16.saturating_sub(battle.enemies[1].unit.current_hp);

    assert!(
        damage_with_buff > damage_without_buff,
        "Buffed attack ({}) should deal more damage than unbuffed ({})",
        damage_with_buff,
        damage_without_buff
    );
}

// ── Audit Round 2: test_enemy_xp_gold_used_in_rewards ──

#[test]
fn test_enemy_xp_gold_used_in_rewards() {
    let player_stats = test_stats(200, 200, 20, 10, 15);

    let player = make_player("hero", player_stats, 5);

    // Create enemies with specific xp and gold values
    let e1 = EnemyUnitData {
        enemy_def: EnemyDef {
            id: EnemyId("weak-a".to_string()),
            name: "Weak A".to_string(),
            element: Element::Venus,
            level: Level::new_unchecked(1),
            stats: test_stats(10, 1, 1, 1, 1),
            xp: vale_village::shared::bounded_types::Xp::new_unchecked(25),
            gold: vale_village::shared::bounded_types::Gold::new_unchecked(15),
            abilities: vec![],
        },
    };
    let e2 = EnemyUnitData {
        enemy_def: EnemyDef {
            id: EnemyId("weak-b".to_string()),
            name: "Weak B".to_string(),
            element: Element::Mars,
            level: Level::new_unchecked(1),
            stats: test_stats(10, 1, 1, 1, 1),
            xp: vale_village::shared::bounded_types::Xp::new_unchecked(40),
            gold: vale_village::shared::bounded_types::Gold::new_unchecked(20),
            abilities: vec![],
        },
    };

    let mut battle = new_battle(
        vec![player],
        vec![e1, e2],
        test_config(),
        Vec::new(),
        Vec::new(),
    );

    // Kill both enemies
    battle.enemies[0].unit.is_alive = false;
    battle.enemies[0].unit.current_hp = 0;
    battle.enemies[1].unit.is_alive = false;
    battle.enemies[1].unit.current_hp = 0;

    let result = check_battle_end(&battle);
    match result {
        Some(BattleResult::Victory { xp, gold }) => {
            assert_eq!(xp, 65, "XP should be 25 + 40 = 65");
            assert_eq!(gold, 35, "Gold should be 15 + 20 = 35");
        }
        other => panic!("Expected Victory with specific XP/gold, got {:?}", other),
    }
}

// ── Audit Round 2: test_summon_damage_respects_barriers ──

#[test]
fn test_summon_damage_respects_barriers() {
    let player_stats = test_stats(200, 10, 20, 30, 15);
    let enemy_stats = test_stats(200, 10, 5, 5, 5);

    let player = make_player("hero", player_stats, 10);
    let e1 = make_enemy("barrier-goblin", enemy_stats);
    let e2 = make_enemy("normal-goblin", enemy_stats);

    // Set up djinn def with a summon effect
    let djinn_id = DjinnId("ramses".into());
    let empty_ability_set = vale_village::shared::DjinnAbilitySet {
        good_abilities: vec![],
        recovery_abilities: vec![],
    };
    let djinn_def = DjinnDef {
        id: djinn_id.clone(),
        name: "Ramses".to_string(),
        element: Element::Venus,
        tier: vale_village::shared::bounded_types::DjinnTier::new_unchecked(1),
        stat_bonus: vale_village::shared::StatBonus::default(),
        summon_effect: Some(vale_village::shared::SummonEffect {
            damage: 50,
            buff: None,
            status: None,
            heal: None,
        }),
        ability_pairs: vale_village::shared::DjinnAbilityPairs {
            same: empty_ability_set.clone(),
            counter: empty_ability_set.clone(),
            neutral: empty_ability_set,
        },
    };
    let mut djinn_defs = Vec::new();
    djinn_defs.push(djinn_def);

    let mut battle = new_battle(
        vec![player],
        vec![e1, e2],
        test_config(),
        Vec::new(),
        djinn_defs,
    );

    // Give player a djinn in Good state
    battle.player_units[0].djinn_slots.add(djinn_id.clone());

    // Give first enemy a barrier
    status::apply_barrier(&mut battle.enemies[0].status_state, 1, 5);

    let actor = TargetRef {
        side: Side::Player,
        index: 0,
    };
    plan_action(
        &mut battle,
        actor,
        BattleAction::Summon {
            djinn_indices: vec![0],
        },
    )
    .unwrap();

    let e1_hp_before = battle.enemies[0].unit.current_hp;
    let e2_hp_before = battle.enemies[1].unit.current_hp;
    let events = execute_round(&mut battle);

    // First enemy (with barrier) should not take damage
    assert_eq!(
        battle.enemies[0].unit.current_hp, e1_hp_before,
        "Barrier should block summon damage on first enemy"
    );
    // Second enemy (no barrier) should take damage
    assert!(
        battle.enemies[1].unit.current_hp < e2_hp_before,
        "Second enemy without barrier should take summon damage"
    );
    // Should have a BarrierBlocked event
    let has_barrier_event = events
        .iter()
        .any(|e| matches!(e, BattleEvent::BarrierBlocked(_)));
    assert!(
        has_barrier_event,
        "Should have BarrierBlocked event for first enemy"
    );
}

// ── Planning-order tests ────────────────────────────────────────

#[test]
fn test_planning_order_matches_spd() {
    // Unit 0: SPD 10, Unit 1: SPD 18, Unit 2: SPD 13
    // Expected order: 1 (18), 2 (13), 0 (10)
    let battle = new_battle(
        vec![
            make_player("slow", test_stats(100, 20, 10, 10, 10), 1),
            make_player("fast", test_stats(100, 20, 10, 10, 18), 1),
            make_player("mid", test_stats(100, 20, 10, 10, 13), 1),
        ],
        vec![make_enemy("foe", test_stats(80, 15, 8, 5, 10))],
        test_config(),
        Vec::new(),
        Vec::new(),
    );

    let order = get_planning_order(&battle);
    assert_eq!(
        order,
        vec![1, 2, 0],
        "Planning order should be fastest-first by effective SPD"
    );
}

#[test]
fn test_planning_order_skips_dead() {
    let mut battle = new_battle(
        vec![
            make_player("alive_slow", test_stats(100, 20, 10, 10, 5), 1),
            make_player("dead_fast", test_stats(100, 20, 10, 10, 20), 1),
            make_player("alive_fast", test_stats(100, 20, 10, 10, 15), 1),
        ],
        vec![make_enemy("foe", test_stats(80, 15, 8, 5, 10))],
        test_config(),
        Vec::new(),
        Vec::new(),
    );

    // Kill unit 1
    battle.player_units[1].unit.is_alive = false;
    battle.player_units[1].unit.current_hp = 0;

    let order = get_planning_order(&battle);
    assert_eq!(order, vec![2, 0], "Dead unit (index 1) must be excluded");
    assert!(!order.contains(&1), "Dead unit index must not appear");
}

#[test]
fn test_planning_order_tiebreaker() {
    // Unit 0: base SPD 10, equip bonus +5 → effective 15
    // Unit 1: base SPD 15, equip bonus  0 → effective 15
    // Same effective SPD; higher base SPD (unit 1) should come first.
    // If base SPD also ties, lower index wins — tested by unit 2.
    let mut battle = new_battle(
        vec![
            make_player("low_base", test_stats(100, 20, 10, 10, 10), 1),
            make_player("high_base", test_stats(100, 20, 10, 10, 15), 1),
            make_player("also_15", test_stats(100, 20, 10, 10, 15), 1),
        ],
        vec![make_enemy("foe", test_stats(80, 15, 8, 5, 10))],
        test_config(),
        Vec::new(),
        Vec::new(),
    );

    // Give unit 0 equipment speed bonus so effective SPD = 15
    battle.player_units[0].unit.equipment_speed_bonus = 5;

    let order = get_planning_order(&battle);
    // Unit 1 and 2 both have base SPD 15, effective 15 — unit 1 wins by lower index.
    // Unit 0 has base SPD 10, effective 15 — comes last among the three.
    assert_eq!(
        order,
        vec![1, 2, 0],
        "Tiebreaker: higher base SPD first, then lower index"
    );
}

#[test]
fn test_healing_ability_heals_each_listing_capped_at_max() {
    let player_stats = test_stats(100, 10, 20, 25, 15);
    let enemy_stats = test_stats(200, 10, 5, 5, 5);
    let p1 = make_player("healer", player_stats, 10);
    let enemy = make_enemy("goblin", enemy_stats);
    let (aid, mut heal) = make_basic_ability("cure", 2, 10);
    heal.category = AbilityCategory::Healing;
    heal.damage_type = None;
    let mut battle = new_battle(vec![p1], vec![enemy], test_config(), vec![heal], Vec::new());
    battle.player_units[0].unit.current_hp = 40;
    let me = TargetRef { side: Side::Player, index: 0 };
    plan_action(&mut battle, me, BattleAction::UseAbility { ability_id: aid, targets: vec![me, me] }).unwrap();
    let events = execute_round(&mut battle);
    // 10 power + 25 magic = 35 per heal: 40 -> 75 -> 100 (capped).
    assert_eq!(battle.player_units[0].unit.current_hp, 100);
    let heals: Vec<u16> = events
        .iter()
        .filter_map(|e| match e {
            BattleEvent::HealingDone(h) => Some(h.amount),
            _ => None,
        })
        .collect();
    assert_eq!(heals, vec![35, 35]);
}

#[test]
fn test_healing_ability_once_heals_power_plus_magic() {
    let player_stats = test_stats(100, 10, 20, 25, 15);
    let enemy_stats = test_stats(200, 10, 5, 5, 5);
    let p1 = make_player("healer", player_stats, 10);
    let enemy = make_enemy("goblin", enemy_stats);
    let (aid, mut heal) = make_basic_ability("cure", 2, 10);
    heal.category = AbilityCategory::Healing;
    heal.damage_type = None;
    let mut battle = new_battle(vec![p1], vec![enemy], test_config(), vec![heal], Vec::new());
    battle.player_units[0].unit.current_hp = 40;
    let me = TargetRef { side: Side::Player, index: 0 };
    plan_action(&mut battle, me, BattleAction::UseAbility { ability_id: aid, targets: vec![me] }).unwrap();
    let _ = execute_round(&mut battle);
    assert_eq!(battle.player_units[0].unit.current_hp, 75);
}

#[test]
fn test_summon_with_two_djinn_deals_their_total_to_each_enemy() {
    let player = make_player("adept", test_stats(100, 10, 10, 10, 10), 2);
    let e1 = make_enemy("goblin-a", test_stats(200, 10, 10, 5, 5));
    let e2 = make_enemy("goblin-b", test_stats(60, 10, 10, 5, 5));
    let (flint, flint_def) = make_djinn_def("flint", Element::Venus, 50);
    let (gust, gust_def) = make_djinn_def("gust", Element::Jupiter, 30);
    let mut battle = new_battle(
        vec![player],
        vec![e1, e2],
        test_config(),
        Vec::new(),
        vec![flint_def, gust_def],
    );
    battle.player_units[0].djinn_slots.add(flint);
    battle.player_units[0].djinn_slots.add(gust);
    let actor = TargetRef { side: Side::Player, index: 0 };
    plan_action(&mut battle, actor, BattleAction::Summon { djinn_indices: vec![0, 1] }).unwrap();
    let _ = execute_round(&mut battle);
    assert_eq!(battle.enemies[0].unit.current_hp, 120);
    assert_eq!(battle.enemies[1].unit.current_hp, 0);
    assert!(!battle.enemies[1].unit.is_alive);
    assert_eq!(battle.team_djinn_slots.slots[0].state, DjinnState::Recovery);
    assert_eq!(battle.team_djinn_slots.slots[1].state, DjinnState::Recovery);
}

// ── Revive above full HP ─────────────────────────────────────────

#[test]
fn test_revive_above_full_hp() {
    let player_stats = test_stats(100, 10, 20, 30, 15);
    let enemy_stats = test_stats(200, 10, 5, 5, 5);
    let p1 = make_player("healer", player_stats, 10);
    let p2 = make_player("dead-ally", player_stats, 0);
    let enemy = make_enemy("goblin", enemy_stats);
    let (_, mut revive) = make_basic_ability("revive", 3, 0);
    revive.category = AbilityCategory::Healing;
    revive.damage_type = None;
    revive.element = None;
    revive.targets = TargetMode::SingleAlly;
    revive.revive = true;
    revive.revive_hp_percent = Some(150);
    let mut battle = new_battle(vec![p1, p2], vec![enemy], test_config(), vec![revive], Vec::new());
    battle.player_units[1].unit.is_alive = false;
    battle.player_units[1].unit.current_hp = 0;
    let actor = TargetRef { side: Side::Player, index: 0 };
    let dead_ally = TargetRef { side: Side::Player, index: 1 };
    plan_action(
        &mut battle,
        actor,
        BattleAction::UseAbility { ability_id: AbilityId("revive".into()), targets: vec![dead_ally] },
    )
    .unwrap();
    let events = execute_round(&mut battle);
    assert!(battle.player_units[1].unit.is_alive);
    assert_eq!(battle.player_units[1].unit.current_hp, 150);
    let revived = events.iter().any(|e| match e {
        BattleEvent::HealingDone(hd) => hd.target == dead_ally && hd.amount == 150,
        _ => false,
    });
    assert!(revived);
}

// ── Auto-attacks on one's own side ───────────────────────────────

#[test]
fn test_attack_on_ally_deals_damage() {
    let player_stats = test_stats(100, 30, 20, 25, 15);
    let enemy_stats = test_stats(80, 20, 15, 10, 10);
    let p1 = make_player("hero", player_stats, 5);
    let p2 = make_player("friend", player_stats, 5);
    let enemy = make_enemy("goblin", enemy_stats);
    let mut battle = new_battle(vec![p1, p2], vec![enemy], test_config(), Vec::new(), Vec::new());
    let actor = TargetRef { side: Side::Player, index: 0 };
    let ally = TargetRef { side: Side::Player, index: 1 };
    plan_action(&mut battle, actor, BattleAction::Attack { target: ally }).unwrap();
    let expected = combat::calculate_damage(0, DamageType::Physical, &player_stats, &player_stats, &test_config());
    assert!(expected > 0 && expected < 100);
    let events = execute_round(&mut battle);
    assert_eq!(battle.player_units[1].unit.current_hp, 100 - expected);
    assert_eq!(battle.player_units[0].unit.current_hp, 100);
    let dealt = events.iter().any(|e| match e {
        BattleEvent::DamageDealt(d) => d.source == actor && d.target == ally && d.amount == expected,
        _ => false,
    });
    assert!(dealt);
}

#[test]
fn test_attack_on_self_deals_damage() {
    let player_stats = test_stats(100, 30, 20, 25, 15);
    let enemy_stats = test_stats(80, 20, 15, 10, 10);
    let p1 = make_player("hero", player_stats, 5);
    let enemy = make_enemy("goblin", enemy_stats);
    let mut battle = new_battle(vec![p1], vec![enemy], test_config(), Vec::new(), Vec::new());
    let actor = TargetRef { side: Side::Player, index: 0 };
    plan_action(&mut battle, actor, BattleAction::Attack { target: actor }).unwrap();
    let expected = combat::calculate_damage(0, DamageType::Physical, &player_stats, &player_stats, &test_config());
    let events = execute_round(&mut battle);
    assert_eq!(battle.player_units[0].unit.current_hp, 100 - expected);
    assert_eq!(battle.player_units[0].unit.crit_counter, 1);
    let dealt = events.iter().any(|e| match e {
        BattleEvent::DamageDealt(d) => d.source == actor && d.target == actor && d.amount == expected,
        _ => false,
    });
    assert!(dealt);
}

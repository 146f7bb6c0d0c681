use vale_village::data::default_combat_config;
use vale_village::domains::combat::{
    calculate_damage, calculate_healing, resolve_multi_hit, resolve_targets, BattleState,
    BattleUnit, ManaPool,
};
use vale_village::shared::bounded_types::{BaseStat, Hp};
use vale_village::shared::{BattlePhase, CombatConfig, DamageType, Side, Stats, TargetMode, TargetRef};

fn test_config() -> CombatConfig {
    default_combat_config()
}

fn test_stats(hp: u16, atk: u16, def: u16, mag: u16, spd: u16) -> Stats {
    Stats {
        hp: Hp::new(hp),
        atk: BaseStat::new(atk),
        def: BaseStat::new(def),
        mag: BaseStat::new(mag),
        spd: BaseStat::new(spd),
    }
}

fn unit(id: &str, spd: u16, alive: bool, bonus: i16) -> BattleUnit {
    BattleUnit {
        id: id.into(),
        stats: test_stats(100, 10, 10, 10, spd),
        current_hp: if alive { 100 } else { 0 },
        is_alive: alive,
        crit_counter: 0,
        equipment_speed_bonus: bonus,
    }
}

fn state(players: Vec<BattleUnit>, enemies: Vec<BattleUnit>) -> BattleState {
    BattleState {
        phase: BattlePhase::Planning,
        round: 1,
        player_units: players,
        enemies,
        planned_actions: vec![],
        mana_pool: ManaPool::new(5),
        execution_order: vec![],
    }
}

#[test]
fn physical_damage_normal() {
    let cfg = test_config();
    let attacker = test_stats(100, 30, 10, 5, 10);
    let defender = test_stats(100, 10, 20, 5, 10);
    let dmg = calculate_damage(50, DamageType::Physical, &attacker, &defender, &cfg);
    assert_eq!(dmg, 70);
}

#[test]
fn physical_damage_high_defense() {
    let cfg = test_config();
    let attacker = test_stats(100, 20, 10, 5, 10);
    let defender = test_stats(100, 10, 80, 5, 10);
    let dmg = calculate_damage(10, DamageType::Physical, &attacker, &defender, &cfg);
    assert_eq!(dmg, 1);
}

#[test]
fn physical_damage_floor_at_one() {
    let cfg = test_config();
    let attacker = test_stats(100, 1, 10, 5, 10);
    let defender = test_stats(100, 10, 200, 5, 10);
    let dmg = calculate_damage(0, DamageType::Physical, &attacker, &defender, &cfg);
    assert_eq!(dmg, 1);
}

#[test]
fn psynergy_damage_normal() {
    let cfg = test_config();
    let attacker = test_stats(100, 10, 10, 40, 10);
    let defender = test_stats(100, 10, 30, 5, 10);
    let dmg = calculate_damage(60, DamageType::Psynergy, &attacker, &defender, &cfg);
    assert_eq!(dmg, 91);
}

#[test]
fn psynergy_damage_floor_at_one() {
    let cfg = test_config();
    let attacker = test_stats(100, 10, 10, 1, 10);
    let defender = test_stats(100, 10, 200, 5, 10);
    let dmg = calculate_damage(0, DamageType::Psynergy, &attacker, &defender, &cfg);
    assert_eq!(dmg, 1);
}

#[test]
fn psynergy_damage_rounds_down() {
    // 10 + 20 - 7 * 0.3 = 27.9 -> 27
    let cfg = test_config();
    let attacker = test_stats(100, 10, 10, 20, 10);
    let defender = test_stats(100, 10, 7, 5, 10);
    assert_eq!(calculate_damage(10, DamageType::Psynergy, &attacker, &defender, &cfg), 27);
}

#[test]
fn damage_caps_at_u16_max() {
    let cfg = test_config();
    let attacker = test_stats(100, 9999, 10, 5, 10);
    let defender = test_stats(100, 10, 0, 5, 10);
    assert_eq!(calculate_damage(65535, DamageType::Physical, &attacker, &defender, &cfg), 65535);
}

#[test]
fn test_healing_uses_mag() {
    let healer = test_stats(100, 10, 10, 8, 10);
    let healing = calculate_healing(10, &healer);
    assert_eq!(healing, 18);
}

#[test]
fn healing_floor_at_one() {
    let healer = test_stats(100, 10, 10, 0, 10);
    assert_eq!(calculate_healing(0, &healer), 1);
}

#[test]
fn targeting_single_enemy() {
    let source = TargetRef { side: Side::Player, index: 0 };
    let chosen = TargetRef { side: Side::Enemy, index: 2 };
    let targets = resolve_targets(TargetMode::SingleEnemy, source, Some(chosen), 4, 3);
    assert_eq!(targets, vec![chosen]);
}

#[test]
fn targeting_single_ally() {
    let source = TargetRef { side: Side::Player, index: 0 };
    let chosen = TargetRef { side: Side::Player, index: 1 };
    let targets = resolve_targets(TargetMode::SingleAlly, source, Some(chosen), 4, 3);
    assert_eq!(targets, vec![chosen]);
}

#[test]
fn targeting_single_without_choice_is_empty() {
    let source = TargetRef { side: Side::Player, index: 0 };
    assert!(resolve_targets(TargetMode::SingleEnemy, source, None, 4, 3).is_empty());
}

#[test]
fn targeting_all_enemies() {
    let source = TargetRef { side: Side::Player, index: 0 };
    let targets = resolve_targets(TargetMode::AllEnemies, source, None, 4, 3);
    assert_eq!(targets.len(), 3);
    assert_eq!(targets[0], TargetRef { side: Side::Enemy, index: 0 });
    assert_eq!(targets[1], TargetRef { side: Side::Enemy, index: 1 });
    assert_eq!(targets[2], TargetRef { side: Side::Enemy, index: 2 });
}

#[test]
fn targeting_all_enemies_from_enemy_side() {
    let source = TargetRef { side: Side::Enemy, index: 1 };
    let targets = resolve_targets(TargetMode::AllEnemies, source, None, 2, 3);
    assert_eq!(
        targets,
        vec![TargetRef { side: Side::Player, index: 0 }, TargetRef { side: Side::Player, index: 1 }]
    );
}

#[test]
fn targeting_all_allies() {
    let source = TargetRef { side: Side::Player, index: 0 };
    let targets = resolve_targets(TargetMode::AllAllies, source, None, 4, 3);
    assert_eq!(targets.len(), 4);
    for i in 0..4 {
        assert_eq!(targets[i], TargetRef { side: Side::Player, index: i as u8 });
    }
}

#[test]
fn targeting_self_only() {
    let source = TargetRef { side: Side::Player, index: 2 };
    let targets = resolve_targets(TargetMode::SelfOnly, source, None, 4, 3);
    assert_eq!(targets, vec![source]);
}

#[test]
fn multi_hit_three_hits_normal() {
    let cfg = test_config();
    let results = resolve_multi_hit(3, 20, 200, 0, true, &cfg);
    assert_eq!(results.len(), 3);
    for r in &results {
        assert_eq!(r.damage, 20);
        assert!(!r.is_crit);
        assert!(!r.target_killed);
        assert_eq!(r.mana_generated, 1);
    }
    assert_eq!(results[0].crit_counter_after, 1);
    assert_eq!(results[1].crit_counter_after, 2);
    assert_eq!(results[2].crit_counter_after, 3);
}

#[test]
fn multi_hit_target_dies_early() {
    let cfg = test_config();
    let results = resolve_multi_hit(3, 30, 50, 0, true, &cfg);
    assert_eq!(results.len(), 2);
    assert_eq!(results[0].damage, 30);
    assert!(!results[0].target_killed);
    assert_eq!(results[1].damage, 20);
    assert!(results[1].target_killed);
}

#[test]
fn multi_hit_crit_on_tenth_hit() {
    let cfg = test_config();
    let results = resolve_multi_hit(2, 50, 500, 9, true, &cfg);
    assert_eq!(results.len(), 2);
    assert!(results[0].is_crit);
    assert_eq!(results[0].damage, 100);
    assert_eq!(results[0].crit_counter_after, 0);
    assert!(!results[1].is_crit);
    assert_eq!(results[1].damage, 50);
    assert_eq!(results[1].crit_counter_after, 1);
}

#[test]
fn multi_hit_against_dead_target_is_empty() {
    let cfg = test_config();
    assert!(resolve_multi_hit(3, 20, 0, 0, true, &cfg).is_empty());
}

#[test]
fn auto_attack_generates_mana() {
    let cfg = test_config();
    let results = resolve_multi_hit(3, 10, 200, 0, true, &cfg);
    for r in &results {
        assert_eq!(r.mana_generated, 1);
    }
}

#[test]
fn ability_no_mana_no_crit() {
    let cfg = test_config();
    let results = resolve_multi_hit(3, 25, 200, 5, false, &cfg);
    assert_eq!(results.len(), 3);
    for r in &results {
        assert_eq!(r.mana_generated, 0);
        assert!(!r.is_crit);
        assert_eq!(r.crit_counter_after, 5);
    }
}

#[test]
fn mana_pool_reset() {
    let mut pool = ManaPool::new(10);
    pool.spend_mana(7);
    assert_eq!(pool.current_mana, 3);
    pool.reset_mana();
    assert_eq!(pool.current_mana, 10);
}

#[test]
fn mana_pool_spend_success() {
    let mut pool = ManaPool::new(10);
    assert!(pool.spend_mana(5));
    assert_eq!(pool.current_mana, 5);
}

#[test]
fn mana_pool_spend_failure() {
    let mut pool = ManaPool::new(3);
    assert!(!pool.spend_mana(5));
    assert_eq!(pool.current_mana, 3);
}

#[test]
fn mana_pool_generate() {
    let mut pool = ManaPool::new(10);
    pool.spend_mana(5);
    assert_eq!(pool.current_mana, 5);
    pool.generate_mana(3);
    assert_eq!(pool.current_mana, 8);
}

#[test]
fn mana_pool_generate_caps_at_max() {
    let mut pool = ManaPool::new(10);
    pool.generate_mana(5);
    assert_eq!(pool.current_mana, 10);
}

#[test]
fn speed_ordering_basic() {
    let mut st = state(
        vec![unit("slow", 5, true, 0), unit("fast", 20, true, 0)],
        vec![unit("medium", 12, true, 0)],
    );
    st.compute_execution_order();
    assert_eq!(st.execution_order.len(), 3);
    assert_eq!(st.execution_order[0], TargetRef { side: Side::Player, index: 1 });
    assert_eq!(st.execution_order[1], TargetRef { side: Side::Enemy, index: 0 });
    assert_eq!(st.execution_order[2], TargetRef { side: Side::Player, index: 0 });
}

#[test]
fn speed_ordering_tiebreaker() {
    let mut st = state(vec![unit("unit_a", 10, true, 5), unit("unit_b", 15, true, 0)], vec![]);
    st.compute_execution_order();
    assert_eq!(st.execution_order.len(), 2);
    assert_eq!(st.execution_order[0], TargetRef { side: Side::Player, index: 1 });
    assert_eq!(st.execution_order[1], TargetRef { side: Side::Player, index: 0 });
}

#[test]
fn speed_ordering_full_tie_keeps_players_first() {
    let mut st = state(vec![unit("a", 10, true, 0)], vec![unit("b", 10, true, 0)]);
    st.compute_execution_order();
    assert_eq!(
        st.execution_order,
        vec![TargetRef { side: Side::Player, index: 0 }, TargetRef { side: Side::Enemy, index: 0 }]
    );
}

#[test]
fn dead_units_excluded_from_order() {
    let mut st = state(vec![unit("alive", 10, true, 0), unit("dead", 50, false, 0)], vec![]);
    st.compute_execution_order();
    assert_eq!(st.execution_order.len(), 1);
    assert_eq!(st.execution_order[0], TargetRef { side: Side::Player, index: 0 });
}

use vale_village::domains::damage_mods::{
    apply_all_modifiers, apply_defense_penetration, apply_splash_damage, calculate_chain_targets,
    calculate_splash_targets,
};
use vale_village::shared::bounded_types::{BaseStat, Hp};
use vale_village::shared::{DamageType, Side, Stats, TargetRef};

fn test_stats(hp: u16, atk: u16, def: u16, mag: u16, spd: u16) -> Stats {
    Stats {
        hp: Hp::new_unchecked(hp),
        atk: BaseStat::new_unchecked(atk),
        def: BaseStat::new_unchecked(def),
        mag: BaseStat::new_unchecked(mag),
        spd: BaseStat::new_unchecked(spd),
    }
}

// ── Defense penetration (S14) ────────────────────────────────────

#[test]
fn defense_pen_zero_percent() {
    assert_eq!(apply_defense_penetration(100, 0), 100);
}

#[test]
fn defense_pen_twenty_percent() {
    // 100 * 0.80 = 80
    assert_eq!(apply_defense_penetration(100, 20), 80);
}

#[test]
fn defense_pen_fifty_percent() {
    assert_eq!(apply_defense_penetration(100, 50), 50);
}

#[test]
fn defense_pen_hundred_percent() {
    assert_eq!(apply_defense_penetration(100, 100), 0);
}

// ── Splash targets (S15) ────────────────────────────────────────

#[test]
fn splash_excludes_primary_includes_others() {
    let primary = TargetRef { side: Side::Enemy, index: 1 };
    let all = vec![
        TargetRef { side: Side::Enemy, index: 0 },
        TargetRef { side: Side::Enemy, index: 1 },
        TargetRef { side: Side::Enemy, index: 2 },
    ];
    let result = calculate_splash_targets(primary, 50, &all);
    assert_eq!(result.len(), 2);
    assert!(result.iter().all(|(t, _)| t.index != 1));
    assert!(result.iter().all(|(_, pct)| *pct == 50));
}

#[test]
fn splash_single_enemy_no_targets() {
    let primary = TargetRef { side: Side::Enemy, index: 0 };
    let all = vec![TargetRef { side: Side::Enemy, index: 0 }];
    let result = calculate_splash_targets(primary, 50, &all);
    assert!(result.is_empty());
}

#[test]
fn splash_ignores_allies() {
    let primary = TargetRef { side: Side::Enemy, index: 0 };
    let all = vec![
        TargetRef { side: Side::Enemy, index: 0 },
        TargetRef { side: Side::Player, index: 0 },
        TargetRef { side: Side::Player, index: 1 },
    ];
    let result = calculate_splash_targets(primary, 30, &all);
    assert!(result.is_empty());
}

// ── Splash damage math (S15) ────────────────────────────────────

#[test]
fn splash_damage_math() {
    // 100 * 0.5 = 50
    assert_eq!(apply_splash_damage(100, 50), 50);
}

#[test]
fn splash_damage_floor_at_one() {
    // 1 * 0.01 would truncate to 0, but floor is 1
    assert_eq!(apply_splash_damage(1, 1), 1);
}

#[test]
fn splash_damage_zero_percent_returns_zero() {
    assert_eq!(apply_splash_damage(100, 0), 0);
}

// ── Chain targets (S16) ─────────────────────────────────────────

#[test]
fn chain_targets_returns_all_enemies() {
    let source = TargetRef { side: Side::Player, index: 0 };
    let all = vec![
        TargetRef { side: Side::Player, index: 0 },
        TargetRef { side: Side::Enemy, index: 2 },
        TargetRef { side: Side::Enemy, index: 0 },
        TargetRef { side: Side::Enemy, index: 1 },
    ];
    let result = calculate_chain_targets(source, &all);
    assert_eq!(result.len(), 3);
    // Ordered by index (left to right)
    assert_eq!(result[0].index, 0);
    assert_eq!(result[1].index, 1);
    assert_eq!(result[2].index, 2);
}

// ── Combined modifiers ──────────────────────────────────────────

#[test]
fn combined_physical_with_pen() {
    let stats = test_stats(100, 30, 10, 5, 10);
    // base 50 + atk 30 - (def 100 * (1 - 0.5) * 0.5) = 80 - 25 = 55
    let dmg = apply_all_modifiers(50, 100, Some(50), DamageType::Physical, &stats, 50);
    assert_eq!(dmg, 55);
}

#[test]
fn combined_psynergy_no_pen() {
    let stats = test_stats(100, 10, 10, 40, 10);
    // base 60 + mag 40 - (def 50 * 1.0) = 100 - 50 = 50
    let dmg = apply_all_modifiers(60, 50, None, DamageType::Psynergy, &stats, 100);
    assert_eq!(dmg, 50);
}

#[test]
fn combined_floor_at_one() {
    let stats = test_stats(100, 1, 10, 1, 10);
    // base 1 + atk 1 - (def 200 * 1.0) = 2 - 200 = -198 -> floor 1
    let dmg = apply_all_modifiers(1, 200, None, DamageType::Physical, &stats, 100);
    assert_eq!(dmg, 1);
}

#[test]
fn chain_targets_from_enemy_hit_players_in_index_order() {
    let source = TargetRef { side: Side::Enemy, index: 1 };
    let all = vec![
        TargetRef { side: Side::Player, index: 3 },
        TargetRef { side: Side::Enemy, index: 0 },
        TargetRef { side: Side::Player, index: 1 },
    ];
    let result = calculate_chain_targets(source, &all);
    assert_eq!(
        result,
        vec![TargetRef { side: Side::Player, index: 1 }, TargetRef { side: Side::Player, index: 3 }]
    );
}

#[test]
fn penetration_rounds_down() {
    assert_eq!(apply_defense_penetration(33, 50), 16);
}

#[test]
fn combined_keeps_fractional_defense_until_the_end() {
    let stats = test_stats(100, 30, 10, 5, 10);
    // 50 + 30 - 25 * 0.5 = 67.5, rounded down.
    assert_eq!(apply_all_modifiers(50, 25, None, DamageType::Physical, &stats, 50), 67);
}

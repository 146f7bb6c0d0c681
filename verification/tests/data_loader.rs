use vale_village::data::default_combat_config;
use vale_village::domains::data_loader::{keep_last_defs, load_game_data, validate, GameData, LoadError};
use vale_village::shared::bounded_types::{
    BasePower, BaseStat, DjinnTier, Gold, GrowthRate, HitCount, Hp, Level, ManaCost, Xp,
};
use vale_village::shared::{
    AbilityCategory, AbilityDef, AbilityId, AbilityProgression, CombatConfig, Difficulty, DjinnAbilityPairs,
    DjinnAbilitySet, DjinnDef, DjinnId, Element, EncounterDef, EncounterEnemy, EncounterId, EnemyDef, EnemyId,
    EquipmentDef, EquipmentId, EquipmentSlot, EquipmentTier, GrowthRates, StatBonus, Stats, TargetMode, UnitDef,
    UnitId,
};

fn stats() -> Stats {
    Stats {
        hp: Hp::new(100),
        atk: BaseStat::new(20),
        def: BaseStat::new(15),
        mag: BaseStat::new(10),
        spd: BaseStat::new(12),
    }
}

fn ability(id: &str) -> AbilityDef {
    AbilityDef {
        id: AbilityId(id.to_string()),
        name: id.to_string(),
        category: AbilityCategory::Psynergy,
        damage_type: None,
        element: Some(Element::Venus),
        mana_cost: ManaCost::new(1),
        base_power: BasePower::new(20),
        targets: TargetMode::SingleEnemy,
        unlock_level: Level::new(1),
        hit_count: HitCount::new(1),
        status_effect: None,
        buff_effect: None,
        debuff_effect: None,
        shield_charges: None,
        shield_duration: None,
        heal_over_time: None,
        grant_immunity: None,
        cleanse: None,
        ignore_defense_percent: None,
        splash_damage_percent: None,
        chain_damage: false,
        revive: false,
        revive_hp_percent: None,
    }
}

fn unit(id: &str, abilities: &[&str]) -> UnitDef {
    UnitDef {
        id: UnitId(id.to_string()),
        name: id.to_string(),
        element: Element::Venus,
        mana_contribution: ManaCost::new(1),
        base_stats: stats(),
        growth_rates: GrowthRates {
            hp: GrowthRate::new(5),
            atk: GrowthRate::new(2),
            def: GrowthRate::new(2),
            mag: GrowthRate::new(1),
            spd: GrowthRate::new(1),
        },
        abilities: abilities
            .iter()
            .map(|a| AbilityProgression { level: Level::new(1), ability_id: AbilityId(a.to_string()) })
            .collect(),
    }
}

fn enemy(id: &str, abilities: &[&str]) -> EnemyDef {
    EnemyDef {
        id: EnemyId(id.to_string()),
        name: id.to_string(),
        element: Element::Mars,
        level: Level::new(1),
        stats: stats(),
        xp: Xp::new(10),
        gold: Gold::new(5),
        abilities: abilities.iter().map(|a| AbilityId(a.to_string())).collect(),
    }
}

fn equipment(id: &str, unlocks: Option<&str>) -> EquipmentDef {
    EquipmentDef {
        id: EquipmentId(id.to_string()),
        name: id.to_string(),
        slot: EquipmentSlot::Weapon,
        tier: EquipmentTier::Basic,
        cost: Gold::new(50),
        allowed_elements: vec![Element::Venus],
        stat_bonus: StatBonus::default(),
        unlocks_ability: unlocks.map(|a| AbilityId(a.to_string())),
        set_id: None,
        always_first_turn: false,
        mana_bonus: None,
        hit_count_bonus: None,
    }
}

fn ability_set(good: &[&str], recovery: &[&str]) -> DjinnAbilitySet {
    DjinnAbilitySet {
        good_abilities: good.iter().map(|a| AbilityId(a.to_string())).collect(),
        recovery_abilities: recovery.iter().map(|a| AbilityId(a.to_string())).collect(),
    }
}

fn djinn(id: &str) -> DjinnDef {
    DjinnDef {
        id: DjinnId(id.to_string()),
        name: id.to_string(),
        element: Element::Venus,
        tier: DjinnTier::new(1),
        stat_bonus: StatBonus::default(),
        summon_effect: None,
        ability_pairs: DjinnAbilityPairs {
            same: ability_set(&["quake"], &["cure"]),
            counter: ability_set(&["flare"], &[]),
            neutral: ability_set(&[], &["cure"]),
        },
    }
}

fn encounter(id: &str, enemies: &[&str], djinn_reward: Option<&str>, rewards: &[&str], recruit: Option<&str>) -> EncounterDef {
    EncounterDef {
        id: EncounterId(id.to_string()),
        name: id.to_string(),
        difficulty: Difficulty::Easy,
        enemies: enemies
            .iter()
            .map(|e| EncounterEnemy { enemy_id: EnemyId(e.to_string()), count: 1 })
            .collect(),
        xp_reward: Xp::new(20),
        gold_reward: Gold::new(10),
        recruit: recruit.map(|u| UnitId(u.to_string())),
        djinn_reward: djinn_reward.map(|d| DjinnId(d.to_string())),
        equipment_rewards: rewards.iter().map(|e| EquipmentId(e.to_string())).collect(),
    }
}

fn sample_abilities() -> Vec<AbilityDef> {
    vec![ability("quake"), ability("flare"), ability("cure")]
}

fn sample_units() -> Vec<UnitDef> {
    vec![unit("isaac", &["quake", "cure"]), unit("garet", &["flare"]), unit("ivan", &[])]
}

fn sample_enemies() -> Vec<EnemyDef> {
    vec![enemy("slime", &["flare"]), enemy("bat", &[])]
}

fn sample_equipment() -> Vec<EquipmentDef> {
    vec![equipment("long-sword", Some("quake")), equipment("leather-cap", None)]
}

fn sample_djinn() -> Vec<DjinnDef> {
    vec![djinn("flint")]
}

fn sample_encounters() -> Vec<EncounterDef> {
    vec![
        encounter("house-01", &["slime", "bat"], Some("flint"), &["long-sword"], Some("ivan")),
        encounter("house-02", &["bat"], None, &[], None),
    ]
}

fn sample_config() -> CombatConfig {
    default_combat_config()
}

fn load_sample() -> Result<GameData, Vec<LoadError>> {
    load_game_data(
        Ok(sample_abilities()),
        Ok(sample_units()),
        Ok(sample_enemies()),
        Ok(sample_equipment()),
        Ok(sample_djinn()),
        Ok(sample_encounters()),
        Ok(sample_config()),
    )
}

fn validation_messages(errors: &[LoadError]) -> Vec<String> {
    errors
        .iter()
        .filter_map(|e| match e {
            LoadError::ValidationError(msg) => Some(msg.clone()),
            _ => None,
        })
        .collect()
}

#[test]
fn test_sample_data_loads_successfully() {
    let result = load_sample();
    match &result {
        Ok(data) => {
            assert!(!data.abilities.is_empty(), "abilities should not be empty");
            assert!(!data.units.is_empty(), "units should not be empty");
            assert!(!data.enemies.is_empty(), "enemies should not be empty");
            assert!(!data.equipment.is_empty(), "equipment should not be empty");
            assert!(!data.djinn.is_empty(), "djinn should not be empty");
            assert!(!data.encounters.is_empty(), "encounters should not be empty");
        }
        Err(errors) => {
            for e in errors {
                println!("  {}", e.describe());
            }
            panic!("Expected sample data to load without errors");
        }
    }
}

#[test]
fn test_config_loads_correctly() {
    let data = load_sample().expect("sample data should load");
    assert_eq!(data.config.max_party_size.get(), 4);
    assert_eq!(data.config.crit_threshold, 10);
    assert_eq!(data.config.crit_multiplier_pct, 200);
}

#[test]
fn test_validation_catches_missing_ability_in_unit() {
    let mut data = load_sample().expect("sample data should load");
    data.abilities.clear();
    let mut errors = Vec::new();
    validate(&data, &mut errors);
    assert!(!errors.is_empty(), "Should find validation errors when abilities are missing");
    let has_unit_err = errors.iter().any(|e| match e {
        LoadError::ValidationError(msg) => msg.contains("Unit"),
        _ => false,
    });
    assert!(has_unit_err, "Should have a unit-related validation error");
}

#[test]
fn test_validation_catches_missing_enemy_in_encounter() {
    let mut data = load_sample().expect("sample data should load");
    data.enemies.clear();
    let mut errors = Vec::new();
    validate(&data, &mut errors);
    let has_encounter_err = errors.iter().any(|e| match e {
        LoadError::ValidationError(msg) => msg.contains("Encounter"),
        _ => false,
    });
    assert!(has_encounter_err, "Should have an encounter-related validation error");
}

#[test]
fn test_validation_catches_missing_djinn_reward() {
    let mut data = load_sample().expect("sample data should load");
    data.djinn.clear();
    let mut errors = Vec::new();
    validate(&data, &mut errors);
    let has_djinn_err = errors.iter().any(|e| match e {
        LoadError::ValidationError(msg) => msg.contains("djinn reward"),
        _ => false,
    });
    assert!(has_djinn_err, "Should have a djinn-reward validation error");
}

#[test]
fn test_validation_catches_missing_ability_in_equipment() {
    let mut data = load_sample().expect("sample data should load");
    data.abilities.clear();
    let mut errors = Vec::new();
    validate(&data, &mut errors);
    let has_equip_err = errors.iter().any(|e| match e {
        LoadError::ValidationError(msg) => msg.contains("Equipment"),
        _ => false,
    });
    assert!(has_equip_err, "Should have an equipment-related validation error");
}

#[test]
fn test_file_not_found_error() {
    let result = load_game_data(
        Err(LoadError::FileNotFound("data/abilities.ron".to_string())),
        Err(LoadError::FileNotFound("data/units.ron".to_string())),
        Err(LoadError::FileNotFound("data/enemies.ron".to_string())),
        Err(LoadError::FileNotFound("data/equipment.ron".to_string())),
        Err(LoadError::FileNotFound("data/djinn.ron".to_string())),
        Err(LoadError::FileNotFound("data/encounters.ron".to_string())),
        Err(LoadError::FileNotFound("data/config.ron".to_string())),
    );
    assert!(result.is_err(), "Should fail when files are missing");
    let errors = result.unwrap_err();
    let has_fnf = errors.iter().any(|e| matches!(e, LoadError::FileNotFound(_)));
    assert!(has_fnf, "Should contain a FileNotFound error");
}

#[test]
fn test_validation_catches_missing_ability_in_djinn() {
    let mut data = load_sample().expect("sample data should load");
    data.abilities.clear();
    let mut errors = Vec::new();
    validate(&data, &mut errors);
    let has_djinn_err = errors.iter().any(|e| match e {
        LoadError::ValidationError(msg) => msg.contains("Djinn"),
        _ => false,
    });
    assert!(has_djinn_err, "Should have a djinn-related validation error for ability_pairs");
}

#[test]
fn test_validation_catches_missing_equipment_reward() {
    let mut data = load_sample().expect("sample data should load");
    data.equipment.clear();
    let mut errors = Vec::new();
    validate(&data, &mut errors);
    let has_equip_err = errors.iter().any(|e| match e {
        LoadError::ValidationError(msg) => msg.contains("equipment_rewards"),
        _ => false,
    });
    assert!(has_equip_err, "Should have an equipment_rewards validation error");
}

#[test]
fn test_validation_catches_missing_recruit_unit() {
    let mut data = load_sample().expect("sample data should load");
    data.encounters.push(EncounterDef {
        id: EncounterId("test-enc".to_string()),
        name: "Test".to_string(),
        difficulty: Difficulty::Easy,
        enemies: Vec::new(),
        xp_reward: Xp::new_unchecked(0),
        gold_reward: Gold::new_unchecked(0),
        recruit: Some(UnitId("nonexistent-unit".to_string())),
        djinn_reward: None,
        equipment_rewards: Vec::new(),
    });
    let mut errors = Vec::new();
    validate(&data, &mut errors);
    let has_recruit_err = errors.iter().any(|e| match e {
        LoadError::ValidationError(msg) => msg.contains("recruit"),
        _ => false,
    });
    assert!(has_recruit_err, "Should have a recruit validation error");
}

#[test]
fn test_parse_error_on_malformed_ron() {
    let result = load_game_data(
        Err(LoadError::ParseError(
            "data/abilities.ron".to_string(),
            "1:1: Expected opening `[`".to_string(),
        )),
        Ok(Vec::new()),
        Ok(Vec::new()),
        Ok(Vec::new()),
        Ok(Vec::new()),
        Ok(Vec::new()),
        Ok(sample_config()),
    );
    assert!(result.is_err(), "Should fail on malformed RON");
    let errors = result.unwrap_err();
    let has_parse = errors.iter().any(|e| matches!(e, LoadError::ParseError(_, _)));
    assert!(has_parse, "Should contain a ParseError");
}

#[test]
fn test_collects_all_errors_not_just_first() {
    let result = load_game_data(
        Err(LoadError::FileNotFound("data/abilities.ron".to_string())),
        Err(LoadError::FileNotFound("data/units.ron".to_string())),
        Err(LoadError::FileNotFound("data/enemies.ron".to_string())),
        Err(LoadError::FileNotFound("data/equipment.ron".to_string())),
        Err(LoadError::FileNotFound("data/djinn.ron".to_string())),
        Err(LoadError::FileNotFound("data/encounters.ron".to_string())),
        Err(LoadError::FileNotFound("data/config.ron".to_string())),
    );
    assert!(result.is_err());
    let errors = result.unwrap_err();
    let fnf_count = errors.iter().filter(|e| matches!(e, LoadError::FileNotFound(_))).count();
    assert!(fnf_count >= 7, "Should collect errors for all missing files, got {}", fnf_count);
}

// ── Further cases ───────────────────────────────────────────────────

#[test]
fn validation_messages_are_exact_and_ordered() {
    let mut data = load_sample().expect("sample data should load");
    data.abilities.retain(|a| a.id.0 != "cure");
    let mut errors = Vec::new();
    validate(&data, &mut errors);
    assert_eq!(
        validation_messages(&errors),
        vec![
            "Unit 'isaac' references ability 'cure' which does not exist".to_string(),
            "Djinn 'flint' same.recovery_abilities references ability 'cure' which does not exist".to_string(),
            "Djinn 'flint' neutral.recovery_abilities references ability 'cure' which does not exist".to_string(),
        ]
    );
}

#[test]
fn validation_of_consistent_data_adds_nothing() {
    let data = load_sample().expect("sample data should load");
    let mut errors = vec![LoadError::FileNotFound("x".to_string())];
    validate(&data, &mut errors);
    assert_eq!(errors.len(), 1);
}

#[test]
fn file_errors_come_first_then_validation_errors() {
    let result = load_game_data(
        Err(LoadError::FileNotFound("data/abilities.ron".to_string())),
        Ok(sample_units()),
        Ok(Vec::new()),
        Ok(Vec::new()),
        Ok(Vec::new()),
        Ok(Vec::new()),
        Ok(sample_config()),
    );
    let errors = result.unwrap_err();
    let texts: Vec<String> = errors.iter().map(|e| e.describe()).collect();
    assert_eq!(
        texts,
        vec![
            "File not found: data/abilities.ron".to_string(),
            "Validation error: Unit 'isaac' references ability 'quake' which does not exist".to_string(),
            "Validation error: Unit 'isaac' references ability 'cure' which does not exist".to_string(),
            "Validation error: Unit 'garet' references ability 'flare' which does not exist".to_string(),
        ]
    );
}

#[test]
fn missing_config_falls_back_to_default_but_reports() {
    let result = load_game_data(
        Ok(sample_abilities()),
        Ok(sample_units()),
        Ok(sample_enemies()),
        Ok(sample_equipment()),
        Ok(sample_djinn()),
        Ok(sample_encounters()),
        Err(LoadError::FileNotFound("data/config.ron".to_string())),
    );
    let errors = result.unwrap_err();
    assert_eq!(errors.len(), 1);
    assert_eq!(errors[0].describe(), "File not found: data/config.ron");
}

#[test]
fn later_definition_with_same_key_wins() {
    let mut first = ability("quake");
    first.name = "Old Quake".to_string();
    let mut second = ability("quake");
    second.name = "New Quake".to_string();
    let kept = keep_last_defs(vec![first, ability("cure"), second]);
    let names: Vec<&str> = kept.iter().map(|a| a.name.as_str()).collect();
    assert_eq!(names, vec!["cure", "New Quake"]);
}

#[test]
fn duplicate_keys_are_collapsed_on_load() {
    let mut abilities = sample_abilities();
    abilities.push(ability("quake"));
    let data = load_game_data(
        Ok(abilities),
        Ok(sample_units()),
        Ok(sample_enemies()),
        Ok(sample_equipment()),
        Ok(sample_djinn()),
        Ok(sample_encounters()),
        Ok(sample_config()),
    )
    .expect("duplicates are not an error");
    assert_eq!(data.abilities.len(), 3);
}

#[test]
fn parse_error_is_described_with_path_and_message() {
    let e = LoadError::ParseError("a.ron".to_string(), "bad".to_string());
    assert_eq!(e.describe(), "Parse error in a.ron: bad");
}

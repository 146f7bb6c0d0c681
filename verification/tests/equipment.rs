use vale_village::domains::equipment::{
    can_equip, compute_equipment_effects, equip, get_equipped_in_slot, unequip, EquipError,
    EquipmentLoadout,
};
use vale_village::shared::bounded_types::{Gold, StatMod};
use vale_village::shared::{
    AbilityId, Element, EquipmentDef, EquipmentId, EquipmentSlot, EquipmentTier, SetId, StatBonus,
};

/// Helper: build a minimal EquipmentDef for testing.
fn make_def(id: &str, slot: EquipmentSlot, elements: Vec<Element>) -> EquipmentDef {
    EquipmentDef {
        id: EquipmentId(id.to_string()),
        name: id.to_string(),
        slot,
        tier: EquipmentTier::Basic,
        cost: Gold::new_unchecked(100),
        allowed_elements: elements,
        stat_bonus: StatBonus::default(),
        unlocks_ability: None,
        set_id: None,
        always_first_turn: false,
        mana_bonus: None,
        hit_count_bonus: None,
    }
}

#[test]
fn test_equip_success() {
    let mut loadout = EquipmentLoadout::default();
    let def = make_def("sword1", EquipmentSlot::Weapon, vec![Element::Venus]);
    let result = equip(
        &mut loadout,
        EquipmentSlot::Weapon,
        EquipmentId("sword1".into()),
        &def,
        Element::Venus,
    );
    assert!(result.is_ok());
    assert_eq!(loadout.weapon, Some(EquipmentId("sword1".into())));
}

#[test]
fn test_equip_wrong_slot() {
    let mut loadout = EquipmentLoadout::default();
    let def = make_def("helm1", EquipmentSlot::Helm, vec![Element::Venus]);
    let result = equip(
        &mut loadout,
        EquipmentSlot::Weapon,
        EquipmentId("helm1".into()),
        &def,
        Element::Venus,
    );
    assert_eq!(result, Err(EquipError::WrongSlot));
}

#[test]
fn test_equip_wrong_element() {
    let mut loadout = EquipmentLoadout::default();
    let def = make_def("sword2", EquipmentSlot::Weapon, vec![Element::Mars]);
    let result = equip(
        &mut loadout,
        EquipmentSlot::Weapon,
        EquipmentId("sword2".into()),
        &def,
        Element::Venus,
    );
    assert_eq!(result, Err(EquipError::WrongElement));
}

#[test]
fn test_unequip_returns_item() {
    let mut loadout = EquipmentLoadout::default();
    loadout.weapon = Some(EquipmentId("sword1".into()));
    let removed = unequip(&mut loadout, EquipmentSlot::Weapon);
    assert_eq!(removed, Some(EquipmentId("sword1".into())));
    assert!(loadout.weapon.is_none());
}

#[test]
fn test_unequip_empty_slot() {
    let mut loadout = EquipmentLoadout::default();
    let removed = unequip(&mut loadout, EquipmentSlot::Helm);
    assert!(removed.is_none());
}

#[test]
fn test_stat_bonus_computation_two_items() {
    let mut loadout = EquipmentLoadout::default();
    let mut def_w = make_def("sword1", EquipmentSlot::Weapon, vec![Element::Venus]);
    def_w.stat_bonus = StatBonus {
        atk: StatMod::new_unchecked(10),
        def: StatMod::new_unchecked(0),
        mag: StatMod::new_unchecked(0),
        spd: StatMod::new_unchecked(5),
        hp: StatMod::new_unchecked(0),
    };
    let mut def_h = make_def("helm1", EquipmentSlot::Helm, vec![Element::Venus]);
    def_h.stat_bonus = StatBonus {
        atk: StatMod::new_unchecked(0),
        def: StatMod::new_unchecked(8),
        mag: StatMod::new_unchecked(0),
        spd: StatMod::new_unchecked(0),
        hp: StatMod::new_unchecked(20),
    };

    loadout.weapon = Some(EquipmentId("sword1".into()));
    loadout.helm = Some(EquipmentId("helm1".into()));

    let mut defs: Vec<EquipmentDef> = Vec::new();
    defs.push(def_w);
    defs.push(def_h);

    let effects = compute_equipment_effects(&loadout, &defs);
    assert_eq!(effects.total_stat_bonus.atk.get(), 10);
    assert_eq!(effects.total_stat_bonus.def.get(), 8);
    assert_eq!(effects.total_stat_bonus.spd.get(), 5);
    assert_eq!(effects.total_stat_bonus.hp.get(), 20);
}

#[test]
fn test_ability_unlock_from_weapon() {
    let mut loadout = EquipmentLoadout::default();
    let mut def = make_def("magic_sword", EquipmentSlot::Weapon, vec![Element::Jupiter]);
    def.unlocks_ability = Some(AbilityId("ragnarok".into()));

    loadout.weapon = Some(EquipmentId("magic_sword".into()));

    let mut defs: Vec<EquipmentDef> = Vec::new();
    defs.push(def);

    let effects = compute_equipment_effects(&loadout, &defs);
    assert_eq!(effects.unlocked_abilities.len(), 1);
    assert_eq!(effects.unlocked_abilities[0], AbilityId("ragnarok".into()));
}

#[test]
fn test_mana_bonus_accumulation() {
    let mut loadout = EquipmentLoadout::default();
    let mut def_w = make_def("staff1", EquipmentSlot::Weapon, vec![Element::Mercury]);
    def_w.mana_bonus = Some(3);
    let mut def_a = make_def("robe1", EquipmentSlot::Armor, vec![Element::Mercury]);
    def_a.mana_bonus = Some(2);

    loadout.weapon = Some(EquipmentId("staff1".into()));
    loadout.armor = Some(EquipmentId("robe1".into()));

    let mut defs: Vec<EquipmentDef> = Vec::new();
    defs.push(def_w);
    defs.push(def_a);

    let effects = compute_equipment_effects(&loadout, &defs);
    assert_eq!(effects.total_mana_bonus, 5);
}

#[test]
fn test_hit_count_bonus() {
    let mut loadout = EquipmentLoadout::default();
    let mut def = make_def("multi_blade", EquipmentSlot::Weapon, vec![Element::Venus]);
    def.hit_count_bonus = Some(2);

    loadout.weapon = Some(EquipmentId("multi_blade".into()));

    let mut defs: Vec<EquipmentDef> = Vec::new();
    defs.push(def);

    let effects = compute_equipment_effects(&loadout, &defs);
    assert_eq!(effects.total_hit_count_bonus, 2);
}

#[test]
fn test_always_first_turn_detection() {
    let mut loadout = EquipmentLoadout::default();
    let mut def = make_def("speed_boots", EquipmentSlot::Boots, vec![Element::Jupiter]);
    def.always_first_turn = true;

    loadout.boots = Some(EquipmentId("speed_boots".into()));

    let mut defs: Vec<EquipmentDef> = Vec::new();
    defs.push(def);

    let effects = compute_equipment_effects(&loadout, &defs);
    assert!(effects.always_first_turn);
}

#[test]
fn test_set_bonus_two_items_same_set() {
    let mut loadout = EquipmentLoadout::default();
    let mut def_w = make_def("set_sword", EquipmentSlot::Weapon, vec![Element::Mars]);
    def_w.set_id = Some(SetId("fire_set".into()));
    let mut def_h = make_def("set_helm", EquipmentSlot::Helm, vec![Element::Mars]);
    def_h.set_id = Some(SetId("fire_set".into()));

    loadout.weapon = Some(EquipmentId("set_sword".into()));
    loadout.helm = Some(EquipmentId("set_helm".into()));

    let mut defs: Vec<EquipmentDef> = Vec::new();
    defs.push(def_w);
    defs.push(def_h);

    let effects = compute_equipment_effects(&loadout, &defs);
    assert_eq!(effects.active_set_bonuses.len(), 1);
    assert_eq!(effects.active_set_bonuses[0], SetId("fire_set".into()));
}

#[test]
fn test_empty_loadout_returns_zero_effects() {
    let loadout = EquipmentLoadout::default();
    let defs: Vec<EquipmentDef> = Vec::new();
    let effects = compute_equipment_effects(&loadout, &defs);

    assert_eq!(effects.total_stat_bonus.atk.get(), 0);
    assert_eq!(effects.total_stat_bonus.def.get(), 0);
    assert_eq!(effects.total_stat_bonus.mag.get(), 0);
    assert_eq!(effects.total_stat_bonus.spd.get(), 0);
    assert_eq!(effects.total_stat_bonus.hp.get(), 0);
    assert!(effects.unlocked_abilities.is_empty());
    assert_eq!(effects.total_mana_bonus, 0);
    assert_eq!(effects.total_hit_count_bonus, 0);
    assert!(!effects.always_first_turn);
    assert!(effects.active_set_bonuses.is_empty());
}

#[test]
fn test_can_equip_allowed() {
    let def = make_def(
        "sword",
        EquipmentSlot::Weapon,
        vec![Element::Venus, Element::Mars],
    );
    assert!(can_equip(&def, Element::Venus));
    assert!(can_equip(&def, Element::Mars));
}

#[test]
fn test_can_equip_not_allowed() {
    let def = make_def("sword", EquipmentSlot::Weapon, vec![Element::Venus]);
    assert!(!can_equip(&def, Element::Jupiter));
}

#[test]
fn test_get_equipped_in_slot() {
    let mut loadout = EquipmentLoadout::default();
    assert!(get_equipped_in_slot(&loadout, EquipmentSlot::Weapon).is_none());
    loadout.weapon = Some(EquipmentId("sword1".into()));
    assert_eq!(
        get_equipped_in_slot(&loadout, EquipmentSlot::Weapon),
        Some(&EquipmentId("sword1".into()))
    );
}

#[test]
fn test_set_bonus_needs_two_items() {
    let mut loadout = EquipmentLoadout::default();
    let mut def_w = make_def("set_sword", EquipmentSlot::Weapon, vec![Element::Mars]);
    def_w.set_id = Some(SetId("fire_set".into()));
    let mut def_h = make_def("ice_helm", EquipmentSlot::Helm, vec![Element::Mars]);
    def_h.set_id = Some(SetId("ice_set".into()));
    loadout.weapon = Some(EquipmentId("set_sword".into()));
    loadout.helm = Some(EquipmentId("ice_helm".into()));
    let defs = vec![def_w, def_h];
    let effects = compute_equipment_effects(&loadout, &defs);
    assert!(effects.active_set_bonuses.is_empty());
}

#[test]
fn test_stat_bonus_clamped_at_999() {
    let mut loadout = EquipmentLoadout::default();
    let mut def_w = make_def("big1", EquipmentSlot::Weapon, vec![Element::Venus]);
    def_w.stat_bonus.atk = StatMod::new_unchecked(700);
    let mut def_a = make_def("big2", EquipmentSlot::Armor, vec![Element::Venus]);
    def_a.stat_bonus.atk = StatMod::new_unchecked(700);
    loadout.weapon = Some(EquipmentId("big1".into()));
    loadout.armor = Some(EquipmentId("big2".into()));
    let defs = vec![def_w, def_a];
    let effects = compute_equipment_effects(&loadout, &defs);
    assert_eq!(effects.total_stat_bonus.atk.get(), 999);
}

#[test]
fn test_unknown_equipment_contributes_nothing() {
    let mut loadout = EquipmentLoadout::default();
    loadout.boots = Some(EquipmentId("ghost_boots".into()));
    let defs: Vec<EquipmentDef> = Vec::new();
    let effects = compute_equipment_effects(&loadout, &defs);
    assert!(!effects.always_first_turn);
    assert_eq!(effects.total_stat_bonus.spd.get(), 0);
}

#[test]
fn test_equip_wrong_slot_leaves_loadout_unchanged() {
    let mut loadout = EquipmentLoadout::default();
    loadout.weapon = Some(EquipmentId("old".into()));
    let def = make_def("helm1", EquipmentSlot::Helm, vec![Element::Venus]);
    let _ = equip(&mut loadout, EquipmentSlot::Weapon, EquipmentId("helm1".into()), &def, Element::Venus);
    assert_eq!(loadout.weapon, Some(EquipmentId("old".into())));
}

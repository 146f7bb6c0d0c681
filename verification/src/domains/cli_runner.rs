//! The terminal battle: the text shown for battle events and unit state, and
//! the demo battle that the command line plays out.
use vstd::prelude::*;
use vstd::string::*;

use crate::domains::battle_engine::{
    battle_outcome, check_battle_end, enemies_planned, execute_round, find_first_alive, first_alive, hydrated_team, new_battle,
    new_battle_made,
    plan_action, round_played,
    plan_check, plan_enemy_actions, replanned, replanned_mana, set_team_djinn_slots,
    planning_frame, same_roster, total_gold, total_xp, units_wf, Battle, BattleEvent, BattleResult,
    BattleUnitFull, EnemyUnitData, PlayerUnitData,
};
use crate::domains::data_loader::{find_by_key, first_with_key, GameData};
use crate::domains::djinn::{DjinnInstance, DjinnSlots};
use crate::domains::equipment::{self, effects_of, EquipmentLoadout};
use crate::shared::{
    AbilityDef, AbilityId, ActionView, BattleAction, DjinnDef, DjinnId, DjinnState, Element, EquipmentDef, EquipmentId,
    EncounterEnemy, EnemyDef, EquipmentSlot, Side, StatusEffectType, TargetRef, UnitDef, same_enemy_def,
};
use crate::text::{append_decimal, append_decimal_wide, append_repeat, decimal, join, join_strings, repeat, string_views};

verus! {

// ── Names ───────────────────────────────────────────────────────────

/// The name shown for a unit of the battle: its id, or its side and index
/// where no such unit exists.
pub open spec fn target_name(battle: Battle, t: TargetRef) -> Seq<char> {
    let units = match t.side {
        Side::Player => battle.player_units@,
        Side::Enemy => battle.enemies@,
    };
    if (t.index as int) < units.len() {
        units[t.index as int].unit.id@
    } else {
        match t.side {
            Side::Player => "Player["@ + decimal(t.index as nat) + "]"@,
            Side::Enemy => "Enemy["@ + decimal(t.index as nat) + "]"@,
        }
    }
}

/// The name shown for a unit of the battle.
pub fn format_target(target: &TargetRef, battle: &Battle) -> (r: String)
    ensures
        r@ == target_name(*battle, *target),
{
    let i = target.index as usize;
    match target.side {
        Side::Player => {
            if i < battle.player_units.len() {
                battle.player_units[i].unit.id.clone()
            } else {
                let mut r = String::from_str("Player[");
                append_decimal(&mut r, target.index as u32);
                r.append("]");
                r
            }
        },
        Side::Enemy => {
            if i < battle.enemies.len() {
                battle.enemies[i].unit.id.clone()
            } else {
                let mut r = String::from_str("Enemy[");
                append_decimal(&mut r, target.index as u32);
                r.append("]");
                r
            }
        },
    }
}

/// The name of a status effect.
pub open spec fn status_name(t: StatusEffectType) -> Seq<char> {
    match t {
        StatusEffectType::Burn => "Burn"@,
        StatusEffectType::Poison => "Poison"@,
        StatusEffectType::Freeze => "Freeze"@,
        StatusEffectType::Stun => "Stun"@,
        StatusEffectType::Null => "Null"@,
        StatusEffectType::Incapacitate => "Incapacitate"@,
    }
}

fn status_text(t: StatusEffectType) -> (r: &'static str)
    ensures
        r@ == status_name(t),
{
    match t {
        StatusEffectType::Burn => "Burn",
        StatusEffectType::Poison => "Poison",
        StatusEffectType::Freeze => "Freeze",
        StatusEffectType::Stun => "Stun",
        StatusEffectType::Null => "Null",
        StatusEffectType::Incapacitate => "Incapacitate",
    }
}

/// The name of a djinn state.
pub open spec fn djinn_state_name(s: DjinnState) -> Seq<char> {
    match s {
        DjinnState::Good => "Good"@,
        DjinnState::Recovery => "Recovery"@,
    }
}

fn djinn_state_text(s: DjinnState) -> (r: &'static str)
    ensures
        r@ == djinn_state_name(s),
{
    match s {
        DjinnState::Good => "Good",
        DjinnState::Recovery => "Recovery",
    }
}

// ── Events ──────────────────────────────────────────────────────────

/// The line shown for a battle event.
pub open spec fn event_text(battle: Battle, e: BattleEvent) -> Seq<char> {
    match e {
        BattleEvent::DamageDealt(dd) => target_name(battle, dd.source) + " deals "@ + decimal(dd.amount as nat)
            + " damage to "@ + target_name(battle, dd.target) + (if dd.is_crit {
            " (CRIT!)"@
        } else {
            Seq::empty()
        }),
        BattleEvent::HealingDone(hd) => target_name(battle, hd.source) + " heals "@ + target_name(battle, hd.target)
            + " for "@ + decimal(hd.amount as nat),
        BattleEvent::StatusApplied(sa) => target_name(battle, sa.target) + " is afflicted with "@ + status_name(
            sa.effect.effect_type,
        ),
        BattleEvent::CritTriggered(u, n) => "CRITICAL HIT! "@ + target_name(battle, u) + " on hit #"@ + decimal(
            n as nat,
        ),
        BattleEvent::BarrierBlocked(u) => target_name(battle, u) + "'s barrier absorbs the hit!"@,
        BattleEvent::UnitDefeated(ud) => target_name(battle, ud.unit) + " is defeated!"@,
        BattleEvent::ManaChanged(mc) => "Mana pool: "@ + decimal(mc.old_value as nat) + " -> "@ + decimal(
            mc.new_value as nat,
        ),
        BattleEvent::RoundStarted(n) => "══ Round "@ + decimal(n as nat) + " ══"@,
        BattleEvent::RoundEnded(n) => "── End of Round "@ + decimal(n as nat) + " ──"@,
        BattleEvent::DjinnChanged(dc) => "Djinn "@ + dc.djinn_id@ + " on "@ + target_name(battle, dc.unit) + ": "@
            + djinn_state_name(dc.old_state) + " -> "@ + djinn_state_name(dc.new_state),
        BattleEvent::EnemyAbilityUsed { actor, ability_name, targets } => target_name(battle, actor) + " uses "@
            + ability_name@,
    }
}

/// The line shown for a battle event.
pub fn format_event(event: &BattleEvent, battle: &Battle) -> (r: String)
    ensures
        r@ == event_text(*battle, *event),
{
    match event {
        BattleEvent::DamageDealt(dd) => {
            let mut r = format_target(&dd.source, battle);
            r.append(" deals ");
            append_decimal(&mut r, dd.amount as u32);
            r.append(" damage to ");
            let t = format_target(&dd.target, battle);
            r.append(t.as_str());
            if dd.is_crit {
                r.append(" (CRIT!)");
            } else {
                assert(r@ =~= r@ + Seq::<char>::empty());
            }
            r
        },
        BattleEvent::HealingDone(hd) => {
            let mut r = format_target(&hd.source, battle);
            r.append(" heals ");
            let t = format_target(&hd.target, battle);
            r.append(t.as_str());
            r.append(" for ");
            append_decimal(&mut r, hd.amount as u32);
            r
        },
        BattleEvent::StatusApplied(sa) => {
            let mut r = format_target(&sa.target, battle);
            r.append(" is afflicted with ");
            r.append(status_text(sa.effect.effect_type));
            r
        },
        BattleEvent::CritTriggered(u, n) => {
            let mut r = String::from_str("CRITICAL HIT! ");
            let t = format_target(u, battle);
            r.append(t.as_str());
            r.append(" on hit #");
            append_decimal(&mut r, *n as u32);
            r
        },
        BattleEvent::BarrierBlocked(u) => {
            let mut r = format_target(u, battle);
            r.append("'s barrier absorbs the hit!");
            r
        },
        BattleEvent::UnitDefeated(ud) => {
            let mut r = format_target(&ud.unit, battle);
            r.append(" is defeated!");
            r
        },
        BattleEvent::ManaChanged(mc) => {
            let mut r = String::from_str("Mana pool: ");
            append_decimal(&mut r, mc.old_value as u32);
            r.append(" -> ");
            append_decimal(&mut r, mc.new_value as u32);
            r
        },
        BattleEvent::RoundStarted(n) => {
            let mut r = String::from_str("══ Round ");
            append_decimal(&mut r, *n);
            r.append(" ══");
            r
        },
        BattleEvent::RoundEnded(n) => {
            let mut r = String::from_str("── End of Round ");
            append_decimal(&mut r, *n);
            r.append(" ──");
            r
        },
        BattleEvent::DjinnChanged(dc) => {
            let mut r = String::from_str("Djinn ");
            r.append(dc.djinn_id.0.as_str());
            r.append(" on ");
            let t = format_target(&dc.unit, battle);
            r.append(t.as_str());
            r.append(": ");
            r.append(djinn_state_text(dc.old_state));
            r.append(" -> ");
            r.append(djinn_state_text(dc.new_state));
            r
        },
        BattleEvent::EnemyAbilityUsed { actor, ability_name, targets } => {
            let mut r = format_target(actor, battle);
            r.append(" uses ");
            r.append(ability_name.as_str());
            r
        },
    }
}

// ── Unit state ──────────────────────────────────────────────────────

/// The width of an HP bar, in characters.
pub const HP_BAR_WIDTH: usize = 20;

/// An HP bar: `#` for the filled part, in proportion of `current` to `max`
/// rounded down, `.` for the rest, in brackets; all `.` where `max` is 0.
pub open spec fn hp_bar_text(current: u16, max: u16) -> Seq<char> {
    let filled: nat = if max == 0 {
        0
    } else {
        (current as nat * 20 / max as nat) as nat
    };
    "["@ + repeat('#', filled) + repeat('.', (20 - filled) as nat) + "]"@
}

/// An HP bar of `current` out of `max` HP.
pub fn hp_bar(current: u16, max: u16) -> (r: String)
    requires
        max == 0 || current <= max,
    ensures
        r@ == hp_bar_text(current, max),
{
    let filled: usize = if max == 0 {
        0
    } else {
        assert((current as nat) * 20 <= (max as nat) * 20) by (nonlinear_arith)
            requires
                current <= max,
        ;
        assert((current as nat * 20) / (max as nat) <= 20) by (nonlinear_arith)
            requires
                (current as nat) * 20 <= (max as nat) * 20,
                max > 0,
        ;
        ((current as u32 * 20) / max as u32) as usize
    };
    let mut r = String::from_str("[");
    proof {
        reveal_strlit("#");
        reveal_strlit(".");
    }
    append_repeat(&mut r, "#", filled);
    append_repeat(&mut r, ".", HP_BAR_WIDTH - filled);
    r.append("]");
    r
}

/// The state line of the unit at index `i` of its side: index, an `X` if it is
/// down, id, HP out of maximum HP, and its HP bar.
pub open spec fn unit_line(i: int, u: BattleUnitFull) -> Seq<char> {
    "  │ ["@ + decimal(i as nat) + "] "@ + (if u.unit.is_alive {
        " "@
    } else {
        "X"@
    }) + " "@ + u.unit.id@ + ": "@ + decimal(u.unit.current_hp as nat) + "/"@ + decimal(
        u.unit.stats.hp@ as nat,
    ) + " "@ + hp_bar_text(u.unit.current_hp, u.unit.stats.hp@)
}

/// The state lines of one side's units, in order.
pub open spec fn unit_lines(units: Seq<BattleUnitFull>) -> Seq<Seq<char>> {
    Seq::new(units.len(), |i: int| unit_line(i, units[i]))
}

/// The lines that show the state of both sides between rounds.
pub open spec fn battle_state_text(b: Battle) -> Seq<Seq<char>> {
    seq!["  ┌─ Party ─────────────────────────"@] + unit_lines(b.player_units@) + seq![
        "  ├─ Enemies ─────────────────────────"@,
    ] + unit_lines(b.enemies@) + seq!["  └───────────────────────────────────"@]
}

fn push_line(lines: &mut Vec<String>, line: String)
    ensures
        string_views(final(lines)@) == string_views(old(lines)@).push(line@),
{
    lines.push(line);
    assert(string_views(lines@) =~= string_views(old(lines)@).push(line@));
}

/// Every unit's HP is within its maximum.
pub open spec fn hp_within_max(units: Seq<BattleUnitFull>) -> bool {
    forall|i: int| 0 <= i < units.len() ==> (#[trigger] units[i]).unit.current_hp <= units[i].unit.stats.hp@
}

fn push_unit_lines(lines: &mut Vec<String>, units: &Vec<BattleUnitFull>)
    requires
        hp_within_max(units@),
    ensures
        string_views(final(lines)@) == string_views(old(lines)@) + unit_lines(units@),
{
    let ghost start = string_views(lines@);
    let mut i: usize = 0;
    while i < units.len()
        invariant
            i <= units.len(),
            hp_within_max(units@),
            string_views(lines@) == start + unit_lines(units@.take(i as int)),
        decreases units.len() - i,
    {
        let u = &units[i].unit;
        assert(units@[i as int].unit.current_hp <= units@[i as int].unit.stats.hp@);
        let mut line = String::from_str("  │ [");
        append_decimal_wide(&mut line, i as u64);
        line.append("] ");
        if u.is_alive {
            line.append(" ");
        } else {
            line.append("X");
        }
        line.append(" ");
        line.append(u.id.as_str());
        line.append(": ");
        append_decimal(&mut line, u.current_hp as u32);
        line.append("/");
        let max = u.stats.hp.get();
        append_decimal(&mut line, max as u32);
        line.append(" ");
        let bar = hp_bar(u.current_hp, max);
        line.append(bar.as_str());
        push_line(lines, line);
        proof {
            assert(unit_lines(units@.take(i + 1)) =~= unit_lines(units@.take(i as int)).push(
                unit_line(i as int, units@[i as int]),
            ));
        }
        i += 1;
    }
    assert(units@.take(units.len() as int) =~= units@);
}

/// The lines that show the state of both sides between rounds.
pub fn battle_state_lines(battle: &Battle) -> (r: Vec<String>)
    requires
        hp_within_max(battle.player_units@),
        hp_within_max(battle.enemies@),
    ensures
        string_views(r@) == battle_state_text(*battle),
{
    let mut lines: Vec<String> = Vec::new();
    push_line(&mut lines, String::from_str("  ┌─ Party ─────────────────────────"));
    push_unit_lines(&mut lines, &battle.player_units);
    push_line(&mut lines, String::from_str("  ├─ Enemies ─────────────────────────"));
    push_unit_lines(&mut lines, &battle.enemies);
    push_line(&mut lines, String::from_str("  └───────────────────────────────────"));
    assert(string_views(lines@) =~= battle_state_text(*battle));
    lines
}

// ── Demo party ──────────────────────────────────────────────────────

/// Whether `key` names an item of `defs` (its first definition) that goes in
/// `slot` and may be worn by a unit of `element`.
pub open spec fn fits(defs: Seq<EquipmentDef>, key: Seq<char>, slot: EquipmentSlot, element: Element) -> bool {
    match first_with_key(defs, key) {
        Some(k) => defs[k].slot == slot && defs[k].allowed_elements@.contains(element),
        None => false,
    }
}

/// A slot holds the item `key` if it was equipped, and nothing otherwise.
pub open spec fn slot_holds(item: Option<EquipmentId>, key: Seq<char>, equipped: bool) -> bool {
    if equipped {
        item matches Some(i) && i@ == key
    } else {
        item is None
    }
}

fn try_equip(
    loadout: &mut EquipmentLoadout,
    slot: EquipmentSlot,
    item_id: &str,
    defs: &Vec<EquipmentDef>,
    element: Element,
)
    ensures
        fits(defs@, item_id@, slot, element) ==> *final(loadout) == equipment::with_slot(
            *old(loadout),
            slot,
            equipment::slot_item(*final(loadout), slot),
        ) && (equipment::slot_item(*final(loadout), slot) matches Some(i) && i@ == item_id@),
        !fits(defs@, item_id@, slot, element) ==> *final(loadout) == *old(loadout),
{
    let key = String::from_str(item_id);
    match find_by_key(defs, &key) {
        Some(k) => {
            let _ = equipment::equip(loadout, slot, EquipmentId(key), &defs[k], element);
        },
        None => {},
    }
}

/// A player unit wearing the weapon and the armor named, where `game_data`
/// defines them and they fit the unit, with the effects of that equipment,
/// and without djinn.
pub open spec fn geared_unit_ok(r: PlayerUnitData, unit_def: UnitDef, weapon: Seq<char>, armor: Seq<char>, game_data: GameData) -> bool {
    &&& r.id@ == unit_def.id@
    &&& r.base_stats == unit_def.base_stats
    &&& r.mana_contribution == unit_def.mana_contribution@
    &&& slot_holds(r.equipment.weapon, weapon, fits(game_data.equipment@, weapon, EquipmentSlot::Weapon, unit_def.element))
    &&& slot_holds(r.equipment.armor, armor, fits(game_data.equipment@, armor, EquipmentSlot::Armor, unit_def.element))
    &&& r.equipment.helm is None
    &&& r.equipment.boots is None
    &&& r.equipment.accessory is None
    &&& effects_of(r.equipment_effects, r.equipment, game_data.equipment@)
    &&& r.djinn_slots.next_activation_order == 0
}

fn geared_unit(unit_def: &UnitDef, weapon_id: &str, armor_id: &str, game_data: &GameData) -> (r: PlayerUnitData)
    ensures
        geared_unit_ok(r, *unit_def, weapon_id@, armor_id@, *game_data),
        r.djinn_slots.slots@.len() == 0,
{
    let mut loadout = EquipmentLoadout::default();
    try_equip(&mut loadout, EquipmentSlot::Weapon, weapon_id, &game_data.equipment, unit_def.element);
    try_equip(&mut loadout, EquipmentSlot::Armor, armor_id, &game_data.equipment, unit_def.element);
    let effects = equipment::compute_equipment_effects(&loadout, game_data.equipment.as_slice());
    PlayerUnitData {
        id: unit_def.id.0.clone(),
        base_stats: unit_def.base_stats,
        equipment: loadout,
        djinn_slots: DjinnSlots::new(),
        mana_contribution: unit_def.mana_contribution.get(),
        equipment_effects: effects,
    }
}

/// `r` is `unit_def` wearing the weapon and the armor named, where
/// `game_data` defines them and they fit the unit, with the effects of that
/// equipment, and holding the djinn named, ready, where `game_data` defines it.
pub open spec fn player_unit_built(
    r: PlayerUnitData,
    unit_def: UnitDef,
    weapon: Seq<char>,
    armor: Seq<char>,
    djinn: Seq<char>,
    game_data: GameData,
) -> bool {
    &&& geared_unit_ok(r, unit_def, weapon, armor, game_data)
    &&& first_with_key(game_data.djinn@, djinn) is Some ==> r.djinn_slots.slots@.len() == 1
        && r.djinn_slots.slots@[0].djinn_id@ == djinn
        && r.djinn_slots.slots@[0].state == DjinnState::Good
        && r.djinn_slots.slots@[0].recovery_turns_remaining == 0
        && r.djinn_slots.slots@[0].activation_order == 0
    &&& first_with_key(game_data.djinn@, djinn) is None ==> r.djinn_slots.slots@.len() == 0
}

/// A player unit for the demo battle: `unit_def` wearing the weapon and the
/// armor named, where `game_data` defines them and they fit the unit, with
/// the effects of that equipment, and holding the djinn named where
/// `game_data` defines it.
pub fn build_player_unit(
    unit_def: &UnitDef,
    weapon_id: &str,
    armor_id: &str,
    djinn_id: &str,
    game_data: &GameData,
) -> (r: PlayerUnitData)
    ensures
        player_unit_built(r, *unit_def, weapon_id@, armor_id@, djinn_id@, *game_data),
{
    let mut r = geared_unit(unit_def, weapon_id, armor_id, game_data);
    let key = String::from_str(djinn_id);
    if find_by_key(&game_data.djinn, &key).is_some() {
        r.djinn_slots.add(DjinnId(key));
    }
    r
}

/// The name of the item in a slot, where `defs` defines it.
pub open spec fn item_name(item: Option<EquipmentId>, defs: Seq<EquipmentDef>) -> Seq<Seq<char>> {
    match item {
        Some(id) => match first_with_key(defs, id@) {
            Some(k) => seq![defs[k].name@],
            None => Seq::empty(),
        },
        None => Seq::empty(),
    }
}

/// A held djinn: its name where `defs` defines it, else its id; then its state.
pub open spec fn djinn_part(inst: DjinnInstance, defs: Seq<DjinnDef>) -> Seq<char> {
    (match first_with_key(defs, inst.djinn_id@) {
        Some(k) => defs[k].name@,
        None => inst.djinn_id@,
    }) + "("@ + djinn_state_name(inst.state) + ")"@
}

/// The gear shown for a unit: weapon, armor, then each djinn.
pub open spec fn gear_parts(
    loadout: EquipmentLoadout,
    slots: Seq<DjinnInstance>,
    equipment: Seq<EquipmentDef>,
    djinn: Seq<DjinnDef>,
) -> Seq<Seq<char>> {
    item_name(loadout.weapon, equipment) + item_name(loadout.armor, equipment) + slots.map_values(
        |inst: DjinnInstance| djinn_part(inst, djinn),
    )
}

/// A unit's id, HP and gear, as shown at the start of the demo battle.
pub open spec fn unit_gear_text(
    unit_id: Seq<char>,
    hp: u16,
    loadout: EquipmentLoadout,
    slots: Seq<DjinnInstance>,
    equipment: Seq<EquipmentDef>,
    djinn: Seq<DjinnDef>,
) -> Seq<char> {
    let parts = gear_parts(loadout, slots, equipment, djinn);
    unit_id + " (HP:"@ + decimal(hp as nat) + ")"@ + (if parts.len() == 0 {
        Seq::empty()
    } else {
        " ["@ + join(parts, ", "@) + "]"@
    })
}

fn push_item_name(parts: &mut Vec<String>, item: &Option<EquipmentId>, defs: &Vec<EquipmentDef>)
    ensures
        string_views(final(parts)@) == string_views(old(parts)@) + item_name(*item, defs@),
{
    match item {
        Some(id) => match find_by_key(defs, &id.0) {
            Some(k) => {
                parts.push(defs[k].name.clone());
                assert(string_views(parts@) =~= string_views(old(parts)@) + item_name(*item, defs@));
            },
            None => {
                assert(string_views(parts@) =~= string_views(old(parts)@) + item_name(*item, defs@));
            },
        },
        None => {
            assert(string_views(parts@) =~= string_views(old(parts)@) + item_name(*item, defs@));
        },
    }
}

/// A unit's id, HP and gear, as shown at the start of the demo battle.
pub fn format_unit_gear(
    unit_id: &str,
    hp: u16,
    loadout: &EquipmentLoadout,
    djinn_slots: &DjinnSlots,
    game_data: &GameData,
) -> (r: String)
    ensures
        r@ == unit_gear_text(unit_id@, hp, *loadout, djinn_slots.slots@, game_data.equipment@, game_data.djinn@),
{
    let mut parts: Vec<String> = Vec::new();
    push_item_name(&mut parts, &loadout.weapon, &game_data.equipment);
    push_item_name(&mut parts, &loadout.armor, &game_data.equipment);
    let ghost base = string_views(parts@);
    let slots = &djinn_slots.slots;
    let mut i: usize = 0;
    while i < slots.len()
        invariant
            i <= slots.len(),
            string_views(parts@) == base + slots@.take(i as int).map_values(
                |inst: DjinnInstance| djinn_part(inst, game_data.djinn@),
            ),
        decreases slots.len() - i,
    {
        let inst = &slots[i];
        let mut part = match find_by_key(&game_data.djinn, &inst.djinn_id.0) {
            Some(k) => game_data.djinn[k].name.clone(),
            None => inst.djinn_id.0.clone(),
        };
        part.append("(");
        part.append(djinn_state_text(inst.state));
        part.append(")");
        let ghost before = parts@;
        parts.push(part);
        proof {
            assert(string_views(parts@) =~= string_views(before).push(part@));
            assert(slots@.take(i + 1).map_values(|inst: DjinnInstance| djinn_part(inst, game_data.djinn@))
                =~= slots@.take(i as int).map_values(|inst: DjinnInstance| djinn_part(inst, game_data.djinn@)).push(
                djinn_part(slots@[i as int], game_data.djinn@),
            ));
        }
        i += 1;
    }
    assert(slots@.take(slots.len() as int) =~= slots@);
    let mut r = String::from_str(unit_id);
    r.append(" (HP:");
    append_decimal(&mut r, hp as u32);
    r.append(")");
    if parts.len() > 0 {
        r.append(" [");
        let joined = join_strings(&parts, ", ");
        r.append(joined.as_str());
        r.append("]");
    } else {
        assert(r@ =~= r@ + Seq::<char>::empty());
    }
    r
}

// ── The demo battle ─────────────────────────────────────────────────

/// The last round the demo battle plays before it calls a stalemate.
pub const STALEMATE_ROUND: u32 = 20;

/// What the demo battle needs from the game data and did not find.
#[derive(Debug)]
pub enum DemoSetupError {
    /// A unit of the demo party is not defined.
    MissingUnit(String),
    /// The demo encounter is not defined, nor is this replacement enemy.
    MissingEnemy(String),
    /// The demo encounter yields no enemy.
    NoEnemies,
    /// The encounter asked for is not defined.
    MissingEncounter(String),
    /// The demo encounter yields more enemies than a side can hold.
    TooManyEnemies,
    /// A round of the demo battle ended with a unit above its maximum HP
    /// (revived above full), which its HP bar cannot show.
    HpAboveMaximum,
}

/// A demo battle played out: its result, the battle as it ended, the lines
/// to show, and the warnings about the encounter.
pub struct DemoRun {
    pub result: BattleResult,
    pub battle: Battle,
    pub lines: Vec<String>,
    pub warnings: Vec<String>,
}

/// The first ability of `unit_def`, in the order it learns them, that
/// `abilities` defines with a mana cost above 0.
pub open spec fn is_psynergy(unit_def: UnitDef, abilities: Seq<AbilityDef>, j: int) -> bool {
    match first_with_key(abilities, unit_def.abilities@[j].ability_id@) {
        Some(k) => abilities[k].mana_cost@ > 0,
        None => false,
    }
}

/// The first ability of `unit_def`, in the order it learns them, that the
/// game data defines with a mana cost above 0, if any.
pub open spec fn first_psynergy(unit_def: UnitDef, abilities: Seq<AbilityDef>, r: Option<AbilityId>) -> bool {
    match r {
        Some(id) => exists|j: int|
            0 <= j < unit_def.abilities@.len() && is_psynergy(unit_def, abilities, j) && (forall|i: int|
                0 <= i < j ==> !#[trigger] is_psynergy(unit_def, abilities, i)) && id@ == unit_def.abilities@[j].ability_id@,
        None => forall|j: int| 0 <= j < unit_def.abilities@.len() ==> !#[trigger] is_psynergy(unit_def, abilities, j),
    }
}

pub fn find_first_psynergy_ability(unit_def: &UnitDef, game_data: &GameData) -> (r: Option<AbilityId>)
    ensures
        first_psynergy(*unit_def, game_data.abilities@, r),
{
    let mut i: usize = 0;
    while i < unit_def.abilities.len()
        invariant
            i <= unit_def.abilities@.len(),
            forall|j: int| 0 <= j < i ==> !#[trigger] is_psynergy(*unit_def, game_data.abilities@, j),
        decreases unit_def.abilities@.len() - i,
    {
        let id = &unit_def.abilities[i].ability_id;
        match find_by_key(&game_data.abilities, &id.0) {
            Some(k) => {
                if game_data.abilities[k].mana_cost.get() > 0 {
                    assert(is_psynergy(*unit_def, game_data.abilities@, i as int));
                    return Some(id.clone());
                }
            },
            None => {},
        }
        i += 1;
    }
    None
}

/// Whether every unit's HP is within its maximum.
fn all_hp_within_max(units: &Vec<BattleUnitFull>) -> (r: bool)
    ensures
        r == hp_within_max(units@),
{
    let mut i: usize = 0;
    while i < units.len()
        invariant
            i <= units@.len(),
            forall|j: int| 0 <= j < i ==> (#[trigger] units@[j]).unit.current_hp <= units@[j].unit.stats.hp@,
        decreases units@.len() - i,
    {
        if units[i].unit.current_hp > units[i].unit.stats.hp.get() {
            return false;
        }
        i += 1;
    }
    true
}

/// The largest reward an enemy can give.
pub open spec fn rewards_bounded(units: Seq<BattleUnitFull>) -> bool {
    forall|i: int| 0 <= i < units.len() ==> (#[trigger] units[i]).reward_xp <= 9999999 && units[i].reward_gold <= 9999999
}

proof fn lemma_total_rewards_bounded(units: Seq<BattleUnitFull>)
    requires
        rewards_bounded(units),
    ensures
        total_xp(units) <= units.len() * 9999999,
        total_gold(units) <= units.len() * 9999999,
    decreases units.len(),
{
    if units.len() > 0 {
        assert(rewards_bounded(units.drop_last()));
        lemma_total_rewards_bounded(units.drop_last());
        assert(units.last().reward_xp <= 9999999);
    }
}

proof fn lemma_same_roster_rewards(a: Seq<BattleUnitFull>, b: Seq<BattleUnitFull>)
    requires
        same_roster(a, b),
        rewards_bounded(a),
    ensures
        rewards_bounded(b),
{
    assert forall|i: int| 0 <= i < b.len() implies (#[trigger] b[i]).reward_xp <= 9999999 && b[i].reward_gold <= 9999999 by {
        assert(a[i].reward_xp <= 9999999);
    }
}

/// `b` is `a` after `unit_ref` tries to plan `action` (see `plan_action`).
pub open spec fn tried_plan(a: Battle, b: Battle, unit_ref: TargetRef, action: BattleAction) -> bool {
    &&& planning_frame(a, b)
    &&& b.team_djinn_slots.slots@ == hydrated_team(a)
    &&& if plan_check(a, hydrated_team(a), unit_ref, action) is Ok {
        &&& b.planned_actions@ == replanned(a.planned_actions@, unit_ref, action)
        &&& b.mana_pool.projected_mana == replanned_mana(a, unit_ref, action)
    } else {
        &&& b.planned_actions@ == a.planned_actions@
        &&& b.mana_pool.projected_mana == a.mana_pool.projected_mana
    }
}

/// The ability (its index among the battle's abilities) the demo party's
/// unit `pi` tries: in every third round, its ability, when the battle
/// knows it and the pool holds its mana cost.
pub open spec fn demo_ability(a: Battle, ids: Seq<Option<AbilityId>>, pi: int) -> Option<int> {
    if a.round % 3 == 0 && pi < ids.len() && ids[pi] is Some {
        match first_with_key(a.ability_defs@, ids[pi].unwrap()@) {
            Some(k) => if a.mana_pool.current_mana >= a.ability_defs@[k].mana_cost@ {
                Some(k)
            } else {
                None
            },
            None => None,
        }
    } else {
        None
    }
}

/// The line announcing that unit `pi` uses ability `k` on enemy `t`.
pub open spec fn ability_line(a: Battle, pi: int, k: int, t: int) -> Seq<char> {
    "  >> "@ + a.player_units@[pi].unit.id@ + " uses "@ + a.ability_defs@[k].name@ + " on "@ + a.enemies@[t].unit.id@
        + "!"@
}

/// `b` and `lb` are the battle and the lines after the demo party's unit
/// `pi` has planned: a unit that is down, or with no enemy up, plans
/// nothing; one whose ability is due (see `demo_ability`) announces it and
/// tries it on the first enemy up, attacking that enemy where the plan is
/// refused; any other attacks the first enemy up.
pub open spec fn demo_unit_planned(
    a: Battle,
    b: Battle,
    la: Seq<Seq<char>>,
    lb: Seq<Seq<char>>,
    ids: Seq<Option<AbilityId>>,
    pi: int,
) -> bool {
    let unit_ref = TargetRef { side: Side::Player, index: pi as u8 };
    if !a.player_units@[pi].unit.is_alive || first_alive(a.enemies@) is None {
        b == a && lb == la
    } else {
        let t = first_alive(a.enemies@).unwrap();
        let target = TargetRef { side: Side::Enemy, index: t as u8 };
        let attack = BattleAction::Attack { target };
        match demo_ability(a, ids, pi) {
            None => lb == la && tried_plan(a, b, unit_ref, attack),
            Some(k) => {
                &&& lb == la.push(ability_line(a, pi, k, t))
                &&& exists|act: BattleAction, mid: Battle|
                    {
                        &&& act@ == (ActionView::UseAbility { ability_id: ids[pi].unwrap()@, targets: seq![target] })
                        &&& #[trigger] tried_plan(a, mid, unit_ref, act)
                        &&& if plan_check(a, hydrated_team(a), unit_ref, act) is Ok {
                            b == mid
                        } else {
                            tried_plan(mid, b, unit_ref, attack)
                        }
                    }
            },
        }
    }
}

/// `trace` and `logs` are the battles and announced lines as the first `n`
/// units of the demo party plan in turn.
pub open spec fn demo_planned(trace: Seq<Battle>, logs: Seq<Seq<Seq<char>>>, ids: Seq<Option<AbilityId>>, n: int) -> bool {
    &&& trace.len() == n + 1
    &&& logs.len() == n + 1
    &&& forall|i: int|
        #![trigger trace[i]]
        0 <= i < n ==> demo_unit_planned(trace[i], trace[i + 1], logs[i], logs[i + 1], ids, i)
}

/// Plans the demo party's actions for a round: each unit still up attacks the
/// first enemy still up; in every third round a unit first tries its ability
/// on that enemy where the pool holds its mana cost, and attacks where that
/// plan is refused. Announces each ability used.
fn plan_demo_players(battle: &mut Battle, ability_ids: &Vec<Option<AbilityId>>, lines: &mut Vec<String>)
    requires
        old(battle).wf(),
    ensures
        final(battle).wf(),
        planning_frame(*old(battle), *final(battle)),
        exists|trace: Seq<Battle>, logs: Seq<Seq<Seq<char>>>|
            {
                &&& #[trigger] demo_planned(trace, logs, ability_ids@, old(battle).player_units@.len() as int)
                &&& trace[0] == *old(battle)
                &&& logs[0] == string_views(old(lines)@)
                &&& trace.last() == *final(battle)
                &&& logs.last() == string_views(final(lines)@)
            },
{
    let n = battle.player_units.len();
    let current_round = battle.round;
    let ghost b0 = *battle;
    let ghost mut trace: Seq<Battle> = seq![*battle];
    let ghost mut logs: Seq<Seq<Seq<char>>> = seq![string_views(lines@)];
    let mut pi: usize = 0;
    while pi < n
        invariant
            pi <= n,
            n == battle.player_units@.len(),
            n == b0.player_units@.len(),
            current_round == battle.round,
            battle.wf(),
            planning_frame(b0, *battle),
            demo_planned(trace, logs, ability_ids@, pi as int),
            trace[0] == b0,
            logs[0] == string_views(old(lines)@),
            trace.last() == *battle,
            logs.last() == string_views(lines@),
        decreases n - pi,
    {
        let ghost before = *battle;
        let ghost lines_before = string_views(lines@);
        let unit_ref = TargetRef { side: Side::Player, index: pi as u8 };
        let alive = battle.player_units[pi].unit.is_alive;
        let found = find_first_alive(&battle.enemies);
        if alive && found.is_some() {
            let target_idx = match found {
                Some(i) => i,
                None => 0,
            };
            let enemy_target = TargetRef { side: Side::Enemy, index: target_idx as u8 };
            let mut used_ability = false;
            let ghost mut mid = *battle;
            let ghost mut act_g: Option<BattleAction> = None;
            if current_round % 3 == 0 && pi < ability_ids.len() {
                match &ability_ids[pi] {
                    Some(ability_id) => match find_by_key(&battle.ability_defs, &ability_id.0) {
                        Some(k) => {
                            if battle.mana_pool.current_mana >= battle.ability_defs[k].mana_cost.get() {
                                let mut line = String::from_str("  >> ");
                                line.append(battle.player_units[pi].unit.id.as_str());
                                line.append(" uses ");
                                line.append(battle.ability_defs[k].name.as_str());
                                line.append(" on ");
                                line.append(battle.enemies[target_idx].unit.id.as_str());
                                line.append("!");
                                proof {
                                    assert(line@ =~= ability_line(before, pi as int, k as int, target_idx as int));
                                }
                                push_line(lines, line);
                                let mut targets: Vec<TargetRef> = Vec::new();
                                targets.push(enemy_target);
                                let action = BattleAction::UseAbility { ability_id: ability_id.clone(), targets };
                                proof {
                                    act_g = Some(action);
                                    assert(action@ == (ActionView::UseAbility {
                                        ability_id: ability_ids@[pi as int].unwrap()@,
                                        targets: seq![enemy_target],
                                    }));
                                }
                                if plan_action(battle, unit_ref, action).is_ok() {
                                    used_ability = true;
                                }
                                proof {
                                    mid = *battle;
                                }
                            }
                        },
                        None => {},
                    },
                    None => {},
                }
            }
            if !used_ability {
                let _ = plan_action(battle, unit_ref, BattleAction::Attack { target: enemy_target });
            }
            proof {
                assert forall|i: int| 0 <= i < battle.player_units@.len() implies crate::domains::battle_engine::same_but_djinn(
                    b0.player_units@[i],
                    #[trigger] battle.player_units@[i],
                ) by {
                    assert(crate::domains::battle_engine::same_but_djinn(b0.player_units@[i], before.player_units@[i]));
                }
                match act_g {
                    Some(act) => {
                        assert(tried_plan(before, mid, unit_ref, act));
                    },
                    None => {},
                }
                assert(demo_unit_planned(before, *battle, lines_before, string_views(lines@), ability_ids@, pi as int));
            }
        } else {
            proof {
                assert(demo_unit_planned(before, *battle, lines_before, string_views(lines@), ability_ids@, pi as int));
            }
        }
        proof {
            let t2 = trace.push(*battle);
            let l2 = logs.push(string_views(lines@));
            assert forall|i: int| #![trigger t2[i]] 0 <= i < pi + 1 implies demo_unit_planned(
                t2[i],
                t2[i + 1],
                l2[i],
                l2[i + 1],
                ability_ids@,
                i,
            ) by {
                if i < pi {
                    assert(trace[i] == t2[i]);
                    assert(trace[i + 1] == t2[i + 1]);
                }
            }
            trace = t2;
            logs = l2;
        }
        pi += 1;
    }
    proof {
        assert(demo_planned(trace, logs, ability_ids@, b0.player_units@.len() as int));
    }
}

fn push_text(lines: &mut Vec<String>, text: &str)
    ensures
        string_views(final(lines)@) == string_views(old(lines)@).push(text@),
{
    push_line(lines, String::from_str(text));
}

fn find_required_unit<'a>(game_data: &'a GameData, key: &str) -> (r: Result<&'a UnitDef, DemoSetupError>)
    ensures
        match r {
            Ok(u) => first_with_key(game_data.units@, key@) matches Some(k) && *u == game_data.units@[k],
            Err(e) => first_with_key(game_data.units@, key@) is None && (e matches DemoSetupError::MissingUnit(n)
                && n@ == key@),
        },
{
    let k = String::from_str(key);
    match find_by_key(&game_data.units, &k) {
        Some(i) => Ok(&game_data.units[i]),
        None => Err(DemoSetupError::MissingUnit(k)),
    }
}

/// The HP shown for a unit at the start: its base HP with its equipment's HP
/// bonus, at least 1.
pub open spec fn starting_hp_of(pd: PlayerUnitData) -> int {
    let v = pd.base_stats.hp@ + pd.equipment_effects.total_stat_bonus.hp@;
    if v < 1 {
        1
    } else {
        v
    }
}

fn starting_hp(pd: &PlayerUnitData) -> (r: u16)
    ensures
        r == starting_hp_of(*pd),
{
    let v: i32 = pd.base_stats.hp.get() as i32 + pd.equipment_effects.total_stat_bonus.hp.get() as i32;
    if v < 1 {
        1
    } else {
        v as u16
    }
}

/// The enemies a list of an encounter brings, in order: each listed enemy
/// that `enemies` defines (its first definition), as often as listed.
pub open spec fn roster(list: Seq<EncounterEnemy>, enemies: Seq<EnemyDef>) -> Seq<EnemyDef>
    decreases list.len(),
{
    if list.len() == 0 {
        Seq::empty()
    } else {
        roster(list.drop_last(), enemies) + match first_with_key(enemies, list.last().enemy_id@) {
            Some(k) => Seq::new(list.last().count as nat, |j: int| enemies[k]),
            None => Seq::empty(),
        }
    }
}

/// The warning shown for a listed enemy that the game data does not define.
pub open spec fn skip_warning(id: Seq<char>) -> Seq<char> {
    "Warning: encounter enemy '"@ + id + "' not found in game_data, skipping"@
}

/// One warning for each listed enemy that `enemies` does not define, in order.
pub open spec fn skip_warnings(list: Seq<EncounterEnemy>, enemies: Seq<EnemyDef>) -> Seq<Seq<char>>
    decreases list.len(),
{
    if list.len() == 0 {
        Seq::empty()
    } else {
        skip_warnings(list.drop_last(), enemies) + if first_with_key(enemies, list.last().enemy_id@) is None {
            seq![skip_warning(list.last().enemy_id@)]
        } else {
            Seq::empty()
        }
    }
}

/// The enemies of the demo battle: those of encounter "house-02", or without
/// it "mercury-slime" and "earth-scout" (`None` when one of these two is not
/// defined).
pub open spec fn demo_enemy_defs(gd: GameData) -> Option<Seq<EnemyDef>> {
    match first_with_key(gd.encounters@, "house-02"@) {
        Some(e) => Some(roster(gd.encounters@[e].enemies@, gd.enemies@)),
        None => match (first_with_key(gd.enemies@, "mercury-slime"@), first_with_key(gd.enemies@, "earth-scout"@)) {
            (Some(a), Some(b)) => Some(seq![gd.enemies@[a], gd.enemies@[b]]),
            _ => None,
        },
    }
}

/// How many enemies the demo battle brings.
pub open spec fn demo_enemy_count(gd: GameData) -> Option<nat> {
    match demo_enemy_defs(gd) {
        Some(d) => Some(d.len()),
        None => None,
    }
}

/// The warnings about the demo encounter: one for each enemy it lists that
/// the game data does not define.
pub open spec fn demo_warnings(gd: GameData) -> Seq<Seq<char>> {
    match first_with_key(gd.encounters@, "house-02"@) {
        Some(e) => skip_warnings(gd.encounters@[e].enemies@, gd.enemies@),
        None => Seq::empty(),
    }
}

/// `eds` holds the enemies `defs`, in order.
pub open spec fn enemies_of(eds: Seq<EnemyUnitData>, defs: Seq<EnemyDef>) -> bool {
    &&& eds.len() == defs.len()
    &&& forall|i: int| 0 <= i < defs.len() ==> same_enemy_def(defs[i], #[trigger] eds[i].enemy_def)
}

/// The enemies of the demo encounter "house-02", one per listed enemy that
/// the game data defines (a warning for each that it does not); without
/// that encounter, "mercury-slime" and "earth-scout".
fn demo_enemies(game_data: &GameData, warnings: &mut Vec<String>) -> (r: Result<Vec<EnemyUnitData>, DemoSetupError>)
    ensures
        r is Ok <==> (demo_enemy_count(*game_data) matches Some(c) && c > 0),
        r matches Ok(v) ==> (demo_enemy_defs(*game_data) matches Some(d) && enemies_of(v@, d)),
        demo_enemy_count(*game_data) == Some(0nat) ==> r matches Err(DemoSetupError::NoEnemies),
        first_with_key(game_data.encounters@, "house-02"@) is None ==> {
            if first_with_key(game_data.enemies@, "mercury-slime"@) is None {
                r matches Err(DemoSetupError::MissingEnemy(n)) && n@ == "mercury-slime"@
            } else if first_with_key(game_data.enemies@, "earth-scout"@) is None {
                r matches Err(DemoSetupError::MissingEnemy(n)) && n@ == "earth-scout"@
            } else {
                r is Ok
            }
        },
        string_views(final(warnings)@) == string_views(old(warnings)@) + demo_warnings(*game_data),
{
    let mut enemy_data: Vec<EnemyUnitData> = Vec::new();
    let enc_key = String::from_str("house-02");
    let ghost w0 = string_views(warnings@);
    match find_by_key(&game_data.encounters, &enc_key) {
        Some(e) => {
            let enc = &game_data.encounters[e];
            let mut i: usize = 0;
            proof {
                assert(enc.enemies@.take(0) =~= Seq::<EncounterEnemy>::empty());
                assert(w0 + Seq::<Seq<char>>::empty() =~= w0);
            }
            while i < enc.enemies.len()
                invariant
                    i <= enc.enemies@.len(),
                    enemies_of(enemy_data@, roster(enc.enemies@.take(i as int), game_data.enemies@)),
                    string_views(warnings@) == w0 + skip_warnings(enc.enemies@.take(i as int), game_data.enemies@),
                decreases enc.enemies@.len() - i,
            {
                let ghost list = enc.enemies@.take(i + 1);
                let ghost before = roster(enc.enemies@.take(i as int), game_data.enemies@);
                proof {
                    assert(list.drop_last() =~= enc.enemies@.take(i as int));
                    assert(list.last() == enc.enemies@[i as int]);
                }
                let id = &enc.enemies[i].enemy_id;
                match find_by_key(&game_data.enemies, &id.0) {
                    Some(k) => {
                        let count = enc.enemies[i].count;
                        let mut c: u8 = 0;
                        let ghost start = enemy_data@.len();
                        let ghost added = Seq::new(count as nat, |j: int| game_data.enemies@[k as int]);
                        while c < count
                            invariant
                                k < game_data.enemies@.len(),
                                c <= count,
                                start == before.len(),
                                enemy_data@.len() == start + c,
                                forall|j: int| 0 <= j < start ==> same_enemy_def(before[j], #[trigger] enemy_data@[j].enemy_def),
                                forall|j: int| start <= j < start + c ==> same_enemy_def(game_data.enemies@[k as int], #[trigger] enemy_data@[j].enemy_def),
                            decreases count - c,
                        {
                            enemy_data.push(EnemyUnitData { enemy_def: game_data.enemies[k].clone() });
                            c += 1;
                        }
                        proof {
                            assert(roster(list, game_data.enemies@) =~= before + added);
                            assert(skip_warnings(list, game_data.enemies@) =~= skip_warnings(enc.enemies@.take(i as int), game_data.enemies@));
                            assert forall|j: int| 0 <= j < before.len() + added.len() implies same_enemy_def((before + added)[j], #[trigger] enemy_data@[j].enemy_def) by {
                                if j >= before.len() {
                                    assert((before + added)[j] == game_data.enemies@[k as int]);
                                }
                            }
                        }
                    },
                    None => {
                        let mut w = String::from_str("Warning: encounter enemy '");
                        w.append(id.0.as_str());
                        w.append("' not found in game_data, skipping");
                        push_line(warnings, w);
                        proof {
                            assert(roster(list, game_data.enemies@) =~= before);
                            assert(skip_warnings(list, game_data.enemies@) =~= skip_warnings(enc.enemies@.take(i as int), game_data.enemies@).push(
                                skip_warning(id@),
                            ));
                        }
                    },
                }
                i += 1;
            }
            proof {
                assert(enc.enemies@.take(i as int) =~= enc.enemies@);
            }
        },
        None => {
            let slime_key = String::from_str("mercury-slime");
            let slime = match find_by_key(&game_data.enemies, &slime_key) {
                Some(k) => k,
                None => {
                    proof {
                        assert(w0 + Seq::<Seq<char>>::empty() =~= w0);
                    }
                    return Err(DemoSetupError::MissingEnemy(slime_key));
                },
            };
            let scout_key = String::from_str("earth-scout");
            let scout = match find_by_key(&game_data.enemies, &scout_key) {
                Some(k) => k,
                None => {
                    proof {
                        assert(w0 + Seq::<Seq<char>>::empty() =~= w0);
                    }
                    return Err(DemoSetupError::MissingEnemy(scout_key));
                },
            };
            enemy_data.push(EnemyUnitData { enemy_def: game_data.enemies[slime].clone() });
            enemy_data.push(EnemyUnitData { enemy_def: game_data.enemies[scout].clone() });
            proof {
                assert(w0 + Seq::<Seq<char>>::empty() =~= w0);
            }
        },
    }
    if enemy_data.len() == 0 {
        return Err(DemoSetupError::NoEnemies);
    }
    Ok(enemy_data)
}

fn push_lines(lines: &mut Vec<String>, more: Vec<String>)
    ensures
        final(lines)@ == old(lines)@ + more@,
{
    let mut more = more;
    lines.append(&mut more);
}

/// How one enemy is listed at the start: its id and maximum HP.
pub open spec fn enemy_entry(u: BattleUnitFull) -> Seq<char> {
    " "@ + u.unit.id@ + " (HP:"@ + decimal(u.unit.stats.hp@ as nat) + ")"@
}

/// The line that lists the enemies at the start, in order.
pub open spec fn enemies_text(units: Seq<BattleUnitFull>) -> Seq<char>
    decreases units.len(),
{
    if units.len() == 0 {
        "Enemies:"@
    } else {
        enemies_text(units.drop_last()) + enemy_entry(units.last())
    }
}

fn enemies_line(battle: &Battle) -> (r: String)
    ensures
        r@ == enemies_text(battle.enemies@),
{
    let mut line = String::from_str("Enemies:");
    let mut i: usize = 0;
    proof {
        assert(battle.enemies@.take(0) =~= Seq::<BattleUnitFull>::empty());
    }
    while i < battle.enemies.len()
        invariant
            i <= battle.enemies@.len(),
            line@ == enemies_text(battle.enemies@.take(i as int)),
        decreases battle.enemies@.len() - i,
    {
        proof {
            assert(battle.enemies@.take(i + 1).drop_last() =~= battle.enemies@.take(i as int));
        }
        line.append(" ");
        line.append(battle.enemies[i].unit.id.as_str());
        line.append(" (HP:");
        append_decimal(&mut line, battle.enemies[i].unit.stats.hp.get() as u32);
        line.append(")");
        i += 1;
        proof {
            assert(line@ =~= enemies_text(battle.enemies@.take(i as int)));
        }
    }
    proof {
        assert(battle.enemies@.take(i as int) =~= battle.enemies@);
    }
    line
}

/// The lines shown for a round's events, in order, each indented.
pub open spec fn event_lines(b: Battle, events: Seq<BattleEvent>) -> Seq<Seq<char>> {
    events.map_values(|e: BattleEvent| "  "@ + event_text(b, e))
}

/// One round of the demo battle from `a` to `b`, its lines going from `la`
/// to `lb`: the party plans (see `demo_unit_planned`), announcing its
/// abilities, the enemies plan their attacks, and the round is played; then
/// each event of the round is shown, the state of both sides, and a blank
/// line.
pub open spec fn demo_round(a: Battle, b: Battle, ids: Seq<Option<AbilityId>>, la: Seq<Seq<char>>, lb: Seq<Seq<char>>) -> bool {
    exists|m1: Battle, m2: Battle, trace: Seq<Battle>, logs: Seq<Seq<Seq<char>>>, events: Seq<BattleEvent>|
        #![trigger demo_planned(trace, logs, ids, a.player_units@.len() as int), enemies_planned(m1, m2), round_played(m2, b, events)]
        {
            &&& demo_planned(trace, logs, ids, a.player_units@.len() as int)
            &&& trace[0] == a
            &&& logs[0] == la
            &&& trace.last() == m1
            &&& enemies_planned(m1, m2)
            &&& round_played(m2, b, events)
            &&& lb == logs.last() + event_lines(b, events) + battle_state_text(b) + seq![""@]
        }
}

/// The line naming the demo party: each unit's id, starting HP and gear.
pub open spec fn party_line(gd: GameData, pa: PlayerUnitData, pb: PlayerUnitData) -> Seq<char> {
    "Party: "@ + unit_gear_text(
        pa.id@,
        starting_hp_of(pa) as u16,
        pa.equipment,
        pa.djinn_slots.slots@,
        gd.equipment@,
        gd.djinn@,
    ) + " + "@ + unit_gear_text(pb.id@, starting_hp_of(pb) as u16, pb.equipment, pb.djinn_slots.slots@, gd.equipment@, gd.djinn@)
}

/// The demo battle's start on `gd`: `b` is the battle made of the Adept
/// (bronze sword, leather vest, djinn Flint) as `pa`, Blaze (wooden axe,
/// leather vest, djinn Forge) as `pb`, the demo's enemies as `eds`, the game's
/// rules, and copies of its abilities and djinn; `text` is the opening: a
/// blank line, the banner, the party, the enemies, a blank line.
pub open spec fn demo_setup(gd: GameData, b: Battle, text: Seq<Seq<char>>, pa: PlayerUnitData, pb: PlayerUnitData, eds: Seq<EnemyUnitData>) -> bool {
    &&& player_unit_built(pa, unit_named(gd, "adept"@), "bronze-sword"@, "leather-vest"@, "flint"@, gd)
    &&& player_unit_built(pb, unit_named(gd, "blaze"@), "wooden-axe"@, "leather-vest"@, "forge"@, gd)
    &&& demo_enemy_defs(gd) matches Some(d) && enemies_of(eds, d)
    &&& b.ability_defs@.len() == gd.abilities@.len()
    &&& forall|i: int| 0 <= i < gd.abilities@.len() ==> cloned::<AbilityDef>(gd.abilities@[i], #[trigger] b.ability_defs@[i])
    &&& b.djinn_defs@.len() == gd.djinn@.len()
    &&& forall|i: int| 0 <= i < gd.djinn@.len() ==> cloned::<DjinnDef>(gd.djinn@[i], #[trigger] b.djinn_defs@[i])
    &&& new_battle_made(b, seq![pa, pb], eds, gd.config, b.ability_defs@, b.djinn_defs@)
    &&& text == seq![""@, "=== BATTLE START ==="@, party_line(gd, pa, pb), enemies_text(b.enemies@), ""@]
}

/// The lines that close the demo battle ending in `b`: its outcome, or the
/// stalemate after a blank line.
pub open spec fn demo_ending(b: Battle) -> Seq<Seq<char>> {
    match battle_outcome(b) {
        Some(BattleResult::Victory { .. }) => seq!["=== VICTORY ==="@],
        Some(BattleResult::Defeat) => seq!["=== DEFEAT — your party has fallen ==="@],
        None => seq![""@, "*** STALEMATE after 20 rounds ***"@],
    }
}

/// The unit definition the game data holds under `key`.
pub open spec fn unit_named(gd: GameData, key: Seq<char>) -> UnitDef {
    gd.units@[first_with_key(gd.units@, key).unwrap()]
}

/// Both sides' HP can be shown: no unit stands above its maximum.
pub open spec fn hp_shown(b: Battle) -> bool {
    hp_within_max(b.player_units@) && hp_within_max(b.enemies@)
}

/// `rounds` is the demo battle on `gd` round by round, from its start, with
/// `ids` the abilities the two party members use, and `texts` the lines shown
/// by the end of each round.
#[verifier::opaque]
pub open spec fn demo_trace(gd: GameData, ids: Seq<Option<AbilityId>>, rounds: Seq<Battle>, texts: Seq<Seq<Seq<char>>>) -> bool {
    &&& ids.len() == 2
    &&& first_psynergy(unit_named(gd, "adept"@), gd.abilities@, ids[0])
    &&& first_psynergy(unit_named(gd, "blaze"@), gd.abilities@, ids[1])
    &&& rounds.len() >= 1
    &&& texts.len() == rounds.len()
    &&& exists|pa: PlayerUnitData, pb: PlayerUnitData, eds: Seq<EnemyUnitData>| #[trigger] demo_setup(gd, rounds[0], texts[0], pa, pb, eds)
    &&& forall|i: int| #![trigger rounds[i]] 0 <= i < rounds.len() - 1 ==> demo_round(rounds[i], rounds[i + 1], ids, texts[i], texts[i + 1])
}

/// Every round played in `rounds` ended with HP that can be shown, but
/// perhaps the last `skip` ones.
pub open spec fn rounds_shown(rounds: Seq<Battle>, skip: int) -> bool {
    forall|i: int| #![trigger rounds[i]] 1 <= i < rounds.len() - skip ==> hp_shown(rounds[i])
}

/// The demo's enemies resolve and number more than 255.
pub open spec fn demo_enemies_over(gd: GameData) -> bool {
    demo_enemy_count(gd) matches Some(c) && c > 255
}

/// The demo's enemies resolve and number 1 to 255.
pub open spec fn demo_enemies_fit(gd: GameData) -> bool {
    demo_enemy_count(gd) matches Some(c) && 0 < c <= 255
}

/// The demo battle can be set up once its two units are found: its enemies
/// resolve and there are 1 to 255 of them.
pub open spec fn demo_can_start(gd: GameData) -> bool {
    demo_enemies_fit(gd)
}

/// Sets up the demo battle with the party `adept` and `blaze`: the battle,
/// with the opening lines, and the warnings about its encounter.
fn start_demo(
    game_data: &GameData,
    adept: &UnitDef,
    blaze: &UnitDef,
    warnings: &mut Vec<String>,
) -> (r: Result<(Battle, Vec<String>), DemoSetupError>)
    requires
        first_with_key(game_data.units@, "adept"@) is Some,
        first_with_key(game_data.units@, "blaze"@) is Some,
        *adept == unit_named(*game_data, "adept"@),
        *blaze == unit_named(*game_data, "blaze"@),
    ensures
        r is Ok <==> demo_can_start(*game_data),
        !(r matches Err(DemoSetupError::HpAboveMaximum)),
        demo_enemy_count(*game_data) == Some(0nat) ==> (r matches Err(DemoSetupError::NoEnemies)),
        demo_enemies_over(*game_data) ==> (r matches Err(DemoSetupError::TooManyEnemies)),
        string_views(final(warnings)@) == string_views(old(warnings)@) + demo_warnings(*game_data),
        r matches Ok(p) ==> exists|pa: PlayerUnitData, pb: PlayerUnitData, eds: Seq<EnemyUnitData>| #[trigger] demo_setup(
            *game_data,
            p.0,
            string_views(p.1@),
            pa,
            pb,
            eds,
        ),
        r matches Ok(p) ==> p.0.wf(),
        r matches Ok(p) ==> rewards_bounded(p.0.enemies@),
{
    let adept_data = build_player_unit(adept, "bronze-sword", "leather-vest", "flint", game_data);
    let blaze_data = build_player_unit(blaze, "wooden-axe", "leather-vest", "forge", game_data);
    let adept_gear = format_unit_gear(
        adept_data.id.as_str(),
        starting_hp(&adept_data),
        &adept_data.equipment,
        &adept_data.djinn_slots,
        game_data,
    );
    let blaze_gear = format_unit_gear(
        blaze_data.id.as_str(),
        starting_hp(&blaze_data),
        &blaze_data.equipment,
        &blaze_data.djinn_slots,
        game_data,
    );
    let enemy_data = demo_enemies(game_data, warnings)?;
    if enemy_data.len() > 255 {
        return Err(DemoSetupError::TooManyEnemies);
    }
    let mut i: usize = 0;
    while i < enemy_data.len()
        invariant
            i <= enemy_data@.len(),
            forall|j: int| 0 <= j < i ==> #[trigger] enemy_data@[j].enemy_def.xp@ <= 9999999
                && enemy_data@[j].enemy_def.gold@ <= 9999999,
        decreases enemy_data@.len() - i,
    {
        let _ = enemy_data[i].enemy_def.xp.get();
        let _ = enemy_data[i].enemy_def.gold.get();
        i += 1;
    }
    let ghost pa = adept_data;
    let ghost pb = blaze_data;
    let mut player_data: Vec<PlayerUnitData> = Vec::new();
    player_data.push(adept_data);
    player_data.push(blaze_data);
    assert(player_data@ =~= seq![pa, pb]);
    let ghost enemies_in = enemy_data@;
    let defs = game_data.abilities.clone();
    let djinn = game_data.djinn.clone();
    let battle = new_battle(player_data, enemy_data, game_data.config, defs, djinn);
    proof {
        assert forall|j: int| 0 <= j < battle.enemies@.len() implies (#[trigger] battle.enemies@[j]).reward_xp
            <= 9999999 && battle.enemies@[j].reward_gold <= 9999999 by {
            assert(crate::domains::battle_engine::enemy_unit_ok(battle.enemies@[j], enemies_in[j]));
            assert(enemies_in[j].enemy_def.xp@ <= 9999999);
        }
    }
    let mut lines: Vec<String> = Vec::new();
    push_text(&mut lines, "");
    push_text(&mut lines, "=== BATTLE START ===");
    let mut party = String::from_str("Party: ");
    party.append(adept_gear.as_str());
    party.append(" + ");
    party.append(blaze_gear.as_str());
    push_line(&mut lines, party);
    push_line(&mut lines, enemies_line(&battle));
    push_text(&mut lines, "");
    proof {
        assert(battle.wf());
        assert(rewards_bounded(battle.enemies@));
        assert(player_unit_built(pa, unit_named(*game_data, "adept"@), "bronze-sword"@, "leather-vest"@, "flint"@, *game_data));
        assert(player_unit_built(pb, unit_named(*game_data, "blaze"@), "wooden-axe"@, "leather-vest"@, "forge"@, *game_data));
        assert(demo_enemy_defs(*game_data) matches Some(d) && enemies_of(enemies_in, d));
        assert(forall|i: int| 0 <= i < game_data.abilities@.len() ==> cloned::<AbilityDef>(game_data.abilities@[i], #[trigger] battle.ability_defs@[i]));
        assert(forall|i: int| 0 <= i < game_data.djinn@.len() ==> cloned::<DjinnDef>(game_data.djinn@[i], #[trigger] battle.djinn_defs@[i]));
        assert(new_battle_made(battle, seq![pa, pb], enemies_in, game_data.config, battle.ability_defs@, battle.djinn_defs@));
        assert(party@ =~= party_line(*game_data, pa, pb));
        assert(string_views(lines@) =~= seq![""@, "=== BATTLE START ==="@, party_line(*game_data, pa, pb), enemies_text(battle.enemies@), ""@]);
        assert(demo_setup(*game_data, battle, string_views(lines@), pa, pb, enemies_in));
    }
    let r = Ok((battle, lines));
    assert(r matches Ok(p) && demo_setup(*game_data, p.0, string_views(p.1@), pa, pb, enemies_in));
    r
}

/// Plays one round of the demo battle and adds its lines, unless a unit ends
/// the round above its maximum HP (`false`, lines left as they were after the
/// events).
#[verifier::rlimit(60)]
fn play_demo_round(battle: &mut Battle, ability_ids: &Vec<Option<AbilityId>>, lines: &mut Vec<String>) -> (shown: bool)
    requires
        old(battle).wf(),
        old(battle).round <= STALEMATE_ROUND,
        rewards_bounded(old(battle).enemies@),
    ensures
        final(battle).wf(),
        final(battle).round == old(battle).round + 1,
        rewards_bounded(final(battle).enemies@),
        shown == hp_shown(*final(battle)),
        exists|t: Seq<Seq<char>>|
            #[trigger] demo_round(*old(battle), *final(battle), ability_ids@, string_views(old(lines)@), t) && (shown
                ==> string_views(final(lines)@) == t),
{
    let ghost round_start = *battle;
    let ghost lines_start = string_views(lines@);
    plan_demo_players(battle, ability_ids, lines);
    let ghost m1 = *battle;
    let ghost planned = string_views(lines@);
    plan_enemy_actions(battle);
    let ghost before_exec = *battle;
    let events = execute_round(battle);
    proof {
        lemma_same_roster_rewards(before_exec.enemies@, battle.enemies@);
    }
    let mut k: usize = 0;
    while k < events.len()
        invariant
            k <= events@.len(),
            string_views(lines@) == planned + event_lines(*battle, events@.take(k as int)),
        decreases events@.len() - k,
    {
        let mut line = String::from_str("  ");
        let text = format_event(&events[k], battle);
        line.append(text.as_str());
        push_line(lines, line);
        proof {
            assert(event_lines(*battle, events@.take(k + 1)) =~= event_lines(*battle, events@.take(k as int)).push(
                "  "@ + event_text(*battle, events@[k as int]),
            ));
        }
        k += 1;
    }
    let ghost t = planned + event_lines(*battle, events@) + battle_state_text(*battle) + seq![""@];
    proof {
        assert(events@.take(events@.len() as int) =~= events@);
        let (tr, lg) = choose|trace: Seq<Battle>, logs: Seq<Seq<Seq<char>>>|
            {
                &&& #[trigger] demo_planned(trace, logs, ability_ids@, round_start.player_units@.len() as int)
                &&& trace[0] == round_start
                &&& logs[0] == lines_start
                &&& trace.last() == m1
                &&& logs.last() == planned
            };
        assert(demo_planned(tr, lg, ability_ids@, round_start.player_units@.len() as int));
        assert(enemies_planned(m1, before_exec));
        assert(round_played(before_exec, *battle, events@));
        assert(demo_round(round_start, *battle, ability_ids@, lines_start, t));
    }
    if !all_hp_within_max(&battle.player_units) || !all_hp_within_max(&battle.enemies) {
        return false;
    }
    push_lines(lines, battle_state_lines(battle));
    push_text(lines, "");
    proof {
        assert(string_views(lines@) =~= t);
    }
    true
}

/// A trace of the demo battle grows by each round played.
proof fn lemma_trace_grows(
    gd: GameData,
    ids: Seq<Option<AbilityId>>,
    rounds: Seq<Battle>,
    texts: Seq<Seq<Seq<char>>>,
    b: Battle,
    t: Seq<Seq<char>>,
)
    requires
        demo_trace(gd, ids, rounds, texts),
        rounds_shown(rounds, 0),
        demo_round(rounds.last(), b, ids, texts.last(), t),
    ensures
        demo_trace(gd, ids, rounds.push(b), texts.push(t)),
        rounds_shown(rounds.push(b), 1),
{
    reveal(demo_trace);
    let r2 = rounds.push(b);
    let t2 = texts.push(t);
    assert forall|i: int| #![trigger r2[i]] 0 <= i < r2.len() - 1 implies demo_round(r2[i], r2[i + 1], ids, t2[i], t2[i + 1]) by {
        if i < rounds.len() - 1 {
            assert(rounds[i] == r2[i]);
            assert(rounds[i + 1] == r2[i + 1]);
            assert(texts[i] == t2[i]);
            assert(texts[i + 1] == t2[i + 1]);
        }
    }
    assert forall|i: int| #![trigger r2[i]] 1 <= i < r2.len() - 1 implies hp_shown(r2[i]) by {
        assert(r2[i] == rounds[i]);
    }
    let (pa, pb, eds) = choose|pa: PlayerUnitData, pb: PlayerUnitData, eds: Seq<EnemyUnitData>|
        #[trigger] demo_setup(gd, rounds[0], texts[0], pa, pb, eds);
    assert(demo_setup(gd, r2[0], t2[0], pa, pb, eds));
}

/// Plays the demo battle on the game data: the Adept (bronze sword, leather
/// vest, djinn Flint) and Blaze (wooden axe, leather vest, djinn Forge)
/// against the enemies of encounter "house-02". Each round the party attacks
/// the first enemy up, using abilities every third round (see
/// `plan_demo_players`), the enemies attack the first party member up, and the
/// round is played out, its events and the state of both sides shown. The battle ends with its outcome, or as a defeat by
/// stalemate when it reaches round 21.
#[verifier::rlimit(60)]
pub fn demo_battle(game_data: &GameData) -> (r: Result<DemoRun, DemoSetupError>)
    ensures
        first_with_key(game_data.units@, "adept"@) is None ==> (r matches Err(DemoSetupError::MissingUnit(n))
            && n@ == "adept"@),
        first_with_key(game_data.units@, "adept"@) is Some && first_with_key(game_data.units@, "blaze"@) is None
            ==> (r matches Err(DemoSetupError::MissingUnit(n)) && n@ == "blaze"@),
        first_with_key(game_data.units@, "adept"@) is Some && first_with_key(game_data.units@, "blaze"@) is Some ==> {
            &&& (r is Ok || r matches Err(DemoSetupError::HpAboveMaximum)) <==> demo_can_start(*game_data)
            &&& demo_enemy_count(*game_data) == Some(0nat) ==> (r matches Err(DemoSetupError::NoEnemies))
            &&& demo_enemies_over(*game_data) ==> (r matches Err(DemoSetupError::TooManyEnemies))
        },
        r matches Ok(run) ==> exists|ids: Seq<Option<AbilityId>>, rounds: Seq<Battle>, texts: Seq<Seq<Seq<char>>>|
            #![trigger demo_trace(*game_data, ids, rounds, texts)]
            {
                &&& demo_trace(*game_data, ids, rounds, texts)
                &&& rounds.last() == run.battle
                &&& rounds_shown(rounds, 0)
                &&& string_views(run.lines@) == texts.last() + demo_ending(run.battle)
            },
        r matches Ok(run) ==> string_views(run.warnings@) == demo_warnings(*game_data),
        r matches Err(DemoSetupError::HpAboveMaximum) ==> exists|
            ids: Seq<Option<AbilityId>>,
            rounds: Seq<Battle>,
            texts: Seq<Seq<Seq<char>>>,
        |
            #![trigger demo_trace(*game_data, ids, rounds, texts)]
            {
                &&& demo_trace(*game_data, ids, rounds, texts)
                &&& rounds.len() >= 2
                &&& rounds_shown(rounds, 1)
                &&& !hp_shown(rounds.last())
            },
        r matches Ok(run) ==> {
            ||| battle_outcome(run.battle) == Some(run.result) && run.battle.round <= STALEMATE_ROUND + 1
            ||| run.battle.round == STALEMATE_ROUND + 1 && battle_outcome(run.battle) is None && run.result
                == BattleResult::Defeat
        },
{
    let adept = find_required_unit(game_data, "adept")?;
    let blaze = find_required_unit(game_data, "blaze")?;
    let adept_ability = find_first_psynergy_ability(adept, game_data);
    let blaze_ability = find_first_psynergy_ability(blaze, game_data);
    let mut warnings: Vec<String> = Vec::new();
    proof {
        assert(string_views(warnings@) =~= Seq::<Seq<char>>::empty());
    }
    let (mut battle, mut lines) = start_demo(game_data, adept, blaze, &mut warnings)?;
    let mut ability_ids: Vec<Option<AbilityId>> = Vec::new();
    ability_ids.push(adept_ability);
    ability_ids.push(blaze_ability);
    let ghost mut rounds: Seq<Battle> = seq![battle];
    let ghost mut texts: Seq<Seq<Seq<char>>> = seq![string_views(lines@)];
    proof {
        let (pa, pb, eds) = choose|pa: PlayerUnitData, pb: PlayerUnitData, eds: Seq<EnemyUnitData>|
            #[trigger] demo_setup(*game_data, battle, string_views(lines@), pa, pb, eds);
        assert(demo_setup(*game_data, rounds[0], texts[0], pa, pb, eds));
        reveal(demo_trace);
        assert(demo_trace(*game_data, ability_ids@, rounds, texts));
    }
    loop
        invariant
            battle.wf(),
            battle.round <= STALEMATE_ROUND + 1,
            rewards_bounded(battle.enemies@),
            battle.round > STALEMATE_ROUND ==> battle_outcome(battle) is None,
            demo_can_start(*game_data),
            first_with_key(game_data.units@, "adept"@) is Some,
            first_with_key(game_data.units@, "blaze"@) is Some,
            string_views(warnings@) == demo_warnings(*game_data),
            demo_trace(*game_data, ability_ids@, rounds, texts),
            rounds.len() >= 1,
            texts.len() == rounds.len(),
            rounds.last() == battle,
            texts.last() == string_views(lines@),
            rounds_shown(rounds, 0),
        decreases STALEMATE_ROUND + 1 - battle.round,
    {
        if battle.round > STALEMATE_ROUND {
            push_text(&mut lines, "");
            push_text(&mut lines, "*** STALEMATE after 20 rounds ***");
            proof {
                assert(string_views(lines@) =~= texts.last() + demo_ending(battle));
            }
            return Ok(DemoRun { result: BattleResult::Defeat, battle, lines, warnings });
        }
        let ghost b0 = battle;
        let ghost l0 = string_views(lines@);
        let shown = play_demo_round(&mut battle, &ability_ids, &mut lines);
        proof {
            let t = choose|t: Seq<Seq<char>>|
                #[trigger] demo_round(b0, battle, ability_ids@, l0, t) && (shown ==> string_views(lines@) == t);
            lemma_trace_grows(*game_data, ability_ids@, rounds, texts, battle, t);
            rounds = rounds.push(battle);
            texts = texts.push(t);
        }
        if !shown {
            return Err(DemoSetupError::HpAboveMaximum);
        }
        proof {
            assert forall|i: int| #![trigger rounds[i]] 1 <= i < rounds.len() implies hp_shown(rounds[i]) by {
                if i == rounds.len() - 1 {
                    assert(rounds[i] == battle);
                }
            }
            lemma_total_rewards_bounded(battle.enemies@);
        }
        if let Some(result) = check_battle_end(&battle) {
            match result {
                BattleResult::Victory { .. } => push_text(&mut lines, "=== VICTORY ==="),
                BattleResult::Defeat => push_text(&mut lines, "=== DEFEAT — your party has fallen ==="),
            }
            proof {
                assert(string_views(lines@) =~= texts.last() + demo_ending(battle));
            }
            return Ok(DemoRun { result, battle, lines, warnings });
        }
    }
}

/// How many enemies an encounter's list holds in all.
pub open spec fn enemy_total(s: Seq<EncounterEnemy>) -> nat
    decreases s.len(),
{
    if s.len() == 0 {
        0
    } else {
        enemy_total(s.drop_last()) + s.last().count as nat
    }
}

/// A battle for pictures of the battle screen: the Adept (bronze sword,
/// leather vest) and Blaze (wooden axe, leather vest), sharing the djinn Flint
/// and Forge where the game data defines them, against the enemies of
/// encounter `encounter_id`, each as often as the encounter lists it.
pub fn build_demo_battle(game_data: &GameData, encounter_id: &str) -> (r: Result<Battle, DemoSetupError>)
    ensures
        first_with_key(game_data.units@, "adept"@) is None ==> (r matches Err(DemoSetupError::MissingUnit(n))
            && n@ == "adept"@),
        first_with_key(game_data.units@, "adept"@) is Some && first_with_key(game_data.units@, "blaze"@) is None
            ==> (r matches Err(DemoSetupError::MissingUnit(n)) && n@ == "blaze"@),
        first_with_key(game_data.units@, "adept"@) is Some && first_with_key(game_data.units@, "blaze"@) is Some
            && first_with_key(game_data.encounters@, encounter_id@) is None ==> (r matches Err(
            DemoSetupError::MissingEncounter(n),
        ) && n@ == encounter_id@),
        r matches Ok(b) ==> ({
            &&& b.round == 1
            &&& b.player_units@.len() == 2
            &&& first_with_key(game_data.encounters@, encounter_id@) matches Some(k)
                && b.enemies@.len() == enemy_total(game_data.encounters@[k].enemies@)
            &&& b.wf()
        }),
{
    let adept = find_required_unit(game_data, "adept")?;
    let blaze = find_required_unit(game_data, "blaze")?;
    let adept_data = geared_unit(adept, "bronze-sword", "leather-vest", game_data);
    let blaze_data = geared_unit(blaze, "wooden-axe", "leather-vest", game_data);
    let mut team_djinn = DjinnSlots::new();
    let flint = String::from_str("flint");
    if find_by_key(&game_data.djinn, &flint).is_some() {
        team_djinn.add(DjinnId(flint));
    }
    let forge = String::from_str("forge");
    if find_by_key(&game_data.djinn, &forge).is_some() {
        team_djinn.add(DjinnId(forge));
    }
    let enc_key = String::from_str(encounter_id);
    let e = match find_by_key(&game_data.encounters, &enc_key) {
        Some(e) => e,
        None => {
            return Err(DemoSetupError::MissingEncounter(enc_key));
        },
    };
    let enc = &game_data.encounters[e];
    let mut enemy_data: Vec<EnemyUnitData> = Vec::new();
    let mut i: usize = 0;
    while i < enc.enemies.len()
        invariant
            i <= enc.enemies@.len(),
            enemy_data@.len() == enemy_total(enc.enemies@.take(i as int)),
            enemy_data@.len() <= 255,
            first_with_key(game_data.units@, "adept"@) is Some,
            first_with_key(game_data.units@, "blaze"@) is Some,
            first_with_key(game_data.encounters@, encounter_id@) == Some(e as int),
            *enc == game_data.encounters@[e as int],
        decreases enc.enemies@.len() - i,
    {
        assert(enc.enemies@.take(i + 1).drop_last() =~= enc.enemies@.take(i as int));
        let id = &enc.enemies[i].enemy_id;
        let count = enc.enemies[i].count;
        let k = match find_by_key(&game_data.enemies, &id.0) {
            Some(k) => k,
            None => {
                return Err(DemoSetupError::MissingEnemy(id.0.clone()));
            },
        };
        if count as usize > 255 - enemy_data.len() {
            return Err(DemoSetupError::TooManyEnemies);
        }
        let ghost before = enemy_data@.len();
        let mut c: u8 = 0;
        while c < count
            invariant
                c <= count,
                enemy_data@.len() == before + c,
                before + count <= 255,
                k < game_data.enemies@.len(),
            decreases count - c,
        {
            enemy_data.push(EnemyUnitData { enemy_def: game_data.enemies[k].clone() });
            c += 1;
        }
        i += 1;
    }
    assert(enc.enemies@.take(enc.enemies@.len() as int) =~= enc.enemies@);
    let mut player_data: Vec<PlayerUnitData> = Vec::new();
    player_data.push(adept_data);
    player_data.push(blaze_data);
    let mut battle = new_battle(
        player_data,
        enemy_data,
        game_data.config,
        game_data.abilities.clone(),
        game_data.djinn.clone(),
    );
    set_team_djinn_slots(&mut battle, team_djinn);
    Ok(battle)
}

} // verus!

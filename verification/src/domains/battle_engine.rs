//! The battle loop: units of both sides with their statuses, djinn and
//! equipment; planning actions; executing a round; deciding the outcome.
//!
//! Definitions are looked up by id; where a list holds an id twice, the first
//! definition counts.
use vstd::prelude::*;

use crate::domains::ai::{self, AiSelfView, AiStrategy, AiUnitView};
use crate::domains::combat::{self, BattleUnit, ManaPool};
use crate::domains::damage_mods;
use crate::domains::djinn::{self, DjinnInstance, DjinnSlots};
use crate::domains::equipment::{EquipmentEffects, EquipmentLoadout};
use crate::domains::status::{self, ActiveStatus, UnitStatusState};
use crate::shared::bounded_types::{BaseStat, Hp, StatMod};
use crate::shared::{
    AbilityCategory, AbilityDef, AbilityId, BattleAction, BattlePhase, BonusTotals, BuffEffect, CombatConfig,
    DamageDealt, DamageType, DjinnDef, DjinnId, DjinnState, DjinnStateChanged, EnemyDef,
    HealingDone, ManaPoolChanged, Side, StatBonus, Stats, StatusApplied, StatusEffect,
    StatusEffectType, TargetRef, UnitDefeated, zero_totals,
};

verus! {

// ── Units, battle, events ───────────────────────────────────────────

/// A unit in battle with everything in effect on it.
#[derive(Debug)]
pub struct BattleUnitFull {
    pub unit: BattleUnit,
    pub status_state: UnitStatusState,
    pub djinn_slots: DjinnSlots,
    pub equipment: EquipmentLoadout,
    pub mana_contribution: u8,
    /// Abilities the unit can use (enemies).
    pub ability_ids: Vec<AbilityId>,
    /// Extra hits of an auto-attack from equipment.
    pub hit_count_bonus: u8,
    /// Rewards for defeating the unit (enemies).
    pub reward_xp: u32,
    pub reward_gold: u32,
}

#[derive(Debug)]
pub struct Battle {
    pub round: u32,
    pub phase: BattlePhase,
    pub player_units: Vec<BattleUnitFull>,
    pub enemies: Vec<BattleUnitFull>,
    pub team_djinn_slots: DjinnSlots,
    pub mana_pool: ManaPool,
    pub planned_actions: Vec<(TargetRef, BattleAction)>,
    pub log: Vec<BattleEvent>,
    pub config: CombatConfig,
    pub ability_defs: Vec<AbilityDef>,
    pub djinn_defs: Vec<DjinnDef>,
}

#[derive(Debug, Clone)]
pub enum BattleEvent {
    DamageDealt(DamageDealt),
    HealingDone(HealingDone),
    StatusApplied(StatusApplied),
    CritTriggered(TargetRef, u8),
    BarrierBlocked(TargetRef),
    DjinnChanged(DjinnStateChanged),
    ManaChanged(ManaPoolChanged),
    UnitDefeated(UnitDefeated),
    RoundStarted(u32),
    RoundEnded(u32),
    /// An enemy uses a named ability (for display).
    EnemyAbilityUsed { actor: TargetRef, ability_name: String, targets: Vec<TargetRef> },
}

#[derive(Debug, Clone, Copy, PartialEq, Eq, Structural)]
pub enum BattleResult {
    Victory { xp: u32, gold: u32 },
    Defeat,
}

#[derive(Debug, Clone, Copy, PartialEq, Eq, Structural)]
pub enum PlanError {
    UnitCannotAct,
    InsufficientMana,
    InvalidTarget,
    DjinnNotReady,
    InvalidDjinnIndex,
}

/// What a player unit brings into battle.
#[derive(Debug)]
pub struct PlayerUnitData {
    pub id: String,
    pub base_stats: Stats,
    pub equipment: EquipmentLoadout,
    pub djinn_slots: DjinnSlots,
    pub mana_contribution: u8,
    pub equipment_effects: EquipmentEffects,
}

#[derive(Debug)]
pub struct EnemyUnitData {
    pub enemy_def: EnemyDef,
}

// ── Invariants ──────────────────────────────────────────────────────

/// Alive exactly while HP is left, crit counter below its ceiling. (HP may
/// stand above the maximum: a revive can restore more than full HP.)
pub open spec fn unit_wf(u: BattleUnitFull) -> bool {
    &&& (u.unit.is_alive <==> u.unit.current_hp > 0)
    &&& u.unit.crit_counter < 255
}

pub open spec fn units_wf(units: Seq<BattleUnitFull>) -> bool {
    &&& units.len() <= 255
    &&& forall|i: int| 0 <= i < units.len() ==> unit_wf(#[trigger] units[i])
}

impl Battle {
    /// Both sides fit their indices and every unit is consistent.
    pub open spec fn wf(&self) -> bool {
        &&& units_wf(self.player_units@)
        &&& units_wf(self.enemies@)
        &&& self.mana_pool.current_mana <= self.mana_pool.max_mana
    }
}

pub open spec fn side_units(b: Battle, side: Side) -> Seq<BattleUnitFull> {
    match side {
        Side::Player => b.player_units@,
        Side::Enemy => b.enemies@,
    }
}

/// The unit a reference points to, if any.
pub open spec fn unit_at(b: Battle, r: TargetRef) -> Option<BattleUnitFull> {
    if (r.index as int) < side_units(b, r.side).len() {
        Some(side_units(b, r.side)[r.index as int])
    } else {
        None
    }
}

pub open spec fn is_alive_at(b: Battle, r: TargetRef) -> bool {
    unit_at(b, r) matches Some(u) && u.unit.is_alive
}

// ── Building a battle ───────────────────────────────────────────────

/// A base statistic with a bonus, kept within `[lo, 9999]`.
pub open spec fn bounded_stat(base: int, bonus: int, lo: int) -> int {
    let v = base + bonus;
    if v < lo {
        lo
    } else if v > 9999 {
        9999
    } else {
        v
    }
}

/// `s` is `base` with `bonus` added (HP at least 1, the others at least 0).
pub open spec fn boosted_stats(s: Stats, base: Stats, bonus: StatBonus) -> bool {
    &&& s.hp@ == bounded_stat(base.hp@ as int, bonus.hp@ as int, 1)
    &&& s.atk@ == bounded_stat(base.atk@ as int, bonus.atk@ as int, 0)
    &&& s.def@ == bounded_stat(base.def@ as int, bonus.def@ as int, 0)
    &&& s.mag@ == bounded_stat(base.mag@ as int, bonus.mag@ as int, 0)
    &&& s.spd@ == bounded_stat(base.spd@ as int, bonus.spd@ as int, 0)
}

fn bounded_value(base: u16, bonus: StatMod, lo: i32) -> (r: u16)
    requires
        0 <= lo <= 9999,
    ensures
        r == bounded_stat(base as int, bonus@ as int, lo as int),
{
    let v: i32 = base as i32 + bonus.get() as i32;
    if v < lo {
        lo as u16
    } else if v > 9999 {
        9999
    } else {
        v as u16
    }
}

fn boost_stats(base: &Stats, bonus: &StatBonus) -> (s: Stats)
    ensures
        boosted_stats(s, *base, *bonus),
{
    Stats {
        hp: Hp::new_unchecked(bounded_value(base.hp.get(), bonus.hp, 1)),
        atk: BaseStat::new_unchecked(bounded_value(base.atk.get(), bonus.atk, 0)),
        def: BaseStat::new_unchecked(bounded_value(base.def.get(), bonus.def, 0)),
        mag: BaseStat::new_unchecked(bounded_value(base.mag.get(), bonus.mag, 0)),
        spd: BaseStat::new_unchecked(bounded_value(base.spd.get(), bonus.spd, 0)),
    }
}

pub open spec fn sat_add_u8(a: u8, b: u8) -> u8 {
    if a + b > 255 {
        255
    } else {
        (a + b) as u8
    }
}

/// Mana a player unit brings: its own plus its equipment's.
pub open spec fn unit_mana(pd: PlayerUnitData) -> u8 {
    sat_add_u8(pd.mana_contribution, pd.equipment_effects.total_mana_bonus)
}

/// The team's mana: every unit's mana, added up without passing 255.
pub open spec fn team_mana(pds: Seq<PlayerUnitData>) -> u8
    decreases pds.len(),
{
    if pds.len() == 0 {
        0
    } else {
        sat_add_u8(team_mana(pds.drop_last()), unit_mana(pds.last()))
    }
}

pub open spec fn has_djinn(slots: Seq<DjinnInstance>, id: Seq<char>) -> bool {
    exists|j: int| 0 <= j < slots.len() && (#[trigger] slots[j]).djinn_id@ == id
}

/// Team slots after taking one more unit's djinn: a djinn already present
/// is skipped, a new one is kept while there is room for three.
pub open spec fn take_djinn(acc: (Seq<DjinnInstance>, u32), inst: DjinnInstance) -> (Seq<DjinnInstance>, u32) {
    if has_djinn(acc.0, inst.djinn_id@) || acc.0.len() >= 3 {
        acc
    } else {
        let next: int = if inst.activation_order == u32::MAX {
            u32::MAX as int
        } else {
            inst.activation_order + 1
        };
        (acc.0.push(inst), if acc.1 >= next { acc.1 } else { next as u32 })
    }
}

pub open spec fn take_all_djinn(acc: (Seq<DjinnInstance>, u32), insts: Seq<DjinnInstance>) -> (Seq<DjinnInstance>, u32)
    decreases insts.len(),
{
    if insts.len() == 0 {
        acc
    } else {
        take_djinn(take_all_djinn(acc, insts.drop_last()), insts.last())
    }
}

/// The team's djinn gathered from the units in order.
pub open spec fn team_djinn(pds: Seq<PlayerUnitData>) -> (Seq<DjinnInstance>, u32)
    decreases pds.len(),
{
    if pds.len() == 0 {
        (seq![], 0)
    } else {
        take_all_djinn(team_djinn(pds.drop_last()), pds.last().djinn_slots.slots@)
    }
}

fn holds_djinn(slots: &Vec<DjinnInstance>, id: &DjinnId) -> (r: bool)
    ensures
        r == has_djinn(slots@, id@),
{
    let mut j: usize = 0;
    while j < slots.len()
        invariant
            j <= slots@.len(),
            forall|k: int| 0 <= k < j ==> (#[trigger] slots@[k]).djinn_id@ != id@,
        decreases slots@.len() - j,
    {
        if slots[j].djinn_id.same_as(id) {
            return true;
        }
        j += 1;
    }
    false
}

fn collect_team_djinn_slots(player_data: &Vec<PlayerUnitData>) -> (r: DjinnSlots)
    ensures
        (r.slots@, r.next_activation_order) == team_djinn(player_data@),
{
    let mut team = DjinnSlots::new();
    let mut p: usize = 0;
    while p < player_data.len()
        invariant
            p <= player_data@.len(),
            (team.slots@, team.next_activation_order) == team_djinn(player_data@.take(p as int)),
        decreases player_data@.len() - p,
    {
        let insts = &player_data[p].djinn_slots.slots;
        let ghost start = (team.slots@, team.next_activation_order);
        proof {
            assert(player_data@.take(p + 1).drop_last() =~= player_data@.take(p as int));
        }
        let mut k: usize = 0;
        while k < insts.len()
            invariant
                k <= insts@.len(),
                (team.slots@, team.next_activation_order) == take_all_djinn(start, insts@.take(k as int)),
            decreases insts@.len() - k,
        {
            let inst = &insts[k];
            proof {
                assert(insts@.take(k + 1).drop_last() =~= insts@.take(k as int));
            }
            if !holds_djinn(&team.slots, &inst.djinn_id) && team.slots.len() < 3 {
                let copy = inst.clone();
                team.slots.push(copy);
                let next: u32 = inst.activation_order.saturating_add(1);
                if team.next_activation_order < next {
                    team.next_activation_order = next;
                }
            }
            k += 1;
        }
        proof {
            assert(insts@.take(insts@.len() as int) =~= insts@);
        }
        p += 1;
    }
    proof {
        assert(player_data@.take(player_data@.len() as int) =~= player_data@);
    }
    team
}

/// The battle unit a player unit becomes.
pub open spec fn player_unit_ok(u: BattleUnitFull, pd: PlayerUnitData, team: DjinnSlots) -> bool {
    &&& u.unit.id@ == pd.id@
    &&& boosted_stats(u.unit.stats, pd.base_stats, pd.equipment_effects.total_stat_bonus)
    &&& u.unit.current_hp == u.unit.stats.hp@
    &&& u.unit.is_alive
    &&& u.unit.crit_counter == 0
    &&& u.unit.equipment_speed_bonus == pd.equipment_effects.total_stat_bonus.spd@
    &&& u.status_state.is_clear()
    &&& u.djinn_slots.slots@ == team.slots@
    &&& u.djinn_slots.next_activation_order == team.next_activation_order
    &&& u.equipment == pd.equipment
    &&& u.mana_contribution == unit_mana(pd)
    &&& u.ability_ids@.len() == 0
    &&& u.hit_count_bonus == pd.equipment_effects.total_hit_count_bonus
    &&& u.reward_xp == 0
    &&& u.reward_gold == 0
}

/// The battle unit an enemy becomes.
pub open spec fn enemy_unit_ok(u: BattleUnitFull, ed: EnemyUnitData) -> bool {
    &&& u.unit.id@ == ed.enemy_def.id@
    &&& u.unit.stats == ed.enemy_def.stats
    &&& u.unit.current_hp == ed.enemy_def.stats.hp@
    &&& u.unit.is_alive
    &&& u.unit.crit_counter == 0
    &&& u.unit.equipment_speed_bonus == 0
    &&& u.status_state.is_clear()
    &&& u.djinn_slots.slots@.len() == 0
    &&& u.mana_contribution == 0
    &&& u.ability_ids@ == ed.enemy_def.abilities@
    &&& u.hit_count_bonus == 0
    &&& u.reward_xp == ed.enemy_def.xp@
    &&& u.reward_gold == ed.enemy_def.gold@
}

fn build_player_unit(pd: PlayerUnitData, team: &DjinnSlots) -> (u: BattleUnitFull)
    ensures
        player_unit_ok(u, pd, *team),
        unit_wf(u),
{
    let stats = boost_stats(&pd.base_stats, &pd.equipment_effects.total_stat_bonus);
    let mana = pd.mana_contribution.saturating_add(pd.equipment_effects.total_mana_bonus);
    let hp = stats.hp.get();
    BattleUnitFull {
        unit: BattleUnit {
            id: pd.id,
            stats,
            current_hp: hp,
            is_alive: true,
            crit_counter: 0,
            equipment_speed_bonus: pd.equipment_effects.total_stat_bonus.spd.get(),
        },
        status_state: UnitStatusState::new(),
        djinn_slots: team.clone(),
        equipment: pd.equipment,
        mana_contribution: mana,
        ability_ids: Vec::new(),
        hit_count_bonus: pd.equipment_effects.total_hit_count_bonus,
        reward_xp: 0,
        reward_gold: 0,
    }
}

fn build_enemy_unit(ed: EnemyUnitData) -> (u: BattleUnitFull)
    ensures
        enemy_unit_ok(u, ed),
        unit_wf(u),
{
    let def = ed.enemy_def;
    let stats = def.stats;
    let hp = stats.hp.get();
    let xp = def.xp.get();
    let gold = def.gold.get();
    BattleUnitFull {
        unit: BattleUnit {
            id: def.id.0,
            stats,
            current_hp: hp,
            is_alive: true,
            crit_counter: 0,
            equipment_speed_bonus: 0,
        },
        status_state: UnitStatusState::new(),
        djinn_slots: DjinnSlots::new(),
        equipment: EquipmentLoadout::default(),
        mana_contribution: 0,
        ability_ids: def.abilities,
        hit_count_bonus: 0,
        reward_xp: xp,
        reward_gold: gold,
    }
}

/// `b` is the battle that `new_battle` makes of these units, rules and
/// definitions.
pub open spec fn new_battle_made(
    b: Battle,
    pds: Seq<PlayerUnitData>,
    eds: Seq<EnemyUnitData>,
    config: CombatConfig,
    abilities: Seq<AbilityDef>,
    djinn: Seq<DjinnDef>,
) -> bool {
    &&& b.round == 1
    &&& b.phase == BattlePhase::Planning
    &&& b.player_units@.len() == pds.len()
    &&& forall|i: int| 0 <= i < pds.len() ==> player_unit_ok(#[trigger] b.player_units@[i], pds[i], b.team_djinn_slots)
    &&& b.enemies@.len() == eds.len()
    &&& forall|i: int| 0 <= i < eds.len() ==> enemy_unit_ok(#[trigger] b.enemies@[i], eds[i])
    &&& (b.team_djinn_slots.slots@, b.team_djinn_slots.next_activation_order) == team_djinn(pds)
    &&& b.mana_pool.max_mana == team_mana(pds)
    &&& b.mana_pool.current_mana == team_mana(pds)
    &&& b.mana_pool.projected_mana == team_mana(pds)
    &&& b.planned_actions@.len() == 0
    &&& b.log@.len() == 0
    &&& b.config == config
    &&& b.ability_defs@ == abilities
    &&& b.djinn_defs@ == djinn
}

/// A battle in its first planning phase: every unit alive at full HP with
/// nothing in effect, the team's djinn shared by all player units, and a
/// full mana pool of the team's mana.
pub fn new_battle(
    player_data: Vec<PlayerUnitData>,
    enemy_data: Vec<EnemyUnitData>,
    config: CombatConfig,
    ability_defs: Vec<AbilityDef>,
    djinn_defs: Vec<DjinnDef>,
) -> (b: Battle)
    ensures
        new_battle_made(b, player_data@, enemy_data@, config, ability_defs@, djinn_defs@),
        player_data@.len() <= 255 && enemy_data@.len() <= 255 ==> b.wf(),
{
    let team = collect_team_djinn_slots(&player_data);
    let ghost pds = player_data@;
    let ghost eds = enemy_data@;
    let mut total_mana: u8 = 0;
    let mut player_units: Vec<BattleUnitFull> = Vec::new();
    let mut rest = player_data;
    let n: usize = rest.len();
    let mut i: usize = 0;
    assert(pds.skip(0) =~= pds);
    while rest.len() > 0
        invariant
            n == pds.len(),
            i + rest@.len() == pds.len(),
            rest@ == pds.skip(i as int),
            player_units@.len() == i,
            forall|k: int| 0 <= k < i ==> player_unit_ok(#[trigger] player_units@[k], pds[k], team),
            forall|k: int| 0 <= k < i ==> unit_wf(#[trigger] player_units@[k]),
            total_mana == team_mana(pds.take(i as int)),
        decreases rest@.len(),
    {
        let pd = rest.remove(0);
        proof {
            assert(pd == pds[i as int]);
            assert(rest@ =~= pds.skip(i + 1));
            assert(pds.take(i + 1).drop_last() =~= pds.take(i as int));
        }
        total_mana = total_mana.saturating_add(
            pd.mana_contribution.saturating_add(pd.equipment_effects.total_mana_bonus),
        );
        let u = build_player_unit(pd, &team);
        player_units.push(u);
        i += 1;
    }
    proof {
        assert(pds.take(pds.len() as int) =~= pds);
    }
    let mut enemies: Vec<BattleUnitFull> = Vec::new();
    let mut rest_e = enemy_data;
    let m: usize = rest_e.len();
    let mut j: usize = 0;
    assert(eds.skip(0) =~= eds);
    while rest_e.len() > 0
        invariant
            m == eds.len(),
            j + rest_e@.len() == eds.len(),
            rest_e@ == eds.skip(j as int),
            enemies@.len() == j,
            forall|k: int| 0 <= k < j ==> enemy_unit_ok(#[trigger] enemies@[k], eds[k]),
            forall|k: int| 0 <= k < j ==> unit_wf(#[trigger] enemies@[k]),
        decreases rest_e@.len(),
    {
        let ed = rest_e.remove(0);
        proof {
            assert(ed == eds[j as int]);
            assert(rest_e@ =~= eds.skip(j + 1));
        }
        let u = build_enemy_unit(ed);
        enemies.push(u);
        j += 1;
    }
    Battle {
        round: 1,
        phase: BattlePhase::Planning,
        player_units,
        enemies,
        team_djinn_slots: team,
        mana_pool: ManaPool::new(total_mana),
        planned_actions: Vec::new(),
        log: Vec::new(),
        config,
        ability_defs,
        djinn_defs,
    }
}

// ── Looking units up ────────────────────────────────────────────────

pub fn get_unit(battle: &Battle, target_ref: TargetRef) -> (r: Option<&BattleUnitFull>)
    ensures
        match r {
            Some(u) => unit_at(*battle, target_ref) == Some(*u),
            None => unit_at(*battle, target_ref) is None,
        },
{
    let i = target_ref.index as usize;
    match target_ref.side {
        Side::Player => if i < battle.player_units.len() {
            Some(&battle.player_units[i])
        } else {
            None
        },
        Side::Enemy => if i < battle.enemies.len() {
            Some(&battle.enemies[i])
        } else {
            None
        },
    }
}

// ── Outcome ─────────────────────────────────────────────────────────

pub open spec fn all_down(units: Seq<BattleUnitFull>) -> bool {
    forall|i: int| 0 <= i < units.len() ==> !(#[trigger] units[i]).unit.is_alive
}

pub open spec fn total_xp(units: Seq<BattleUnitFull>) -> int
    decreases units.len(),
{
    if units.len() == 0 {
        0
    } else {
        total_xp(units.drop_last()) + units.last().reward_xp
    }
}

pub open spec fn total_gold(units: Seq<BattleUnitFull>) -> int
    decreases units.len(),
{
    if units.len() == 0 {
        0
    } else {
        total_gold(units.drop_last()) + units.last().reward_gold
    }
}

proof fn lemma_totals_prefix(units: Seq<BattleUnitFull>, i: int)
    requires
        0 <= i <= units.len(),
    ensures
        0 <= total_xp(units.take(i)) <= total_xp(units),
        0 <= total_gold(units.take(i)) <= total_gold(units),
    decreases units.len() - i,
{
    if i == units.len() {
        assert(units.take(i) =~= units);
        lemma_totals_nonneg(units);
    } else {
        lemma_totals_prefix(units, i + 1);
        assert(units.take(i + 1).drop_last() =~= units.take(i));
        lemma_totals_nonneg(units.take(i));
    }
}

proof fn lemma_totals_nonneg(units: Seq<BattleUnitFull>)
    ensures
        total_xp(units) >= 0,
        total_gold(units) >= 0,
    decreases units.len(),
{
    if units.len() > 0 {
        lemma_totals_nonneg(units.drop_last());
    }
}

/// Victory when every enemy is down (with the enemies' rewards added up),
/// defeat when every player unit is down, otherwise the battle goes on.
pub open spec fn battle_outcome(b: Battle) -> Option<BattleResult> {
    if all_down(b.enemies@) {
        Some(BattleResult::Victory { xp: total_xp(b.enemies@) as u32, gold: total_gold(b.enemies@) as u32 })
    } else if all_down(b.player_units@) {
        Some(BattleResult::Defeat)
    } else {
        None
    }
}

fn all_units_down(units: &Vec<BattleUnitFull>) -> (r: bool)
    ensures
        r == all_down(units@),
{
    let mut i: usize = 0;
    while i < units.len()
        invariant
            i <= units@.len(),
            forall|k: int| 0 <= k < i ==> !(#[trigger] units@[k]).unit.is_alive,
        decreases units@.len() - i,
    {
        if units[i].unit.is_alive {
            return false;
        }
        i += 1;
    }
    true
}

pub fn check_battle_end(battle: &Battle) -> (r: Option<BattleResult>)
    requires
        all_down(battle.enemies@) ==> total_xp(battle.enemies@) <= u32::MAX && total_gold(
            battle.enemies@,
        ) <= u32::MAX,
    ensures
        r == battle_outcome(*battle),
{
    if all_units_down(&battle.enemies) {
        let mut xp: u32 = 0;
        let mut gold: u32 = 0;
        let mut i: usize = 0;
        while i < battle.enemies.len()
            invariant
                i <= battle.enemies@.len(),
                total_xp(battle.enemies@) <= u32::MAX,
                total_gold(battle.enemies@) <= u32::MAX,
                xp == total_xp(battle.enemies@.take(i as int)),
                gold == total_gold(battle.enemies@.take(i as int)),
            decreases battle.enemies@.len() - i,
        {
            proof {
                assert(battle.enemies@.take(i + 1).drop_last() =~= battle.enemies@.take(i as int));
                lemma_totals_prefix(battle.enemies@, i + 1);
            }
            xp = xp + battle.enemies[i].reward_xp;
            gold = gold + battle.enemies[i].reward_gold;
            i += 1;
        }
        proof {
            assert(battle.enemies@.take(i as int) =~= battle.enemies@);
        }
        Some(BattleResult::Victory { xp, gold })
    } else if all_units_down(&battle.player_units) {
        Some(BattleResult::Defeat)
    } else {
        None
    }
}

// ── Planning order ──────────────────────────────────────────────────

/// A living player unit: its index, effective SPD and base SPD.
pub type PlanEntry = (usize, i32, u16);

/// `a` plans before `b`: higher effective SPD, then higher base SPD.
pub open spec fn plans_before(a: PlanEntry, b: PlanEntry) -> bool {
    a.1 > b.1 || (a.1 == b.1 && a.2 > b.2)
}

pub open spec fn plan_entries(units: Seq<BattleUnitFull>) -> Seq<PlanEntry>
    decreases units.len(),
{
    if units.len() == 0 {
        seq![]
    } else {
        let prev = plan_entries(units.drop_last());
        let u = units.last().unit;
        if u.is_alive {
            prev.push(((units.len() - 1) as usize, (u.stats.spd@ + u.equipment_speed_bonus) as i32, u.stats.spd@))
        } else {
            prev
        }
    }
}

pub open spec fn insert_plan(s: Seq<PlanEntry>, x: PlanEntry) -> Seq<PlanEntry>
    decreases s.len(),
{
    if s.len() == 0 {
        seq![x]
    } else if plans_before(x, s[0]) {
        seq![x] + s
    } else {
        seq![s[0]] + insert_plan(s.drop_first(), x)
    }
}

/// Stable sort: equal keys keep their order, so lower indices come first.
pub open spec fn sort_plan(s: Seq<PlanEntry>) -> Seq<PlanEntry>
    decreases s.len(),
{
    if s.len() == 0 {
        seq![]
    } else {
        insert_plan(sort_plan(s.drop_last()), s.last())
    }
}

pub open spec fn entry_index() -> spec_fn(PlanEntry) -> usize {
    |e: PlanEntry| e.0
}

proof fn lemma_insert_plan_split(s: Seq<PlanEntry>, x: PlanEntry, k: int)
    requires
        0 <= k <= s.len(),
        forall|i: int| 0 <= i < k ==> !plans_before(x, #[trigger] s[i]),
        k < s.len() ==> plans_before(x, s[k]),
    ensures
        insert_plan(s, x) == s.take(k) + seq![x] + s.skip(k),
    decreases s.len(),
{
    if s.len() == 0 {
        assert(s.take(k) + seq![x] + s.skip(k) =~= seq![x]);
    } else if k == 0 {
        assert(s.take(k) + seq![x] + s.skip(k) =~= seq![x] + s);
    } else {
        let t = s.drop_first();
        assert forall|i: int| 0 <= i < k - 1 implies !plans_before(x, #[trigger] t[i]) by {
            assert(t[i] == s[i + 1]);
        }
        lemma_insert_plan_split(t, x, k - 1);
        assert(s.take(k) + seq![x] + s.skip(k) =~= seq![s[0]] + (t.take(k - 1) + seq![x] + t.skip(k - 1)));
    }
}

/// Indices of the living player units, fastest first: by effective SPD
/// (base SPD plus equipment bonus), then base SPD, then lower index.
pub fn get_planning_order(battle: &Battle) -> (r: Vec<usize>)
    ensures
        r@ == sort_plan(plan_entries(battle.player_units@)).map_values(entry_index()),
{
    let units = &battle.player_units;
    let mut sorted: Vec<PlanEntry> = Vec::new();
    let mut n: usize = 0;
    while n < units.len()
        invariant
            n <= units@.len(),
            sorted@ == sort_plan(plan_entries(units@.take(n as int))),
        decreases units@.len() - n,
    {
        let u = &units[n].unit;
        proof {
            assert(units@.take(n + 1).drop_last() =~= units@.take(n as int));
        }
        if u.is_alive {
            let spd = u.stats.spd.get();
            let x: PlanEntry = (n, spd as i32 + u.equipment_speed_bonus as i32, spd);
            let mut k: usize = 0;
            while k < sorted.len()
                invariant
                    k <= sorted.len(),
                    forall|i: int| 0 <= i < k ==> !plans_before(x, #[trigger] sorted@[i]),
                ensures
                    k <= sorted.len(),
                    forall|i: int| 0 <= i < k ==> !plans_before(x, #[trigger] sorted@[i]),
                    k < sorted.len() ==> plans_before(x, sorted@[k as int]),
                decreases sorted.len() - k,
            {
                let e = sorted[k];
                if x.1 > e.1 || (x.1 == e.1 && x.2 > e.2) {
                    break;
                }
                k = k + 1;
            }
            proof {
                lemma_insert_plan_split(sorted@, x, k as int);
                let p = plan_entries(units@.take(n as int));
                assert(p.push(x).drop_last() =~= p);
            }
            sorted.insert(k, x);
            assert(sorted@ =~= sort_plan(plan_entries(units@.take(n + 1))));
        }
        n = n + 1;
    }
    assert(units@.take(n as int) =~= units@);
    let mut order: Vec<usize> = Vec::new();
    let mut m: usize = 0;
    while m < sorted.len()
        invariant
            m <= sorted.len(),
            order@ == sorted@.take(m as int).map_values(entry_index()),
        decreases sorted.len() - m,
    {
        order.push(sorted[m].0);
        m = m + 1;
        assert(order@ =~= sorted@.take(m as int).map_values(entry_index()));
    }
    assert(sorted@.take(m as int) =~= sorted@);
    order
}

// ── Team djinn ──────────────────────────────────────────────────────

/// `b` is `a` with other djinn slots.
pub open spec fn same_but_djinn(a: BattleUnitFull, b: BattleUnitFull) -> bool {
    &&& b.unit == a.unit
    &&& b.status_state == a.status_state
    &&& b.equipment == a.equipment
    &&& b.mana_contribution == a.mana_contribution
    &&& b.ability_ids == a.ability_ids
    &&& b.hit_count_bonus == a.hit_count_bonus
    &&& b.reward_xp == a.reward_xp
    &&& b.reward_gold == a.reward_gold
}

pub open spec fn same_slots(a: DjinnSlots, b: DjinnSlots) -> bool {
    a.slots@ == b.slots@ && a.next_activation_order == b.next_activation_order
}

/// Every player unit holds the team's djinn, nothing else changed.
pub open spec fn synced_from(old_units: Seq<BattleUnitFull>, new_units: Seq<BattleUnitFull>, team: DjinnSlots) -> bool {
    &&& new_units.len() == old_units.len()
    &&& forall|i: int|
        0 <= i < new_units.len() ==> same_but_djinn(old_units[i], #[trigger] new_units[i]) && same_slots(
            new_units[i].djinn_slots,
            team,
        )
}

/// Everything of the battle but the team's djinn and the player units'.
pub open spec fn same_but_team(a: Battle, b: Battle) -> bool {
    &&& b.round == a.round
    &&& b.phase == a.phase
    &&& b.enemies == a.enemies
    &&& b.mana_pool == a.mana_pool
    &&& b.planned_actions == a.planned_actions
    &&& b.log == a.log
    &&& b.config == a.config
    &&& b.ability_defs == a.ability_defs
    &&& b.djinn_defs == a.djinn_defs
}

proof fn lemma_synced_wf(old_units: Seq<BattleUnitFull>, new_units: Seq<BattleUnitFull>, team: DjinnSlots)
    requires
        synced_from(old_units, new_units, team),
        units_wf(old_units),
    ensures
        units_wf(new_units),
{
    assert forall|i: int| 0 <= i < new_units.len() implies unit_wf(#[trigger] new_units[i]) by {
        assert(same_but_djinn(old_units[i], new_units[i]));
        assert(unit_wf(old_units[i]));
    }
}

fn sync_team_djinn_slots_to_players(battle: &mut Battle)
    ensures
        synced_from(old(battle).player_units@, final(battle).player_units@, final(battle).team_djinn_slots),
        final(battle).team_djinn_slots == old(battle).team_djinn_slots,
        same_but_team(*old(battle), *final(battle)),
{
    let ghost before = battle.player_units@;
    let mut i: usize = 0;
    while i < battle.player_units.len()
        invariant
            i <= battle.player_units@.len(),
            battle.player_units@.len() == before.len(),
            battle.team_djinn_slots == old(battle).team_djinn_slots,
            same_but_team(*old(battle), *battle),
            forall|k: int|
                0 <= k < i ==> same_but_djinn(before[k], #[trigger] battle.player_units@[k]) && same_slots(
                    battle.player_units@[k].djinn_slots,
                    battle.team_djinn_slots,
                ),
            forall|k: int| i <= k < before.len() ==> #[trigger] battle.player_units@[k] == before[k],
        decreases before.len() - i,
    {
        let mut u = battle.player_units.remove(i);
        u.djinn_slots = battle.team_djinn_slots.clone();
        battle.player_units.insert(i, u);
        i += 1;
    }
}

/// Give the team these djinn, held by every player unit.
pub fn set_team_djinn_slots(battle: &mut Battle, team_djinn_slots: DjinnSlots)
    ensures
        final(battle).team_djinn_slots == team_djinn_slots,
        synced_from(old(battle).player_units@, final(battle).player_units@, team_djinn_slots),
        same_but_team(*old(battle), *final(battle)),
        old(battle).wf() ==> final(battle).wf(),
{
    battle.team_djinn_slots = team_djinn_slots;
    sync_team_djinn_slots_to_players(battle);
    proof {
        if old(battle).wf() {
            lemma_synced_wf(old(battle).player_units@, battle.player_units@, team_djinn_slots);
        }
    }
}

/// The first living player unit (the first unit when all are down).
fn team_djinn_anchor_ref(battle: &Battle) -> (r: TargetRef)
    requires
        battle.player_units@.len() <= 255,
    ensures
        r == (TargetRef {
            side: Side::Player,
            index: match first_alive(battle.player_units@) {
                Some(i) => i as u8,
                None => 0,
            },
        }),
{
    match find_first_alive(&battle.player_units) {
        Some(i) => TargetRef { side: Side::Player, index: i as u8 },
        None => TargetRef { side: Side::Player, index: 0 },
    }
}

// ── Planning ────────────────────────────────────────────────────────

pub open spec fn may_act(u: BattleUnitFull) -> bool {
    !status::has_any_of(u.status_state.statuses@, StatusEffectType::Stun, StatusEffectType::Freeze, StatusEffectType::Freeze)
}

pub open spec fn may_auto_attack(u: BattleUnitFull) -> bool {
    !status::has_any_of(
        u.status_state.statuses@,
        StatusEffectType::Stun,
        StatusEffectType::Freeze,
        StatusEffectType::Incapacitate,
    )
}

pub open spec fn may_use_ability(u: BattleUnitFull) -> bool {
    !status::has_any_of(u.status_state.statuses@, StatusEffectType::Stun, StatusEffectType::Freeze, StatusEffectType::Null)
}

/// The first definition of ability `id`.
pub open spec fn find_ability(defs: Seq<AbilityDef>, id: Seq<char>) -> Option<AbilityDef>
    decreases defs.len(),
{
    if defs.len() == 0 {
        None
    } else if defs[0].id@ == id {
        Some(defs[0])
    } else {
        find_ability(defs.drop_first(), id)
    }
}

fn lookup_ability<'a>(defs: &'a Vec<AbilityDef>, id: &AbilityId) -> (r: Option<&'a AbilityDef>)
    ensures
        match r {
            Some(a) => find_ability(defs@, id@) == Some(*a),
            None => find_ability(defs@, id@) is None,
        },
{
    let mut i: usize = 0;
    assert(defs@.skip(0) =~= defs@);
    while i < defs.len()
        invariant
            i <= defs@.len(),
            find_ability(defs@, id@) == find_ability(defs@.skip(i as int), id@),
        decreases defs@.len() - i,
    {
        assert(defs@.skip(i as int).drop_first() =~= defs@.skip(i + 1));
        if defs[i].id.same_as(id) {
            return Some(&defs[i]);
        }
        i += 1;
    }
    None
}

/// The team's djinn once planning has taken them from the first player unit
/// holding any, when the team had none.
pub open spec fn hydrated_team(b: Battle) -> Seq<DjinnInstance> {
    if b.team_djinn_slots.slots@.len() > 0 {
        b.team_djinn_slots.slots@
    } else {
        first_held_djinn(b.player_units@)
    }
}

pub open spec fn first_held_djinn(units: Seq<BattleUnitFull>) -> Seq<DjinnInstance>
    decreases units.len(),
{
    if units.len() == 0 {
        seq![]
    } else if units[0].djinn_slots.slots@.len() > 0 {
        units[0].djinn_slots.slots@
    } else {
        first_held_djinn(units.drop_first())
    }
}

/// Next activation order of the first unit holding any djinn.
pub open spec fn first_held_next(units: Seq<BattleUnitFull>) -> Option<u32>
    decreases units.len(),
{
    if units.len() == 0 {
        None
    } else if units[0].djinn_slots.slots@.len() > 0 {
        Some(units[0].djinn_slots.next_activation_order)
    } else {
        first_held_next(units.drop_first())
    }
}

/// Next activation order of the team once its djinn are taken from the
/// players (see `hydrated_team`).
pub open spec fn hydrated_next(b: Battle) -> u32 {
    if b.team_djinn_slots.slots@.len() > 0 {
        b.team_djinn_slots.next_activation_order
    } else {
        match first_held_next(b.player_units@) {
            Some(n) => n,
            None => b.team_djinn_slots.next_activation_order,
        }
    }
}

pub open spec fn refs_exist(b: Battle, targets: Seq<TargetRef>) -> bool {
    forall|i: int| 0 <= i < targets.len() ==> (#[trigger] unit_at(b, targets[i])) is Some
}

/// The first of `indices` that names no slot or a djinn that is not ready.
pub open spec fn summon_problem(slots: Seq<DjinnInstance>, indices: Seq<u8>) -> Option<PlanError>
    decreases indices.len(),
{
    if indices.len() == 0 {
        None
    } else if indices[0] >= slots.len() {
        Some(PlanError::InvalidDjinnIndex)
    } else if slots[indices[0] as int].state != DjinnState::Good {
        Some(PlanError::DjinnNotReady)
    } else {
        summon_problem(slots, indices.drop_first())
    }
}

/// Whether `unit_ref` may plan `action`, checked in order: the unit exists,
/// is alive and not stunned or frozen; an attack needs the unit free to
/// auto-attack and an existing target; an ability needs the unit free to use
/// abilities, a known ability, enough mana in the pool and existing targets;
/// djinn need valid slots holding ready djinn.
pub open spec fn plan_check(b: Battle, team: Seq<DjinnInstance>, unit_ref: TargetRef, action: BattleAction) -> Result<(), PlanError> {
    match unit_at(b, unit_ref) {
        None => Err(PlanError::InvalidTarget),
        Some(u) => if !u.unit.is_alive || !may_act(u) {
            Err(PlanError::UnitCannotAct)
        } else {
            match action {
                BattleAction::Attack { target } => if !may_auto_attack(u) {
                    Err(PlanError::UnitCannotAct)
                } else if unit_at(b, target) is None {
                    Err(PlanError::InvalidTarget)
                } else {
                    Ok(())
                },
                BattleAction::UseAbility { ability_id, targets } => if !may_use_ability(u) {
                    Err(PlanError::UnitCannotAct)
                } else {
                    match find_ability(b.ability_defs@, ability_id@) {
                        None => Err(PlanError::InvalidTarget),
                        Some(a) => if b.mana_pool.current_mana < a.mana_cost@ {
                            Err(PlanError::InsufficientMana)
                        } else if !refs_exist(b, targets@) {
                            Err(PlanError::InvalidTarget)
                        } else {
                            Ok(())
                        },
                    }
                },
                BattleAction::ActivateDjinn { djinn_index } => if djinn_index >= team.len() {
                    Err(PlanError::InvalidDjinnIndex)
                } else if team[djinn_index as int].state != DjinnState::Good {
                    Err(PlanError::DjinnNotReady)
                } else {
                    Ok(())
                },
                BattleAction::Summon { djinn_indices } => match summon_problem(team, djinn_indices@) {
                    Some(e) => Err(e),
                    None => Ok(()),
                },
            }
        },
    }
}

/// Change of projected mana when a player unit plans `action`: an attack
/// gains one mana per hit, an ability costs its mana; enemies change nothing.
pub open spec fn mana_delta(b: Battle, unit_ref: TargetRef, action: BattleAction) -> int {
    if unit_ref.side != Side::Player {
        0
    } else {
        match action {
            BattleAction::Attack { .. } => match unit_at(b, unit_ref) {
                Some(u) => 1 + u.hit_count_bonus,
                None => 0,
            },
            BattleAction::UseAbility { ability_id, .. } => match find_ability(b.ability_defs@, ability_id@) {
                Some(a) => -(a.mana_cost@ as int),
                None => 0,
            },
            _ => 0,
        }
    }
}

/// Projected mana moved by `delta`, within `[0, 255]`; the change is taken
/// modulo 256 first.
pub open spec fn shifted_mana(projected: u8, delta: int) -> u8 {
    if delta >= 0 {
        let d = delta % 256;
        if projected + d > 255 {
            255
        } else {
            (projected + d) as u8
        }
    } else {
        let d = (-delta) % 256;
        if projected < d {
            0
        } else {
            (projected - d) as u8
        }
    }
}

/// Position of the action planned for `unit_ref`, if any.
pub open spec fn planned_pos(s: Seq<(TargetRef, BattleAction)>, unit_ref: TargetRef) -> Option<int> {
    if exists|i: int| 0 <= i < s.len() && (#[trigger] s[i]).0 == unit_ref {
        Some(choose|i: int| 0 <= i < s.len() && (#[trigger] s[i]).0 == unit_ref && forall|j: int| 0 <= j < i ==> s[j].0 != unit_ref)
    } else {
        None
    }
}

fn find_planned(s: &Vec<(TargetRef, BattleAction)>, unit_ref: TargetRef) -> (r: Option<usize>)
    ensures
        match r {
            Some(p) => p < s@.len() && s@[p as int].0 == unit_ref && forall|j: int| 0 <= j < p ==> s@[j].0 != unit_ref,
            None => forall|j: int| 0 <= j < s@.len() ==> s@[j].0 != unit_ref,
        },
        r matches Some(p) ==> planned_pos(s@, unit_ref) == Some(p as int),
        r is None ==> planned_pos(s@, unit_ref) is None,
{
    let mut i: usize = 0;
    while i < s.len()
        invariant
            i <= s@.len(),
            forall|j: int| 0 <= j < i ==> s@[j].0 != unit_ref,
        decreases s@.len() - i,
    {
        if s[i].0 == unit_ref {
            proof {
                let w = choose|k: int| 0 <= k < s@.len() && (#[trigger] s@[k]).0 == unit_ref && forall|j: int| 0 <= j < k ==> s@[j].0 != unit_ref;
                assert(0 <= i < s@.len() && s@[i as int].0 == unit_ref && forall|j: int| 0 <= j < i ==> s@[j].0 != unit_ref);
                if w != i {
                    if w < i {
                        assert(s@[w].0 != unit_ref);
                    } else {
                        assert(s@[i as int].0 != unit_ref);
                    }
                }
            }
            return Some(i);
        }
        i += 1;
    }
    None
}

fn projected_mana_delta(battle: &Battle, unit_ref: TargetRef, action: &BattleAction) -> (d: i16)
    requires
        battle.player_units@.len() <= 255,
    ensures
        d == mana_delta(*battle, unit_ref, *action),
{
    if unit_ref.side != Side::Player {
        return 0;
    }
    match action {
        BattleAction::Attack { .. } => match get_unit(battle, unit_ref) {
            Some(u) => 1 + u.hit_count_bonus as i16,
            None => 0,
        },
        BattleAction::UseAbility { ability_id, .. } => match lookup_ability(&battle.ability_defs, ability_id) {
            Some(a) => -(a.mana_cost.get() as i16),
            None => 0,
        },
        _ => 0,
    }
}

fn apply_projected_mana_delta(pool: &mut ManaPool, delta: i16)
    requires
        -256 <= delta <= 256,
    ensures
        final(pool).projected_mana == shifted_mana(old(pool).projected_mana, delta as int),
        final(pool).current_mana == old(pool).current_mana,
        final(pool).max_mana == old(pool).max_mana,
{
    if delta >= 0 {
        let d: u8 = if delta >= 256 { (delta - 256) as u8 } else { delta as u8 };
        pool.projected_mana = pool.projected_mana.saturating_add(d);
    } else {
        let m: i16 = -delta;
        let d: u8 = if m >= 256 { (m - 256) as u8 } else { m as u8 };
        pool.projected_mana = pool.projected_mana.saturating_sub(d);
    }
}

/// Planning checks read the unit through the hydrated team djinn.
proof fn lemma_hydrated(b: Battle, i: int)
    requires
        b.team_djinn_slots.slots@.len() == 0,
        0 <= i <= b.player_units@.len(),
        forall|k: int| 0 <= k < i ==> (#[trigger] b.player_units@[k]).djinn_slots.slots@.len() == 0,
    ensures
        first_held_djinn(b.player_units@) == first_held_djinn(b.player_units@.skip(i)),
        first_held_next(b.player_units@) == first_held_next(b.player_units@.skip(i)),
    decreases i,
{
    if i > 0 {
        lemma_hydrated(b, i - 1);
        assert(b.player_units@.skip(i - 1).drop_first() =~= b.player_units@.skip(i));
        assert(b.player_units@.skip(i - 1)[0] == b.player_units@[i - 1]);
        assert(b.player_units@[i - 1].djinn_slots.slots@.len() == 0);
    } else {
        assert(b.player_units@.skip(0) =~= b.player_units@);
    }
}

/// The player units of `b` after the team's djinn were taken from those of
/// `a`: where the team had none and a unit holds some, every unit now holds
/// the team's; otherwise the units are as they were.
pub open spec fn hydrated_players(a: Battle, b: Battle) -> bool {
    if a.team_djinn_slots.slots@.len() == 0 && first_held_djinn(a.player_units@).len() > 0 {
        synced_from(a.player_units@, b.player_units@, b.team_djinn_slots)
    } else {
        b.player_units == a.player_units
    }
}

/// With no team djinn yet, the team takes the djinn of the first player unit
/// that has any, and every player unit is given them.
fn hydrate_team_djinn_slots_from_players(battle: &mut Battle)
    ensures
        hydrated_players(*old(battle), *final(battle)),
        same_but_team(*old(battle), *final(battle)),
        final(battle).player_units@.len() == old(battle).player_units@.len(),
        forall|i: int|
            0 <= i < final(battle).player_units@.len() ==> same_but_djinn(
                old(battle).player_units@[i],
                #[trigger] final(battle).player_units@[i],
            ),
        final(battle).team_djinn_slots.slots@ == hydrated_team(*old(battle)),
        final(battle).team_djinn_slots.next_activation_order == hydrated_next(*old(battle)),
{
    if battle.team_djinn_slots.slots.len() > 0 {
        return;
    }
    let mut i: usize = 0;
    assert(battle.player_units@.skip(0) =~= battle.player_units@);
    while i < battle.player_units.len()
        invariant
            i <= battle.player_units@.len(),
            *battle == *old(battle),
            battle.team_djinn_slots.slots@.len() == 0,
            forall|k: int| 0 <= k < i ==> (#[trigger] battle.player_units@[k]).djinn_slots.slots@.len() == 0,
        decreases battle.player_units@.len() - i,
    {
        proof {
            lemma_hydrated(*battle, i as int);
            assert(battle.player_units@.skip(i as int)[0] == battle.player_units@[i as int]);
        }
        if battle.player_units[i].djinn_slots.slots.len() > 0 {
            battle.team_djinn_slots = battle.player_units[i].djinn_slots.clone();
            sync_team_djinn_slots_to_players(battle);
            proof {
                assert(first_held_djinn(old(battle).player_units@.skip(i as int)).len() > 0);
            }
            return;
        }
        i += 1;
    }
    proof {
        lemma_hydrated(*battle, i as int);
        assert(battle.player_units@.skip(i as int).len() == 0);
    }
}

fn all_refs_exist(battle: &Battle, targets: &Vec<TargetRef>) -> (r: bool)
    ensures
        r == refs_exist(*battle, targets@),
{
    let mut i: usize = 0;
    while i < targets.len()
        invariant
            i <= targets@.len(),
            forall|k: int| 0 <= k < i ==> (#[trigger] unit_at(*battle, targets@[k])) is Some,
        decreases targets@.len() - i,
    {
        if get_unit(battle, targets[i]).is_none() {
            return false;
        }
        i += 1;
    }
    true
}

fn check_summon(slots: &Vec<DjinnInstance>, indices: &Vec<u8>) -> (r: Option<PlanError>)
    ensures
        r == summon_problem(slots@, indices@),
{
    let mut i: usize = 0;
    assert(indices@.skip(0) =~= indices@);
    while i < indices.len()
        invariant
            i <= indices@.len(),
            summon_problem(slots@, indices@) == summon_problem(slots@, indices@.skip(i as int)),
        decreases indices@.len() - i,
    {
        assert(indices@.skip(i as int).drop_first() =~= indices@.skip(i + 1));
        let k = indices[i] as usize;
        if k >= slots.len() {
            return Some(PlanError::InvalidDjinnIndex);
        }
        match slots[k].state {
            DjinnState::Good => {},
            DjinnState::Recovery => {
                return Some(PlanError::DjinnNotReady);
            },
        }
        i += 1;
    }
    None
}

fn validate_plan(battle: &Battle, unit_ref: TargetRef, action: &BattleAction) -> (r: Result<(), PlanError>)
    ensures
        r == plan_check(*battle, battle.team_djinn_slots.slots@, unit_ref, *action),
{
    let unit = match get_unit(battle, unit_ref) {
        Some(u) => u,
        None => {
            return Err(PlanError::InvalidTarget);
        },
    };
    if !unit.unit.is_alive || !status::can_act(unit.status_state.statuses.as_slice()) {
        return Err(PlanError::UnitCannotAct);
    }
    match action {
        BattleAction::Attack { target } => {
            if !status::can_auto_attack(unit.status_state.statuses.as_slice()) {
                return Err(PlanError::UnitCannotAct);
            }
            if get_unit(battle, *target).is_none() {
                return Err(PlanError::InvalidTarget);
            }
            Ok(())
        },
        BattleAction::UseAbility { ability_id, targets } => {
            if !status::can_use_ability(unit.status_state.statuses.as_slice()) {
                return Err(PlanError::UnitCannotAct);
            }
            let ability = match lookup_ability(&battle.ability_defs, ability_id) {
                Some(a) => a,
                None => {
                    return Err(PlanError::InvalidTarget);
                },
            };
            if battle.mana_pool.current_mana < ability.mana_cost.get() {
                return Err(PlanError::InsufficientMana);
            }
            if !all_refs_exist(battle, targets) {
                return Err(PlanError::InvalidTarget);
            }
            Ok(())
        },
        BattleAction::ActivateDjinn { djinn_index } => {
            let idx = *djinn_index as usize;
            if idx >= battle.team_djinn_slots.slots.len() {
                return Err(PlanError::InvalidDjinnIndex);
            }
            match battle.team_djinn_slots.slots[idx].state {
                DjinnState::Good => Ok(()),
                DjinnState::Recovery => Err(PlanError::DjinnNotReady),
            }
        },
        BattleAction::Summon { djinn_indices } => match check_summon(&battle.team_djinn_slots.slots, djinn_indices) {
            Some(e) => Err(e),
            None => Ok(()),
        },
    }
}

/// Planning leaves the units (but for their djinn), the pool's current
/// mana and everything else in place.
pub open spec fn planning_frame(a: Battle, b: Battle) -> bool {
    &&& b.round == a.round
    &&& b.phase == a.phase
    &&& b.enemies == a.enemies
    &&& b.log == a.log
    &&& b.config == a.config
    &&& b.ability_defs == a.ability_defs
    &&& b.djinn_defs == a.djinn_defs
    &&& b.mana_pool.current_mana == a.mana_pool.current_mana
    &&& b.mana_pool.max_mana == a.mana_pool.max_mana
    &&& b.player_units@.len() == a.player_units@.len()
    &&& forall|i: int| 0 <= i < b.player_units@.len() ==> same_but_djinn(a.player_units@[i], #[trigger] b.player_units@[i])
}

/// The plan after `unit_ref` plans `action`: its earlier plan, if any, is
/// withdrawn and the new one goes last.
pub open spec fn replanned(s: Seq<(TargetRef, BattleAction)>, unit_ref: TargetRef, action: BattleAction) -> Seq<(TargetRef, BattleAction)> {
    match planned_pos(s, unit_ref) {
        Some(p) => s.remove(p).push((unit_ref, action)),
        None => s.push((unit_ref, action)),
    }
}

/// Projected mana after replanning: the earlier plan's change undone, the
/// new one's applied.
pub open spec fn replanned_mana(b: Battle, unit_ref: TargetRef, action: BattleAction) -> u8 {
    let p0 = b.mana_pool.projected_mana;
    let p1 = match planned_pos(b.planned_actions@, unit_ref) {
        Some(p) => shifted_mana(p0, -mana_delta(b, unit_ref, b.planned_actions@[p].1)),
        None => p0,
    };
    shifted_mana(p1, mana_delta(b, unit_ref, action))
}

proof fn lemma_frame_wf(a: Battle, b: Battle)
    requires
        a.wf(),
        planning_frame(a, b),
    ensures
        b.wf(),
{
    assert forall|i: int| 0 <= i < b.player_units@.len() implies unit_wf(#[trigger] b.player_units@[i]) by {
        assert(same_but_djinn(a.player_units@[i], b.player_units@[i]));
        assert(unit_wf(a.player_units@[i]));
    }
}

/// Check and record the action of one unit, replacing its earlier plan.
/// Planning first gives the team the djinn of the first player unit holding
/// any, when it had none.
pub fn plan_action(battle: &mut Battle, unit_ref: TargetRef, action: BattleAction) -> (r: Result<(), PlanError>)
    requires
        old(battle).wf(),
    ensures
        final(battle).wf(),
        planning_frame(*old(battle), *final(battle)),
        final(battle).team_djinn_slots.slots@ == hydrated_team(*old(battle)),
        r == plan_check(*old(battle), hydrated_team(*old(battle)), unit_ref, action),
        r is Ok ==> final(battle).planned_actions@ == replanned(old(battle).planned_actions@, unit_ref, action)
            && final(battle).mana_pool.projected_mana == replanned_mana(*old(battle), unit_ref, action),
        r is Err ==> final(battle).planned_actions@ == old(battle).planned_actions@
            && final(battle).mana_pool.projected_mana == old(battle).mana_pool.projected_mana,
{
    hydrate_team_djinn_slots_from_players(battle);
    let ghost h = *battle;
    proof {
        assert(planning_frame(*old(battle), h));
        lemma_frame_wf(*old(battle), h);
        assert forall|r: TargetRef| #[trigger] unit_at(h, r) == match unit_at(*old(battle), r) {
            Some(u) => Some(side_units(h, r.side)[r.index as int]),
            None => None,
        } by {}
        assert(plan_check(h, h.team_djinn_slots.slots@, unit_ref, action) == plan_check(
            *old(battle),
            hydrated_team(*old(battle)),
            unit_ref,
            action,
        )) by {
            lemma_plan_check_frame(*old(battle), h, unit_ref, action);
        }
    }
    let checked = validate_plan(battle, unit_ref, &action);
    match checked {
        Err(e) => {
            return Err(e);
        },
        Ok(()) => {},
    }
    match find_planned(&battle.planned_actions, unit_ref) {
        Some(p) => {
            let (_, existing) = battle.planned_actions.remove(p);
            let d = projected_mana_delta(battle, unit_ref, &existing);
            proof {
                assert(mana_delta(*old(battle), unit_ref, existing) == mana_delta(h, unit_ref, existing)) by {
                    lemma_mana_delta_frame(*old(battle), h, unit_ref, existing);
                }
            }
            apply_projected_mana_delta(&mut battle.mana_pool, -d);
        },
        None => {},
    }
    let d = projected_mana_delta(battle, unit_ref, &action);
    proof {
        lemma_mana_delta_frame(*old(battle), *battle, unit_ref, action);
    }
    apply_projected_mana_delta(&mut battle.mana_pool, d);
    battle.planned_actions.push((unit_ref, action));
    proof {
        lemma_frame_wf(*old(battle), *battle);
    }
    Ok(())
}

proof fn lemma_plan_check_frame(a: Battle, h: Battle, unit_ref: TargetRef, action: BattleAction)
    requires
        planning_frame(a, h),
        h.team_djinn_slots.slots@ == hydrated_team(a),
        h.mana_pool.current_mana == a.mana_pool.current_mana,
    ensures
        plan_check(h, h.team_djinn_slots.slots@, unit_ref, action) == plan_check(a, hydrated_team(a), unit_ref, action),
{
    assert forall|r: TargetRef| (#[trigger] unit_at(h, r)) is Some == unit_at(a, r) is Some by {}
    match unit_at(a, unit_ref) {
        Some(u) => {
            let v = side_units(h, unit_ref.side)[unit_ref.index as int];
            assert(same_but_djinn(u, v));
            match action {
                BattleAction::UseAbility { ability_id, targets } => {
                    assert(refs_exist(h, targets@) == refs_exist(a, targets@)) by {
                        if refs_exist(a, targets@) {
                            assert forall|i: int| 0 <= i < targets@.len() implies (#[trigger] unit_at(h, targets@[i])) is Some by {
                                assert(unit_at(a, targets@[i]) is Some);
                            }
                        }
                        if refs_exist(h, targets@) {
                            assert forall|i: int| 0 <= i < targets@.len() implies (#[trigger] unit_at(a, targets@[i])) is Some by {
                                assert(unit_at(h, targets@[i]) is Some);
                            }
                        }
                    }
                },
                _ => {},
            }
        },
        None => {},
    }
}

proof fn lemma_mana_delta_frame(a: Battle, b: Battle, unit_ref: TargetRef, action: BattleAction)
    requires
        planning_frame(a, b),
    ensures
        mana_delta(a, unit_ref, action) == mana_delta(b, unit_ref, action),
{
    match unit_at(a, unit_ref) {
        Some(u) => {
            assert(same_but_djinn(u, side_units(b, unit_ref.side)[unit_ref.index as int]));
        },
        None => {},
    }
}

// ── Enemy planning ──────────────────────────────────────────────────

pub open spec fn alive_flags(units: Seq<BattleUnitFull>) -> Seq<bool> {
    units.map_values(|u: BattleUnitFull| u.unit.is_alive)
}

pub open spec fn first_true(s: Seq<bool>) -> Option<int>
    decreases s.len(),
{
    if s.len() == 0 {
        None
    } else if s[0] {
        Some(0)
    } else {
        match first_true(s.drop_first()) {
            Some(i) => Some(i + 1),
            None => None,
        }
    }
}

/// Index of the first living unit.
pub open spec fn first_alive(units: Seq<BattleUnitFull>) -> Option<int> {
    first_true(alive_flags(units))
}

proof fn lemma_first_true_skip(s: Seq<bool>, i: int)
    requires
        0 <= i <= s.len(),
        forall|j: int| 0 <= j < i ==> !s[j],
    ensures
        first_true(s) == match first_true(s.skip(i)) {
            Some(k) => Some(k + i),
            None => None,
        },
    decreases i,
{
    if i == 0 {
        assert(s.skip(0) =~= s);
        match first_true(s) {
            Some(k) => {},
            None => {},
        }
    } else {
        lemma_first_true_skip(s, i - 1);
        assert(s.skip(i - 1).drop_first() =~= s.skip(i));
        assert(s.skip(i - 1)[0] == s[i - 1]);
    }
}

pub fn find_first_alive(units: &Vec<BattleUnitFull>) -> (r: Option<usize>)
    ensures
        match r {
            Some(i) => first_alive(units@) == Some(i as int) && i < units@.len(),
            None => first_alive(units@) is None,
        },
{
    let ghost flags = alive_flags(units@);
    let mut i: usize = 0;
    while i < units.len()
        invariant
            i <= units@.len(),
            flags == alive_flags(units@),
            forall|j: int| 0 <= j < i ==> !flags[j],
        decreases units@.len() - i,
    {
        if units[i].unit.is_alive {
            proof {
                lemma_first_true_skip(flags, i as int);
                assert(flags.skip(i as int)[0]);
            }
            return Some(i);
        }
        i += 1;
    }
    proof {
        lemma_first_true_skip(flags, i as int);
        assert(flags.skip(i as int).len() == 0);
    }
    None
}

/// The plans after each enemy from `k` on that can attack plans an attack
/// on player unit `target`.
pub open spec fn enemy_attack_plans(
    s: Seq<(TargetRef, BattleAction)>,
    enemies: Seq<BattleUnitFull>,
    target: u8,
    k: nat,
) -> Seq<(TargetRef, BattleAction)>
    decreases k,
{
    if k == 0 {
        s
    } else {
        let prev = enemy_attack_plans(s, enemies, target, (k - 1) as nat);
        let e = enemies[k - 1];
        if e.unit.is_alive && may_act(e) && may_auto_attack(e) {
            replanned(
                prev,
                TargetRef { side: Side::Enemy, index: (k - 1) as u8 },
                BattleAction::Attack { target: TargetRef { side: Side::Player, index: target } },
            )
        } else {
            prev
        }
    }
}

/// What planning the enemies' attacks does (see `plan_enemy_actions`).
pub open spec fn enemies_planned(a: Battle, b: Battle) -> bool {
    &&& planning_frame(a, b)
    &&& b.mana_pool.projected_mana == a.mana_pool.projected_mana
    &&& match first_alive(a.player_units@) {
        Some(t) => b.planned_actions@ == enemy_attack_plans(a.planned_actions@, a.enemies@, t as u8, a.enemies@.len()),
        None => b.planned_actions@ == a.planned_actions@,
    }
}

/// Every living enemy that is free to attack plans an attack on the first
/// living player unit, replacing its earlier plan; with no living player
/// unit nothing is planned.
pub fn plan_enemy_actions(battle: &mut Battle)
    requires
        old(battle).wf(),
    ensures
        final(battle).wf(),
        enemies_planned(*old(battle), *final(battle)),
{
    let target_idx = match find_first_alive(&battle.player_units) {
        Some(i) => i,
        None => {
            return;
        },
    };
    let target = TargetRef { side: Side::Player, index: target_idx as u8 };
    let enemy_count = battle.enemies.len();
    let ghost b0 = *battle;
    let mut ei: usize = 0;
    while ei < enemy_count
        invariant
            enemy_count == b0.enemies@.len(),
            ei <= enemy_count,
            battle.wf(),
            planning_frame(b0, *battle),
            battle.mana_pool.projected_mana == b0.mana_pool.projected_mana,
            (target_idx as int) < b0.player_units@.len(),
            target == (TargetRef { side: Side::Player, index: target_idx as u8 }),
            battle.planned_actions@ == enemy_attack_plans(b0.planned_actions@, b0.enemies@, target_idx as u8, ei as nat),
        decreases enemy_count - ei,
    {
        if battle.enemies[ei].unit.is_alive {
            let unit_ref = TargetRef { side: Side::Enemy, index: ei as u8 };
            let action = BattleAction::Attack { target };
            let ghost before = *battle;
            let _ = plan_action(battle, unit_ref, action);
            proof {
                lemma_enemy_plan_step(b0, before, *battle, ei as int, target);
            }
        }
        ei += 1;
    }
}

/// One enemy's attack planned in the loop of `plan_enemy_actions`.
proof fn lemma_enemy_plan_step(b0: Battle, before: Battle, after: Battle, ei: int, target: TargetRef)
    requires
        0 <= ei < b0.enemies@.len(),
        before.wf(),
        planning_frame(b0, before),
        planning_frame(before, after),
        after.wf(),
        target.side == Side::Player,
        (target.index as int) < b0.player_units@.len(),
        before.mana_pool.projected_mana == b0.mana_pool.projected_mana,
        ({
            let unit_ref = TargetRef { side: Side::Enemy, index: ei as u8 };
            let action = BattleAction::Attack { target };
            &&& plan_check(before, hydrated_team(before), unit_ref, action) is Ok ==> after.planned_actions@
                == replanned(before.planned_actions@, unit_ref, action)
                && after.mana_pool.projected_mana == replanned_mana(before, unit_ref, action)
            &&& plan_check(before, hydrated_team(before), unit_ref, action) is Err ==> after.planned_actions@
                == before.planned_actions@ && after.mana_pool.projected_mana == before.mana_pool.projected_mana
        }),
        units_wf(b0.enemies@),
        b0.enemies@[ei].unit.is_alive,
    ensures
        planning_frame(b0, after),
        after.mana_pool.projected_mana == b0.mana_pool.projected_mana,
        after.planned_actions@ == if may_act(b0.enemies@[ei]) && may_auto_attack(b0.enemies@[ei]) {
            replanned(before.planned_actions@, TargetRef { side: Side::Enemy, index: ei as u8 }, BattleAction::Attack { target })
        } else {
            before.planned_actions@
        },
{
    let unit_ref = TargetRef { side: Side::Enemy, index: ei as u8 };
    let action = BattleAction::Attack { target };
    assert(unit_at(before, unit_ref) == Some(b0.enemies@[ei]));
    assert(unit_at(before, target) is Some);
    assert(mana_delta(before, unit_ref, action) == 0);
    match planned_pos(before.planned_actions@, unit_ref) {
        Some(p) => {
            assert(mana_delta(before, unit_ref, before.planned_actions@[p].1) == 0);
        },
        None => {},
    }
    assert forall|i: int| 0 <= i < after.player_units@.len() implies same_but_djinn(b0.player_units@[i], #[trigger] after.player_units@[i]) by {
        assert(same_but_djinn(before.player_units@[i], after.player_units@[i]));
        assert(same_but_djinn(b0.player_units@[i], before.player_units@[i]));
    }
}

/// Mana an enemy may spend on abilities each round (not the team's pool).
pub const ENEMY_MANA_BUDGET: u8 = 5;

pub open spec fn player_view(i: int, u: BattleUnitFull) -> AiUnitView {
    AiUnitView {
        index: i as u8,
        stats: u.unit.stats,
        current_hp: u.unit.current_hp,
        max_hp: u.unit.stats.hp@,
        is_alive: u.unit.is_alive,
    }
}

pub open spec fn player_view_of() -> spec_fn(int, BattleUnitFull) -> AiUnitView {
    |i: int, u: BattleUnitFull| player_view(i, u)
}

pub open spec fn enemy_self_view(ei: int, e: BattleUnitFull) -> AiSelfView {
    AiSelfView {
        index: ei as u8,
        current_hp: e.unit.current_hp,
        max_hp: e.unit.stats.hp@,
        mana_available: ENEMY_MANA_BUDGET,
    }
}

/// The known abilities among `ids`, in order.
pub open spec fn known_abilities<'a>(defs: Seq<&'a AbilityDef>, ids: Seq<AbilityId>) -> Seq<&'a AbilityDef>
    decreases ids.len(),
{
    if ids.len() == 0 {
        seq![]
    } else {
        let prev = known_abilities(defs, ids.drop_last());
        match first_ability_ref(defs, ids.last()@) {
            Some(a) => prev.push(a),
            None => prev,
        }
    }
}

pub open spec fn first_ability_ref<'a>(defs: Seq<&'a AbilityDef>, id: Seq<char>) -> Option<&'a AbilityDef>
    decreases defs.len(),
{
    if defs.len() == 0 {
        None
    } else if defs[0].id@ == id {
        Some(defs[0])
    } else {
        first_ability_ref(defs.drop_first(), id)
    }
}

/// Whether an enemy's chosen action is kept: an attack needs a living
/// target, an ability needs to be known and to reach a living target.
pub open spec fn ai_action_kept(b: Battle, a: crate::shared::ActionView) -> bool {
    match a {
        crate::shared::ActionView::Attack { target } => is_alive_at(b, target),
        crate::shared::ActionView::UseAbility { ability_id, targets } => find_ability(b.ability_defs@, ability_id) is Some
            && exists|i: int| 0 <= i < targets.len() && is_alive_at(b, #[trigger] targets[i]),
        _ => true,
    }
}

pub open spec fn plan_view(p: (TargetRef, BattleAction)) -> (TargetRef, crate::shared::ActionView) {
    (p.0, p.1@)
}

pub open spec fn plan_views(s: Seq<(TargetRef, BattleAction)>) -> Seq<(TargetRef, crate::shared::ActionView)> {
    s.map_values(|p: (TargetRef, BattleAction)| plan_view(p))
}

/// The plans after the first `k` enemies have chosen.
pub open spec fn enemy_ai_plans<'a>(
    s: Seq<(TargetRef, crate::shared::ActionView)>,
    b: Battle,
    defs: Seq<&'a AbilityDef>,
    strategy: AiStrategy,
    k: nat,
) -> Seq<(TargetRef, crate::shared::ActionView)>
    decreases k,
{
    if k == 0 {
        s
    } else {
        let prev = enemy_ai_plans(s, b, defs, strategy, (k - 1) as nat);
        let ei = k - 1;
        let e = b.enemies@[ei];
        if e.unit.is_alive && may_act(e) {
            let a = ai::spec_choose_enemy_action(
                enemy_self_view(ei, e),
                b.player_units@.map(player_view_of()),
                known_abilities(defs, e.ability_ids@),
                strategy,
            );
            if ai_action_kept(b, a) {
                prev.push((TargetRef { side: Side::Enemy, index: ei as u8 }, a))
            } else {
                prev
            }
        } else {
            prev
        }
    }
}

fn find_ability_ref<'a>(defs: &'a Vec<AbilityDef>, id: &AbilityId) -> (r: Option<&'a AbilityDef>)
    ensures
        r == first_ability_ref(defs@.map_values(|a: AbilityDef| &a), id@),
{
    let ghost refs = defs@.map_values(|a: AbilityDef| &a);
    let mut i: usize = 0;
    assert(refs.skip(0) =~= refs);
    while i < defs.len()
        invariant
            i <= defs@.len(),
            refs == defs@.map_values(|a: AbilityDef| &a),
            first_ability_ref(refs, id@) == first_ability_ref(refs.skip(i as int), id@),
        decreases defs@.len() - i,
    {
        assert(refs.skip(i as int).drop_first() =~= refs.skip(i + 1));
        assert(refs.skip(i as int)[0] == &defs@[i as int]);
        if defs[i].id.same_as(id) {
            return Some(&defs[i]);
        }
        i += 1;
    }
    None
}

fn alive_ref(battle: &Battle, r: TargetRef) -> (b: bool)
    ensures
        b == is_alive_at(*battle, r),
{
    match get_unit(battle, r) {
        Some(u) => u.unit.is_alive,
        None => false,
    }
}

fn any_alive(battle: &Battle, targets: &Vec<TargetRef>) -> (b: bool)
    ensures
        b == exists|i: int| 0 <= i < targets@.len() && is_alive_at(*battle, #[trigger] targets@[i]),
{
    let mut i: usize = 0;
    while i < targets.len()
        invariant
            i <= targets@.len(),
            forall|k: int| 0 <= k < i ==> !is_alive_at(*battle, #[trigger] targets@[k]),
        decreases targets@.len() - i,
    {
        if alive_ref(battle, targets[i]) {
            return true;
        }
        i += 1;
    }
    false
}

/// Every living enemy free to act chooses its action by the AI strategy,
/// with the enemy budget of mana; the choice is added to the plan when its
/// target is alive (for an ability: when the ability is known and some
/// target is alive).
pub fn plan_enemy_actions_with_ai(battle: &mut Battle, strategy: AiStrategy)
    requires
        old(battle).wf(),
    ensures
        final(battle).wf(),
        planning_frame(*old(battle), *final(battle)),
        final(battle).team_djinn_slots == old(battle).team_djinn_slots,
        final(battle).mana_pool == old(battle).mana_pool,
        plan_views(final(battle).planned_actions@) == enemy_ai_plans(
            plan_views(old(battle).planned_actions@),
            *old(battle),
            old(battle).ability_defs@.map_values(|a: AbilityDef| &a),
            strategy,
            old(battle).enemies@.len(),
        ),
{
    let ghost b0 = *battle;
    let ghost refs = b0.ability_defs@.map_values(|a: AbilityDef| &a);
    let mut player_views: Vec<AiUnitView> = Vec::new();
    let mut i: usize = 0;
    while i < battle.player_units.len()
        invariant
            *battle == b0,
            i <= b0.player_units@.len(),
            b0.player_units@.len() <= 255,
            player_views@ == b0.player_units@.take(i as int).map(player_view_of()),
        decreases b0.player_units@.len() - i,
    {
        let pu = &battle.player_units[i].unit;
        player_views.push(AiUnitView {
            index: i as u8,
            stats: pu.stats,
            current_hp: pu.current_hp,
            max_hp: pu.stats.hp.get(),
            is_alive: pu.is_alive,
        });
        proof {
            assert(b0.player_units@.take(i + 1).map(player_view_of()) =~= b0.player_units@.take(i as int).map(player_view_of()).push(player_view(i as int, b0.player_units@[i as int])));
        }
        i += 1;
    }
    proof {
        assert(b0.player_units@.take(i as int) =~= b0.player_units@);
    }
    let enemy_count = battle.enemies.len();
    let mut ei: usize = 0;
    while ei < enemy_count
        invariant
            enemy_count == b0.enemies@.len(),
            ei <= enemy_count,
            b0.enemies@.len() <= 255,
            battle.round == b0.round,
            battle.phase == b0.phase,
            battle.player_units == b0.player_units,
            battle.enemies == b0.enemies,
            battle.team_djinn_slots == b0.team_djinn_slots,
            battle.mana_pool == b0.mana_pool,
            battle.log == b0.log,
            battle.config == b0.config,
            battle.ability_defs == b0.ability_defs,
            battle.djinn_defs == b0.djinn_defs,
            refs == b0.ability_defs@.map_values(|a: AbilityDef| &a),
            player_views@ == b0.player_units@.map(player_view_of()),
            plan_views(battle.planned_actions@) == enemy_ai_plans(plan_views(b0.planned_actions@), b0, refs, strategy, ei as nat),
        decreases enemy_count - ei,
    {
        let e = &battle.enemies[ei];
        if e.unit.is_alive && status::can_act(e.status_state.statuses.as_slice()) {
            let self_view = AiSelfView {
                index: ei as u8,
                current_hp: e.unit.current_hp,
                max_hp: e.unit.stats.hp.get(),
                mana_available: ENEMY_MANA_BUDGET,
            };
            let mut abilities: Vec<&AbilityDef> = Vec::new();
            let mut k: usize = 0;
            while k < e.ability_ids.len()
                invariant
                    k <= e.ability_ids@.len(),
                    refs == b0.ability_defs@.map_values(|a: AbilityDef| &a),
                    battle.ability_defs == b0.ability_defs,
                    abilities@ == known_abilities(refs, e.ability_ids@.take(k as int)),
                decreases e.ability_ids@.len() - k,
            {
                proof {
                    assert(e.ability_ids@.take(k + 1).drop_last() =~= e.ability_ids@.take(k as int));
                }
                match find_ability_ref(&battle.ability_defs, &e.ability_ids[k]) {
                    Some(a) => abilities.push(a),
                    None => {},
                }
                k += 1;
            }
            proof {
                assert(e.ability_ids@.take(k as int) =~= e.ability_ids@);
            }
            let action = ai::choose_enemy_action(&self_view, player_views.as_slice(), abilities.as_slice(), strategy);
            let unit_ref = TargetRef { side: Side::Enemy, index: ei as u8 };
            let keep = match &action {
                BattleAction::Attack { target } => alive_ref(battle, *target),
                BattleAction::UseAbility { ability_id, targets } => lookup_ability(&battle.ability_defs, ability_id).is_some()
                    && any_alive(battle, targets),
                _ => true,
            };
            proof {
                assert(self_view == enemy_self_view(ei as int, b0.enemies@[ei as int]));
                assert(*e == b0.enemies@[ei as int]);
                assert(may_act(*e));
                assert(keep == ai_action_kept(b0, action@));
                assert(action@ == ai::spec_choose_enemy_action(
                    enemy_self_view(ei as int, b0.enemies@[ei as int]),
                    b0.player_units@.map(player_view_of()),
                    known_abilities(refs, b0.enemies@[ei as int].ability_ids@),
                    strategy,
                ));
            }
            let ghost before = battle.planned_actions@;
            if keep {
                battle.planned_actions.push((unit_ref, action));
                proof {
                    assert(plan_views(before.push((unit_ref, action))) =~= plan_views(before).push(plan_view((unit_ref, action))));
                }
            }
        }
        ei += 1;
    }
}

// ── Executing actions: what stays fixed ─────────────────────────────

/// What a unit is, whatever happens to it in battle.
pub open spec fn same_identity(a: BattleUnitFull, b: BattleUnitFull) -> bool {
    &&& b.unit.id == a.unit.id
    &&& b.unit.stats == a.unit.stats
    &&& b.unit.equipment_speed_bonus == a.unit.equipment_speed_bonus
    &&& b.equipment == a.equipment
    &&& b.mana_contribution == a.mana_contribution
    &&& b.ability_ids == a.ability_ids
    &&& b.hit_count_bonus == a.hit_count_bonus
    &&& b.reward_xp == a.reward_xp
    &&& b.reward_gold == a.reward_gold
}

pub open spec fn same_roster(a: Seq<BattleUnitFull>, b: Seq<BattleUnitFull>) -> bool {
    &&& b.len() == a.len()
    &&& forall|i: int| 0 <= i < b.len() ==> same_identity(a[i], #[trigger] b[i])
}

/// Executing actions changes the units' HP, life, crit counters, statuses
/// and djinn, the djinn of the team and the pool's mana, and nothing else
/// but the phase.
pub open spec fn exec_frame(a: Battle, b: Battle) -> bool {
    &&& b.round == a.round
    &&& b.planned_actions == a.planned_actions
    &&& b.log == a.log
    &&& b.config == a.config
    &&& b.ability_defs == a.ability_defs
    &&& b.djinn_defs == a.djinn_defs
    &&& b.mana_pool.max_mana == a.mana_pool.max_mana
    &&& same_roster(a.player_units@, b.player_units@)
    &&& same_roster(a.enemies@, b.enemies@)
}

proof fn lemma_exec_frame_trans(a: Battle, b: Battle, c: Battle)
    requires
        exec_frame(a, b),
        exec_frame(b, c),
    ensures
        exec_frame(a, c),
{
    assert forall|i: int| 0 <= i < c.player_units@.len() implies same_identity(a.player_units@[i], #[trigger] c.player_units@[i]) by {
        assert(same_identity(a.player_units@[i], b.player_units@[i]));
        assert(same_identity(b.player_units@[i], c.player_units@[i]));
    }
    assert forall|i: int| 0 <= i < c.enemies@.len() implies same_identity(a.enemies@[i], #[trigger] c.enemies@[i]) by {
        assert(same_identity(a.enemies@[i], b.enemies@[i]));
        assert(same_identity(b.enemies@[i], c.enemies@[i]));
    }
}

/// Events so far are kept; new ones come after them.
pub open spec fn extends(a: Seq<BattleEvent>, b: Seq<BattleEvent>) -> bool {
    b.len() >= a.len() && b.subrange(0, a.len() as int) == a
}

proof fn lemma_extends_trans(a: Seq<BattleEvent>, b: Seq<BattleEvent>, c: Seq<BattleEvent>)
    requires
        extends(a, b),
        extends(b, c),
    ensures
        extends(a, c),
{
    assert(c.subrange(0, a.len() as int) =~= b.subrange(0, a.len() as int));
}

proof fn lemma_extends_refl(a: Seq<BattleEvent>)
    ensures
        extends(a, a),
{
    assert(a.subrange(0, a.len() as int) =~= a);
}

/// A damage report names `actor` as its source (other events pass).
pub open spec fn damage_from(e: BattleEvent, actor: TargetRef) -> bool {
    match e {
        BattleEvent::DamageDealt(d) => d.source == actor,
        _ => true,
    }
}

/// Every damage report that `eb` has after the first `ea.len()` events
/// names `actor` as its source.
pub open spec fn sourced(ea: Seq<BattleEvent>, eb: Seq<BattleEvent>, actor: TargetRef) -> bool {
    forall|j: int| ea.len() <= j < eb.len() ==> damage_from(#[trigger] eb[j], actor)
}

proof fn lemma_sourced_trans(a: Seq<BattleEvent>, b: Seq<BattleEvent>, c: Seq<BattleEvent>, actor: TargetRef)
    requires
        extends(a, b),
        extends(b, c),
        sourced(a, b, actor),
        sourced(b, c, actor),
    ensures
        sourced(a, c, actor),
{
    assert forall|j: int| a.len() <= j < c.len() implies damage_from(#[trigger] c[j], actor) by {
        if j < b.len() {
            assert(c[j] == c.subrange(0, b.len() as int)[j]);
        }
    }
}

fn emit(events: &mut Vec<BattleEvent>, e: BattleEvent)
    ensures
        final(events)@ == old(events)@.push(e),
        extends(old(events)@, final(events)@),
        forall|a: Seq<BattleEvent>| extends(a, old(events)@) ==> #[trigger] extends(a, final(events)@),
        forall|a: Seq<BattleEvent>, actor: TargetRef|
            sourced(a, old(events)@, actor) && damage_from(e, actor) ==> #[trigger] sourced(a, final(events)@, actor),
{
    events.push(e);
    assert(events@.subrange(0, old(events)@.len() as int) =~= old(events)@);
    assert forall|a: Seq<BattleEvent>| extends(a, old(events)@) implies #[trigger] extends(a, events@) by {
        lemma_extends_trans(a, old(events)@, events@);
    }
    assert forall|a: Seq<BattleEvent>, actor: TargetRef|
        sourced(a, old(events)@, actor) && damage_from(e, actor) implies #[trigger] sourced(a, events@, actor) by {
        assert forall|j: int| a.len() <= j < events@.len() implies damage_from(#[trigger] events@[j], actor) by {
            if j < old(events)@.len() {
                assert(events@[j] == old(events)@[j]);
            }
        }
    }
}

pub open spec fn other_side(side: Side) -> Side {
    match side {
        Side::Player => Side::Enemy,
        Side::Enemy => Side::Player,
    }
}

/// Everything of the battle but its units.
pub open spec fn same_but_units(a: Battle, b: Battle) -> bool {
    &&& b.round == a.round
    &&& b.phase == a.phase
    &&& b.team_djinn_slots == a.team_djinn_slots
    &&& b.mana_pool == a.mana_pool
    &&& b.planned_actions == a.planned_actions
    &&& b.log == a.log
    &&& b.config == a.config
    &&& b.ability_defs == a.ability_defs
    &&& b.djinn_defs == a.djinn_defs
}

/// The unit at `r` replaced by `u`, nothing else changed.
pub open spec fn replaced(a: Battle, b: Battle, r: TargetRef, u: BattleUnitFull) -> bool {
    &&& same_but_units(a, b)
    &&& side_units(b, r.side) == side_units(a, r.side).update(r.index as int, u)
    &&& side_units(b, other_side(r.side)) == side_units(a, other_side(r.side))
}

fn take_unit(battle: &mut Battle, r: TargetRef) -> (u: BattleUnitFull)
    requires
        unit_at(*old(battle), r) is Some,
    ensures
        Some(u) == unit_at(*old(battle), r),
        same_but_units(*old(battle), *final(battle)),
        side_units(*final(battle), r.side) == side_units(*old(battle), r.side).remove(r.index as int),
        side_units(*final(battle), other_side(r.side)) == side_units(*old(battle), other_side(r.side)),
{
    match r.side {
        Side::Player => battle.player_units.remove(r.index as usize),
        Side::Enemy => battle.enemies.remove(r.index as usize),
    }
}

fn put_unit(battle: &mut Battle, r: TargetRef, u: BattleUnitFull)
    requires
        (r.index as int) <= side_units(*old(battle), r.side).len(),
    ensures
        same_but_units(*old(battle), *final(battle)),
        side_units(*final(battle), r.side) == side_units(*old(battle), r.side).insert(r.index as int, u),
        side_units(*final(battle), other_side(r.side)) == side_units(*old(battle), other_side(r.side)),
{
    match r.side {
        Side::Player => battle.player_units.insert(r.index as usize, u),
        Side::Enemy => battle.enemies.insert(r.index as usize, u),
    }
}

/// Take the unit at `r` out, to be put back by `restore_unit`.
proof fn lemma_take_put(s: Seq<BattleUnitFull>, i: int, u: BattleUnitFull)
    requires
        0 <= i < s.len(),
    ensures
        s.remove(i).insert(i, u) == s.update(i, u),
{
    assert(s.remove(i).insert(i, u) =~= s.update(i, u));
}

/// Replacing a unit by a consistent unit of the same identity keeps the
/// battle consistent and within the execution frame.
proof fn lemma_replaced(a: Battle, b: Battle, r: TargetRef, u: BattleUnitFull)
    requires
        a.wf(),
        unit_at(a, r) matches Some(old_u) && same_identity(old_u, u),
        unit_wf(u),
        replaced(a, b, r, u),
    ensures
        b.wf(),
        exec_frame(a, b),
        b.team_djinn_slots == a.team_djinn_slots,
        b.mana_pool == a.mana_pool,
{
    let i = r.index as int;
    let sa = side_units(a, r.side);
    let sb = side_units(b, r.side);
    assert forall|k: int| 0 <= k < sb.len() implies unit_wf(#[trigger] sb[k]) && same_identity(sa[k], sb[k]) by {
        if k != i {
            assert(sb[k] == sa[k]);
            assert(unit_wf(sa[k]));
        }
    }
    let so = side_units(a, other_side(r.side));
    assert forall|k: int| 0 <= k < so.len() implies same_identity(so[k], #[trigger] so[k]) by {}
    match r.side {
        Side::Player => {
            assert(b.player_units@ == sb);
            assert(b.enemies@ == so);
        },
        Side::Enemy => {
            assert(b.enemies@ == sb);
            assert(b.player_units@ == so);
        },
    }
}

// ── Unit-level changes ──────────────────────────────────────────────

/// Freeze damage taken goes up by `amount` (capped at `u16::MAX`).
pub open spec fn freeze_hit(s: ActiveStatus, amount: u16) -> ActiveStatus {
    if s.effect_type == StatusEffectType::Freeze {
        ActiveStatus {
            freeze_damage_taken: if s.freeze_damage_taken + amount > 65535 {
                65535
            } else {
                (s.freeze_damage_taken + amount) as u16
            },
            ..s
        }
    } else {
        s
    }
}

pub open spec fn freeze_hit_fn(amount: u16) -> spec_fn(ActiveStatus) -> ActiveStatus {
    |s: ActiveStatus| freeze_hit(s, amount)
}

pub open spec fn sat_sub_u16(a: u16, b: u16) -> u16 {
    if a >= b {
        (a - b) as u16
    } else {
        0
    }
}

/// `v` is `u` after taking `amount` damage: HP down (not below 0), down
/// at 0 HP, frozen statuses counting the damage when `freeze` is set.
pub open spec fn damaged(u: BattleUnitFull, v: BattleUnitFull, amount: u16, freeze: bool) -> bool {
    &&& same_identity(u, v)
    &&& v.unit.current_hp == sat_sub_u16(u.unit.current_hp, amount)
    &&& v.unit.is_alive == (u.unit.is_alive && v.unit.current_hp > 0)
    &&& v.unit.crit_counter == u.unit.crit_counter
    &&& v.status_state.statuses@ == if freeze {
        u.status_state.statuses@.map_values(freeze_hit_fn(amount))
    } else {
        u.status_state.statuses@
    }
    &&& v.status_state.buffs == u.status_state.buffs
    &&& v.status_state.debuffs == u.status_state.debuffs
    &&& v.status_state.barriers == u.status_state.barriers
    &&& v.status_state.hots == u.status_state.hots
    &&& v.status_state.immunity == u.status_state.immunity
    &&& v.djinn_slots == u.djinn_slots
}

fn add_freeze_damage(statuses: &mut Vec<ActiveStatus>, amount: u16)
    ensures
        final(statuses)@ == old(statuses)@.map_values(freeze_hit_fn(amount)),
{
    let ghost s0 = statuses@;
    let mut i: usize = 0;
    while i < statuses.len()
        invariant
            i <= statuses@.len(),
            statuses@.len() == s0.len(),
            forall|k: int| 0 <= k < i ==> #[trigger] statuses@[k] == freeze_hit(s0[k], amount),
            forall|k: int| i <= k < s0.len() ==> #[trigger] statuses@[k] == s0[k],
        decreases s0.len() - i,
    {
        let st = statuses[i];
        if st.effect_type == StatusEffectType::Freeze {
            statuses.set(i, ActiveStatus { freeze_damage_taken: st.freeze_damage_taken.saturating_add(amount), ..st });
        }
        i += 1;
    }
    assert(statuses@ =~= s0.map_values(freeze_hit_fn(amount)));
}

/// Deal `amount` damage to the unit at `r`.
fn damage_unit(battle: &mut Battle, r: TargetRef, amount: u16, freeze: bool)
    requires
        old(battle).wf(),
        unit_at(*old(battle), r) is Some,
    ensures
        final(battle).wf(),
        exec_frame(*old(battle), *final(battle)),
        final(battle).team_djinn_slots == old(battle).team_djinn_slots,
        final(battle).mana_pool == old(battle).mana_pool,
        exists|v: BattleUnitFull| replaced(*old(battle), *final(battle), r, v) && damaged(unit_at(*old(battle), r).unwrap(), v, amount, freeze),
{
    let ghost b0 = *battle;
    let mut u = take_unit(battle, r);
    let ghost u0 = u;
    u.unit.current_hp = u.unit.current_hp.saturating_sub(amount);
    if u.unit.current_hp == 0 {
        u.unit.is_alive = false;
    }
    if freeze {
        add_freeze_damage(&mut u.status_state.statuses, amount);
    }
    let ghost v = u;
    proof {
        assert(unit_wf(u0));
        lemma_take_put(side_units(b0, r.side), r.index as int, v);
    }
    put_unit(battle, r, u);
    proof {
        assert(replaced(b0, *battle, r, v));
        lemma_replaced(b0, *battle, r, v);
    }
}

/// Only what is in effect on the unit changed.
pub open spec fn only_effects_changed(u: BattleUnitFull, v: BattleUnitFull) -> bool {
    &&& same_identity(u, v)
    &&& v.unit == u.unit
    &&& v.djinn_slots == u.djinn_slots
}

/// Only the unit's HP and life changed.
pub open spec fn only_life_changed(u: BattleUnitFull, v: BattleUnitFull) -> bool {
    &&& same_identity(u, v)
    &&& v.unit.crit_counter == u.unit.crit_counter
    &&& v.status_state == u.status_state
    &&& v.djinn_slots == u.djinn_slots
}

/// Which change one helper makes to a unit.
pub enum UnitChange {
    /// Heal by an amount, not above the maximum.
    Heal(u16),
    /// Back to life with this HP.
    Revive(u16),
    /// Set the crit counter.
    Crit(u8),
}

pub open spec fn changed_as(u: BattleUnitFull, v: BattleUnitFull, c: UnitChange) -> bool {
    match c {
        UnitChange::Heal(amount) => {
            let sum = u.unit.current_hp + amount;
            let capped = if sum > 65535 { 65535 } else { sum };
            &&& only_life_changed(u, v)
            &&& v.unit.current_hp == if capped > u.unit.stats.hp@ { u.unit.stats.hp@ as int } else { capped }
            &&& v.unit.is_alive == u.unit.is_alive
        },
        UnitChange::Revive(hp) => {
            &&& only_life_changed(u, v)
            &&& v.unit.current_hp == hp
            &&& v.unit.is_alive
        },
        UnitChange::Crit(c) => {
            &&& same_identity(u, v)
            &&& v.unit.current_hp == u.unit.current_hp
            &&& v.unit.is_alive == u.unit.is_alive
            &&& v.unit.crit_counter == c
            &&& v.status_state == u.status_state
            &&& v.djinn_slots == u.djinn_slots
        },
    }
}

pub open spec fn change_ok(u: BattleUnitFull, c: UnitChange) -> bool {
    match c {
        UnitChange::Heal(_) => u.unit.is_alive,
        UnitChange::Revive(hp) => 1 <= hp,
        UnitChange::Crit(c) => c < 255,
    }
}

/// Heal, revive or set the crit counter of the unit at `r`.
fn change_unit(battle: &mut Battle, r: TargetRef, c: UnitChange)
    requires
        old(battle).wf(),
        unit_at(*old(battle), r) matches Some(u) && change_ok(u, c),
    ensures
        final(battle).wf(),
        exec_frame(*old(battle), *final(battle)),
        final(battle).team_djinn_slots == old(battle).team_djinn_slots,
        final(battle).mana_pool == old(battle).mana_pool,
        exists|v: BattleUnitFull| replaced(*old(battle), *final(battle), r, v) && changed_as(unit_at(*old(battle), r).unwrap(), v, c),
{
    let ghost b0 = *battle;
    let mut u = take_unit(battle, r);
    match c {
        UnitChange::Heal(amount) => {
            let max_hp = u.unit.stats.hp.get();
            let sum = u.unit.current_hp.saturating_add(amount);
            u.unit.current_hp = if sum > max_hp { max_hp } else { sum };
        },
        UnitChange::Revive(hp) => {
            u.unit.current_hp = hp;
            u.unit.is_alive = true;
        },
        UnitChange::Crit(value) => {
            u.unit.crit_counter = value;
        },
    }
    let ghost v = u;
    proof {
        lemma_take_put(side_units(b0, r.side), r.index as int, v);
    }
    put_unit(battle, r, u);
    proof {
        assert(replaced(b0, *battle, r, v));
        lemma_replaced(b0, *battle, r, v);
    }
}

/// Which change one helper makes to what is in effect on a unit.
pub enum EffectChange<'a> {
    Status(&'a StatusEffect),
    Buff(&'a BuffEffect, usize),
    Debuff(&'a crate::shared::DebuffEffect, usize),
    AddBarrier(u8, u8),
    Hot(u16, u8),
    Immunity(&'a crate::shared::Immunity),
    Cleanse(&'a crate::shared::CleanseType),
    ConsumeBarrier,
    TickBuffs,
    TickBarriers,
    TickImmunity,
}

/// What a change of an ability's effect does to what is in effect on `u`,
/// giving `v` (`done`: the status took).
pub open spec fn effect_applied<'a>(u: BattleUnitFull, v: BattleUnitFull, c: EffectChange<'a>, done: bool) -> bool {
    let s = u.status_state;
    let t = v.status_state;
    match c {
        EffectChange::Status(e) => {
            &&& done == !status::blocks(s.immunity, e.effect_type)
            &&& t.statuses@ == if done {
                s.statuses@.push(status::fresh_status(*e))
            } else {
                s.statuses@
            }
            &&& t.buffs == s.buffs && t.debuffs == s.debuffs && t.barriers == s.barriers && t.hots == s.hots
            &&& t.immunity == s.immunity
        },
        EffectChange::Debuff(e, m) => {
            &&& t.debuffs@ == status::stacked(s.debuffs@, status::fresh_buff(e.stat_modifiers, e.duration), m)
            &&& t.statuses == s.statuses && t.buffs == s.buffs && t.barriers == s.barriers && t.hots == s.hots
            &&& t.immunity == s.immunity
        },
        EffectChange::AddBarrier(charges, duration) => {
            &&& t.barriers@ == s.barriers@.push(status::ActiveBarrier { charges, remaining_turns: duration })
            &&& t.statuses == s.statuses && t.buffs == s.buffs && t.debuffs == s.debuffs && t.hots == s.hots
            &&& t.immunity == s.immunity
        },
        EffectChange::Hot(amount, duration) => {
            &&& t.hots@ == s.hots@.push(status::ActiveHoT { amount, remaining_turns: duration })
            &&& t.statuses == s.statuses && t.buffs == s.buffs && t.debuffs == s.debuffs && t.barriers == s.barriers
            &&& t.immunity == s.immunity
        },
        EffectChange::Immunity(imm) => {
            &&& t.immunity matches Some(i) && i.all == imm.all && i.types@ == imm.types@ && i.remaining_turns == imm.duration
            &&& t.statuses == s.statuses && t.buffs == s.buffs && t.debuffs == s.debuffs && t.barriers == s.barriers
            &&& t.hots == s.hots
        },
        EffectChange::Cleanse(ct) => {
            &&& t.statuses@ == s.statuses@.filter(status::kept_by(*ct))
            &&& t.buffs == s.buffs && t.debuffs == s.debuffs && t.barriers == s.barriers && t.hots == s.hots
            &&& t.immunity == s.immunity
        },
        _ => true,
    }
}

/// `v` is `u` after a hit met its barriers: `blocked` exactly when a charge
/// was left, and then one charge fewer; nothing else in effect changed.
pub open spec fn barrier_used(u: BattleUnitFull, v: BattleUnitFull, blocked: bool) -> bool {
    &&& blocked == (status::total_charges(u.status_state.barriers@) > 0)
    &&& status::total_charges(v.status_state.barriers@) == status::total_charges(u.status_state.barriers@) - (if blocked {
        1int
    } else {
        0int
    })
    &&& v.status_state.statuses == u.status_state.statuses
    &&& v.status_state.buffs == u.status_state.buffs
    &&& v.status_state.debuffs == u.status_state.debuffs
    &&& v.status_state.hots == u.status_state.hots
    &&& v.status_state.immunity == u.status_state.immunity
}

/// Change what is in effect on the unit at `r`; returns whether a status
/// was applied or a barrier charge spent (false for the other changes).
fn change_effects(battle: &mut Battle, r: TargetRef, c: EffectChange) -> (done: bool)
    requires
        old(battle).wf(),
        unit_at(*old(battle), r) is Some,
    ensures
        final(battle).wf(),
        exec_frame(*old(battle), *final(battle)),
        final(battle).team_djinn_slots == old(battle).team_djinn_slots,
        final(battle).mana_pool == old(battle).mana_pool,
        exists|v: BattleUnitFull| replaced(*old(battle), *final(battle), r, v) && only_effects_changed(unit_at(*old(battle), r).unwrap(), v)
            && (c is ConsumeBarrier ==> barrier_used(unit_at(*old(battle), r).unwrap(), v, done))
            && (c matches EffectChange::Buff(e, m) ==> {
                let u = unit_at(*old(battle), r).unwrap();
                &&& v.status_state.buffs@ == status::stacked(
                    u.status_state.buffs@,
                    status::fresh_buff(e.stat_modifiers, e.duration),
                    m,
                )
                &&& status::same_except_buffs(u.status_state, v.status_state)
            })
            && (c is TickBuffs ==> tick_applied(unit_at(*old(battle), r).unwrap(), v, RoundTick::Buffs))
            && (c is TickBarriers ==> tick_applied(unit_at(*old(battle), r).unwrap(), v, RoundTick::Barriers))
            && (c is TickImmunity ==> tick_applied(unit_at(*old(battle), r).unwrap(), v, RoundTick::Immunity)),
        unit_at(*final(battle), r) is Some,
        only_effects_changed(unit_at(*old(battle), r).unwrap(), unit_at(*final(battle), r).unwrap()),
        effect_applied(unit_at(*old(battle), r).unwrap(), unit_at(*final(battle), r).unwrap(), c, done),
        c matches EffectChange::Buff(e, m) ==> unit_at(*final(battle), r).unwrap().status_state.buffs@ == status::stacked(
            unit_at(*old(battle), r).unwrap().status_state.buffs@,
            status::fresh_buff(e.stat_modifiers, e.duration),
            m,
        ) && status::same_except_buffs(
            unit_at(*old(battle), r).unwrap().status_state,
            unit_at(*final(battle), r).unwrap().status_state,
        ),
{
    let ghost b0 = *battle;
    let mut u = take_unit(battle, r);
    let ghost u0 = u;
    let done = match c {
        EffectChange::Status(e) => {
            let imm = u.status_state.immunity.clone();
            status::apply_status(&mut u.status_state, e, &imm)
        },
        EffectChange::Buff(e, max_stacks) => {
            status::apply_buff_stacked(&mut u.status_state, e, max_stacks);
            false
        },
        EffectChange::Debuff(e, max_stacks) => {
            status::apply_debuff_stacked(&mut u.status_state, e, max_stacks);
            false
        },
        EffectChange::AddBarrier(charges, duration) => {
            status::apply_barrier(&mut u.status_state, charges, duration);
            false
        },
        EffectChange::Hot(amount, duration) => {
            status::apply_hot(&mut u.status_state, amount, duration);
            false
        },
        EffectChange::Immunity(imm) => {
            status::apply_immunity(&mut u.status_state, imm);
            false
        },
        EffectChange::Cleanse(ct) => {
            let _ = status::cleanse(&mut u.status_state.statuses, ct);
            false
        },
        EffectChange::ConsumeBarrier => {
            let used = status::consume_barrier(&mut u.status_state.barriers);
            proof {
                let bs = u0.status_state.barriers@;
                status::lemma_barrier_blocks_one_hit_per_charge(bs, -1);
                if used {
                    let k = choose|k: int|
                        0 <= k < bs.len() && (#[trigger] bs[k]).charges > 0 && (forall|j: int| 0 <= j < k ==> (#[trigger] bs[j]).charges == 0)
                            && u.status_state.barriers@ == bs.update(
                            k,
                            status::ActiveBarrier { charges: (bs[k].charges - 1) as u8, remaining_turns: bs[k].remaining_turns },
                        );
                    status::lemma_barrier_blocks_one_hit_per_charge(bs, k);
                }
            }
            used
        },
        EffectChange::TickBuffs => {
            status::tick_buffs(&mut u.status_state.buffs);
            status::tick_buffs(&mut u.status_state.debuffs);
            false
        },
        EffectChange::TickBarriers => {
            status::tick_barriers(&mut u.status_state.barriers);
            false
        },
        EffectChange::TickImmunity => {
            status::tick_immunity(&mut u.status_state.immunity);
            false
        },
    };
    let ghost v = u;
    proof {
        lemma_take_put(side_units(b0, r.side), r.index as int, v);
    }
    put_unit(battle, r, u);
    proof {
        assert(replaced(b0, *battle, r, v));
        lemma_replaced(b0, *battle, r, v);
    }
    done
}

// ── Auto-attacks ────────────────────────────────────────────────────

/// Units outside `s` are as they were.
pub open spec fn touches_only(a: Battle, b: Battle, s: Set<TargetRef>) -> bool {
    forall|r: TargetRef| !s.contains(r) ==> #[trigger] unit_at(b, r) == unit_at(a, r)
}

proof fn lemma_replaced_touches(a: Battle, b: Battle, r: TargetRef, v: BattleUnitFull, s: Set<TargetRef>)
    requires
        replaced(a, b, r, v),
        unit_at(a, r) is Some,
        s.contains(r),
    ensures
        touches_only(a, b, s),
        unit_at(b, r) == Some(v),
{
    assert forall|q: TargetRef| !s.contains(q) implies #[trigger] unit_at(b, q) == unit_at(a, q) by {
        if q.side == r.side {
            assert(q.index != r.index);
        } else {
            assert(other_side(r.side) == q.side);
        }
    }
}

proof fn lemma_touches_refl(a: Battle, s: Set<TargetRef>)
    ensures
        touches_only(a, a, s),
{
}

proof fn lemma_touches_trans(a: Battle, b: Battle, c: Battle, s: Set<TargetRef>)
    requires
        touches_only(a, b, s),
        touches_only(b, c, s),
    ensures
        touches_only(a, c, s),
{
    assert forall|q: TargetRef| !s.contains(q) implies #[trigger] unit_at(c, q) == unit_at(a, q) by {
        assert(unit_at(c, q) == unit_at(b, q));
    }
}

proof fn lemma_touches_same_units(a: Battle, b: Battle, c: Battle, s: Set<TargetRef>)
    requires
        touches_only(a, b, s),
        c.player_units == b.player_units,
        c.enemies == b.enemies,
    ensures
        touches_only(a, c, s),
{
    assert forall|q: TargetRef| !s.contains(q) implies #[trigger] unit_at(c, q) == unit_at(a, q) by {
        assert(unit_at(c, q) == unit_at(b, q));
    }
}

/// `r` holds `s` with the buff and debuff modifiers added, each statistic
/// but HP within `[0, 9999]`.
pub open spec fn buffed(r: Stats, s: Stats, m: StatBonus) -> bool {
    &&& r.hp == s.hp
    &&& r.atk@ == bounded_stat(s.atk@ as int, m.atk@ as int, 0)
    &&& r.def@ == bounded_stat(s.def@ as int, m.def@ as int, 0)
    &&& r.mag@ == bounded_stat(s.mag@ as int, m.mag@ as int, 0)
    &&& r.spd@ == bounded_stat(s.spd@ as int, m.spd@ as int, 0)
}

fn buffed_stats(s: &Stats, m: &StatBonus) -> (r: Stats)
    ensures
        buffed(r, *s, *m),
{
    Stats {
        hp: s.hp,
        atk: BaseStat::new_unchecked(bounded_value(s.atk.get(), m.atk, 0)),
        def: BaseStat::new_unchecked(bounded_value(s.def.get(), m.def, 0)),
        mag: BaseStat::new_unchecked(bounded_value(s.mag.get(), m.mag, 0)),
        spd: BaseStat::new_unchecked(bounded_value(s.spd.get(), m.spd, 0)),
    }
}

proof fn lemma_hits_crit_bound(
    n: nat,
    dmg: u16,
    hp: u16,
    counter: u8,
    auto: bool,
    config: CombatConfig,
)
    requires
        counter < 255,
    ensures
        forall|i: int|
            0 <= i < combat::multi_hit_seq(n, dmg, hp, counter, auto, config).len() ==> (#[trigger] combat::multi_hit_seq(
                n,
                dmg,
                hp,
                counter,
                auto,
                config,
            )[i]).crit_counter_after < 255,
    decreases n,
{
    if n > 0 && hp > 0 {
        let c1: int = if auto { counter + 1 } else { counter as int };
        let crit = auto && c1 >= config.crit_threshold;
        let c2: u8 = if crit { 0 } else { c1 as u8 };
        let d: int = if crit { combat::crit_damage(dmg, config) } else { dmg as int };
        let actual: u16 = if d < hp { d as u16 } else { hp };
        let hp2: u16 = (hp - actual) as u16;
        lemma_hits_crit_bound((n - 1) as nat, dmg, hp2, c2, auto, config);
        let rest = combat::multi_hit_seq((n - 1) as nat, dmg, hp2, c2, auto, config);
        let all = combat::multi_hit_seq(n, dmg, hp, counter, auto, config);
        assert forall|i: int| 0 <= i < all.len() implies (#[trigger] all[i]).crit_counter_after < 255 by {
            if i > 0 {
                assert(all[i] == rest[i - 1]);
            }
        }
    }
}

/// The stat modifiers in effect on a unit: its buffs, then its debuffs,
/// summed and clamped.
pub open spec fn unit_mods(u: BattleUnitFull) -> BonusTotals {
    status::sum_bonuses(status::sum_bonuses(zero_totals(), u.status_state.buffs@), u.status_state.debuffs@)
}

/// Damage of one auto-attack hit of `a` on `t`: physical, from their stats
/// with the modifiers in effect.
pub open spec fn attack_damage(a: BattleUnitFull, t: BattleUnitFull, config: CombatConfig) -> int {
    combat::damage_formula(
        0,
        bounded_stat(a.unit.stats.atk@ as int, unit_mods(a).atk, 0),
        bounded_stat(t.unit.stats.def@ as int, unit_mods(t).def, 0),
        config.physical_def_multiplier_pct as int,
    )
}

/// The hits of an auto-attack of `a` on `t`: one, plus the attacker's extra
/// hits (at most 255 in all).
pub open spec fn attack_hits(a: BattleUnitFull, t: BattleUnitFull, config: CombatConfig) -> Seq<combat::HitResult> {
    combat::multi_hit_seq(
        (if a.hit_count_bonus < 255 { a.hit_count_bonus + 1 } else { 255 }) as nat,
        attack_damage(a, t, config) as u16,
        t.unit.current_hp,
        a.unit.crit_counter,
        true,
        config,
    )
}

/// The target's HP after the hits, the first `blocks` of them stopped by
/// barriers; the attack ends with the hit that fells the target.
pub open spec fn hp_after_hits(hp: u16, hits: Seq<combat::HitResult>, blocks: nat) -> u16
    decreases hits.len(),
{
    if hits.len() == 0 {
        hp
    } else if blocks > 0 {
        hp_after_hits(hp, hits.drop_first(), (blocks - 1) as nat)
    } else if hits[0].target_killed {
        sat_sub_u16(hp, hits[0].damage)
    } else {
        hp_after_hits(sat_sub_u16(hp, hits[0].damage), hits.drop_first(), 0)
    }
}

/// The pool's mana after the hits, each generating its mana, up to `max`.
pub open spec fn mana_after_hits(m: u8, max: u8, hits: Seq<combat::HitResult>, blocks: nat) -> u8
    decreases hits.len(),
{
    if hits.len() == 0 {
        m
    } else {
        let m2 = combat::min_int(combat::min_int(m + hits[0].mana_generated, 255), max as int) as u8;
        if blocks > 0 {
            mana_after_hits(m2, max, hits.drop_first(), (blocks - 1) as nat)
        } else if hits[0].target_killed {
            m2
        } else {
            mana_after_hits(m2, max, hits.drop_first(), 0)
        }
    }
}

/// The attacker's crit counter after the hits.
pub open spec fn crit_after_hits(c: u8, hits: Seq<combat::HitResult>, blocks: nat) -> u8
    decreases hits.len(),
{
    if hits.len() == 0 {
        c
    } else if blocks > 0 {
        crit_after_hits(hits[0].crit_counter_after, hits.drop_first(), (blocks - 1) as nat)
    } else if hits[0].target_killed {
        hits[0].crit_counter_after
    } else {
        crit_after_hits(hits[0].crit_counter_after, hits.drop_first(), 0)
    }
}

/// What an auto-attack of `actor` on `target` reports, hit by hit, from a
/// pool of `m` out of `max` mana, the first `blocks` hits stopped by
/// barriers: a blocked hit reports the block and, where it generates mana,
/// the pool's change; a landed hit reports its damage, a critical hit, and
/// the target's fall, which ends the attack.
pub open spec fn attack_events(
    actor: TargetRef,
    target: TargetRef,
    m: u8,
    max: u8,
    hits: Seq<combat::HitResult>,
    blocks: nat,
) -> Seq<BattleEvent>
    decreases hits.len(),
{
    if hits.len() == 0 {
        seq![]
    } else {
        let h = hits[0];
        let m2 = combat::min_int(combat::min_int(m + h.mana_generated, 255), max as int) as u8;
        if blocks > 0 {
            seq![BattleEvent::BarrierBlocked(target)] + (if h.mana_generated > 0 {
                seq![BattleEvent::ManaChanged(ManaPoolChanged { old_value: sat_sub_u8(m2, h.mana_generated), new_value: m2 })]
            } else {
                seq![]
            }) + attack_events(actor, target, m2, max, hits.drop_first(), (blocks - 1) as nat)
        } else {
            let dealt = seq![
                BattleEvent::DamageDealt(
                    DamageDealt {
                        source: actor,
                        target,
                        amount: h.damage,
                        damage_type: DamageType::Physical,
                        is_crit: h.is_crit,
                    },
                ),
            ] + (if h.is_crit {
                seq![BattleEvent::CritTriggered(actor, h.crit_counter_after)]
            } else {
                seq![]
            });
            if h.target_killed {
                dealt + seq![BattleEvent::UnitDefeated(UnitDefeated { unit: target })]
            } else {
                dealt + attack_events(actor, target, m2, max, hits.drop_first(), 0)
            }
        }
    }
}

pub open spec fn sat_sub_u8(a: u8, b: u8) -> u8 {
    if a >= b {
        (a - b) as u8
    } else {
        0
    }
}

/// Barrier charges left after the hits: one goes per blocked hit.
pub open spec fn blocks_after(blocks: nat, hits: Seq<combat::HitResult>) -> nat
    decreases hits.len(),
{
    if hits.len() == 0 {
        blocks
    } else if blocks > 0 {
        blocks_after((blocks - 1) as nat, hits.drop_first())
    } else {
        0
    }
}

/// What an auto-attack of `actor` on `target` does (see `execute_attack`).
pub open spec fn attack_done(
    a: Battle,
    b: Battle,
    ea: Seq<BattleEvent>,
    eb: Seq<BattleEvent>,
    actor: TargetRef,
    target: TargetRef,
) -> bool {
    &&& b.team_djinn_slots == a.team_djinn_slots
    &&& sourced(ea, eb, actor)
    &&& touches_only(a, b, set![actor, target])
    &&& !is_alive_at(a, target) ==> b == a && eb == ea
    &&& is_alive_at(a, target) ==> ({
        let u = unit_at(a, actor).unwrap();
        let t = unit_at(a, target).unwrap();
        let hits = attack_hits(u, t, a.config);
        let blocks = status::total_charges(t.status_state.barriers@);
        &&& unit_at(b, target) matches Some(t2) && t2.unit.current_hp == hp_after_hits(t.unit.current_hp, hits, blocks)
        &&& unit_at(b, actor) matches Some(a2) && a2.unit.crit_counter == crit_after_hits(
            u.unit.crit_counter,
            hits,
            blocks,
        )
        &&& actor != target ==> (unit_at(b, actor) matches Some(a2) && a2.unit.current_hp == u.unit.current_hp)
        &&& b.mana_pool.current_mana == mana_after_hits(a.mana_pool.current_mana, a.mana_pool.max_mana, hits, blocks)
        &&& unit_at(b, target) matches Some(t2) && status::total_charges(t2.status_state.barriers@) == blocks_after(
            blocks,
            hits,
        )
        &&& eb == ea + attack_events(actor, target, a.mana_pool.current_mana, a.mana_pool.max_mana, hits, blocks)
    })
}

/// An auto-attack of the unit at `actor_ref` on the one at `target_ref`.
/// On a target that is up, of either side or the attacker itself: the attack's hits (see
/// `attack_hits`) land in turn, the first ones each stopped by a barrier
/// charge while any is left, the others taking their damage off the target's
/// HP, until the target falls; every hit generates its mana, and the attacker
/// keeps the crit counter of the last hit. A target that is down is left alone.
#[verifier::rlimit(50)]
fn execute_attack(
    battle: &mut Battle,
    actor_ref: TargetRef,
    target_ref: TargetRef,
    events: &mut Vec<BattleEvent>,
)
    requires
        old(battle).wf(),
        unit_at(*old(battle), actor_ref) is Some,
    ensures
        final(battle).wf(),
        exec_frame(*old(battle), *final(battle)),
        extends(old(events)@, final(events)@),
        attack_done(*old(battle), *final(battle), old(events)@, final(events)@, actor_ref, target_ref),
{
    let actor = get_unit(battle, actor_ref).unwrap();
    let attacker_stats = actor.unit.stats;
    let crit_counter = actor.unit.crit_counter;
    let hit_count_bonus = actor.hit_count_bonus;
    let attacker_mods = status::compute_stat_modifiers(actor.status_state.buffs.as_slice(), actor.status_state.debuffs.as_slice());
    proof {
        lemma_extends_refl(events@);
        assert(unit_wf(unit_at(*battle, actor_ref).unwrap())) by {
            assert(side_units(*battle, actor_ref.side)[actor_ref.index as int] == unit_at(*battle, actor_ref).unwrap());
        }
    }
    if !alive_ref(battle, target_ref) {
        return;
    }
    let target = get_unit(battle, target_ref).unwrap();
    let target_stats = target.unit.stats;
    let target_hp = target.unit.current_hp;
    let target_mods = status::compute_stat_modifiers(target.status_state.buffs.as_slice(), target.status_state.debuffs.as_slice());
    let effective_attacker = buffed_stats(&attacker_stats, &attacker_mods);
    let effective_target = buffed_stats(&target_stats, &target_mods);
    let base_hit_count: u8 = 1u8.saturating_add(hit_count_bonus);
    let base_damage = combat::calculate_damage(0, DamageType::Physical, &effective_attacker, &effective_target, &battle.config);
    let hits = combat::resolve_multi_hit(base_hit_count, base_damage, target_hp, crit_counter, true, &battle.config);
    proof {
        lemma_hits_crit_bound(base_hit_count as nat, base_damage, target_hp, crit_counter, true, battle.config);
    }
    let ghost b0 = *battle;
    let ghost e0 = events@;
    let ghost touched = set![actor_ref, target_ref];
    let ghost a0 = unit_at(b0, actor_ref).unwrap();
    let ghost t0 = unit_at(b0, target_ref).unwrap();
    let ghost other = actor_ref != target_ref;
    let ghost blocks0 = status::total_charges(t0.status_state.barriers@);
    proof {
        assert(hits@ == attack_hits(a0, t0, b0.config));
        assert(hits@.skip(0) =~= hits@);
    }
    let mut new_crit = crit_counter;
    let mut i: usize = 0;
    proof {
        lemma_extends_refl(events@);
        assert(exec_frame(b0, b0)) by {
            assert forall|k: int| 0 <= k < b0.player_units@.len() implies same_identity(b0.player_units@[k], #[trigger] b0.player_units@[k]) by {}
            assert forall|k: int| 0 <= k < b0.enemies@.len() implies same_identity(b0.enemies@[k], #[trigger] b0.enemies@[k]) by {}
        }
    }
    while i < hits.len()
        invariant
            i <= hits@.len(),
            battle.wf(),
            exec_frame(b0, *battle),
            extends(e0, events@),
            battle.team_djinn_slots == b0.team_djinn_slots,
            touches_only(b0, *battle, touched),
            touched == set![actor_ref, target_ref],
            unit_at(*battle, actor_ref) is Some,
            unit_at(*battle, target_ref) is Some,
            new_crit < 255,
            forall|k: int| 0 <= k < hits@.len() ==> (#[trigger] hits@[k]).crit_counter_after < 255,
            other ==> unit_at(*battle, actor_ref) == Some(a0),
            hp_after_hits(t0.unit.current_hp, hits@, blocks0) == hp_after_hits(
                unit_at(*battle, target_ref).unwrap().unit.current_hp,
                hits@.skip(i as int),
                status::total_charges(unit_at(*battle, target_ref).unwrap().status_state.barriers@),
            ),
            mana_after_hits(b0.mana_pool.current_mana, b0.mana_pool.max_mana, hits@, blocks0) == mana_after_hits(
                battle.mana_pool.current_mana,
                b0.mana_pool.max_mana,
                hits@.skip(i as int),
                status::total_charges(unit_at(*battle, target_ref).unwrap().status_state.barriers@),
            ),
            crit_after_hits(crit_counter, hits@, blocks0) == crit_after_hits(
                new_crit,
                hits@.skip(i as int),
                status::total_charges(unit_at(*battle, target_ref).unwrap().status_state.barriers@),
            ),
            battle.mana_pool.max_mana == b0.mana_pool.max_mana,
            other == (actor_ref != target_ref),
            sourced(e0, events@, actor_ref),
            blocks_after(blocks0, hits@) == blocks_after(
                status::total_charges(unit_at(*battle, target_ref).unwrap().status_state.barriers@),
                hits@.skip(i as int),
            ),
            e0 + attack_events(actor_ref, target_ref, b0.mana_pool.current_mana, b0.mana_pool.max_mana, hits@, blocks0)
                == events@ + attack_events(
                actor_ref,
                target_ref,
                battle.mana_pool.current_mana,
                b0.mana_pool.max_mana,
                hits@.skip(i as int),
                status::total_charges(unit_at(*battle, target_ref).unwrap().status_state.barriers@),
            ),
        decreases hits@.len() - i,
    {
        let hit = hits[i];
        let ghost b1 = *battle;
        let ghost rest = hits@.skip(i as int);
        proof {
            assert(rest[0] == hit);
            assert(rest.drop_first() =~= hits@.skip(i + 1));
        }
        let blocked = change_effects(battle, target_ref, EffectChange::ConsumeBarrier);
        let ghost tv = choose|v: BattleUnitFull| replaced(b1, *battle, target_ref, v) && only_effects_changed(unit_at(b1, target_ref).unwrap(), v)
            && barrier_used(unit_at(b1, target_ref).unwrap(), v, blocked);
        proof {
            let v = tv;
            lemma_replaced_touches(b1, *battle, target_ref, v, touched);
            lemma_touches_trans(b0, b1, *battle, touched);
            lemma_exec_frame_trans(b0, b1, *battle);
            assert(unit_at(*battle, actor_ref) is Some) by {
                if actor_ref != target_ref {
                    assert(!set![target_ref].contains(actor_ref));
                    lemma_replaced_touches(b1, *battle, target_ref, v, set![target_ref]);
                }
            }
            assert(unit_at(*battle, target_ref) == Some(v));
            if other {
                lemma_replaced_touches(b1, *battle, target_ref, v, set![target_ref]);
                assert(!set![target_ref].contains(actor_ref));
            }
        }
        if blocked {
            emit(events, BattleEvent::BarrierBlocked(target_ref));
            new_crit = hit.crit_counter_after;
            let ghost b4 = *battle;
            battle.mana_pool.generate_mana(hit.mana_generated);
            proof {
                lemma_touches_same_units(b0, b4, *battle, touched);
            }
            if hit.mana_generated > 0 {
                let now = battle.mana_pool.current_mana;
                emit(events, BattleEvent::ManaChanged(ManaPoolChanged { old_value: now.saturating_sub(hit.mana_generated), new_value: now }));
            }
            i += 1;
            continue;
        }
        let ghost b2 = *battle;
        damage_unit(battle, target_ref, hit.damage, true);
        let ghost dv = choose|v: BattleUnitFull| replaced(b2, *battle, target_ref, v) && damaged(unit_at(b2, target_ref).unwrap(), v, hit.damage, true);
        proof {
            let v = dv;
            lemma_replaced_touches(b2, *battle, target_ref, v, touched);
            lemma_touches_trans(b0, b2, *battle, touched);
            lemma_exec_frame_trans(b0, b2, *battle);
            assert(unit_at(*battle, actor_ref) is Some) by {
                if actor_ref != target_ref {
                    lemma_replaced_touches(b2, *battle, target_ref, v, set![target_ref]);
                }
            }
            assert(unit_at(*battle, target_ref) == Some(v));
            if other {
                lemma_replaced_touches(b2, *battle, target_ref, v, set![target_ref]);
                assert(!set![target_ref].contains(actor_ref));
            }
        }
        emit(events, BattleEvent::DamageDealt(DamageDealt {
            source: actor_ref,
            target: target_ref,
            amount: hit.damage,
            damage_type: DamageType::Physical,
            is_crit: hit.is_crit,
        }));
        if hit.is_crit {
            emit(events, BattleEvent::CritTriggered(actor_ref, hit.crit_counter_after));
        }
        new_crit = hit.crit_counter_after;
        let ghost b5 = *battle;
        battle.mana_pool.generate_mana(hit.mana_generated);
        proof {
            lemma_touches_same_units(b0, b5, *battle, touched);
        }
        if hit.target_killed {
            emit(events, BattleEvent::UnitDefeated(UnitDefeated { unit: target_ref }));
            proof {
                assert(hits@.skip(hits@.len() as int) =~= Seq::<combat::HitResult>::empty());
            }
            i = hits.len();
        } else {
            i += 1;
        }
    }
    let ghost b3 = *battle;
    proof {
        assert(unit_wf(unit_at(*battle, actor_ref).unwrap())) by {
            assert(side_units(*battle, actor_ref.side)[actor_ref.index as int] == unit_at(*battle, actor_ref).unwrap());
        }
        assert(hits@.skip(i as int) =~= Seq::<combat::HitResult>::empty());
    }
    change_unit(battle, actor_ref, UnitChange::Crit(new_crit));
    proof {
        let v = choose|v: BattleUnitFull| replaced(b3, *battle, actor_ref, v) && changed_as(unit_at(b3, actor_ref).unwrap(), v, UnitChange::Crit(new_crit));
        lemma_replaced_touches(b3, *battle, actor_ref, v, touched);
        lemma_touches_trans(b0, b3, *battle, touched);
        lemma_exec_frame_trans(b0, b3, *battle);
        lemma_exec_frame_trans(*old(battle), b0, *battle);
        assert(unit_at(*battle, actor_ref) == Some(v));
        if other {
            lemma_replaced_touches(b3, *battle, actor_ref, v, set![actor_ref]);
            assert(!set![actor_ref].contains(target_ref));
        }
    }
}

// ── Abilities ───────────────────────────────────────────────────────

proof fn lemma_find_ability_in(defs: Seq<AbilityDef>, id: Seq<char>)
    ensures
        find_ability(defs, id) matches Some(a) ==> exists|i: int| 0 <= i < defs.len() && #[trigger] defs[i] == a,
    decreases defs.len(),
{
    if defs.len() > 0 && defs[0].id@ != id {
        lemma_find_ability_in(defs.drop_first(), id);
        if let Some(a) = find_ability(defs.drop_first(), id) {
            let i = choose|i: int| 0 <= i < defs.drop_first().len() && #[trigger] defs.drop_first()[i] == a;
            assert(defs[i + 1] == a);
        }
    } else if defs.len() > 0 {
        assert(defs[0] == find_ability(defs, id).unwrap());
    }
}

/// Execution keeps the team's djinn, the units' djinn and consistency.
pub open spec fn exec_step(a: Battle, b: Battle, ea: Seq<BattleEvent>, eb: Seq<BattleEvent>) -> bool {
    &&& b.wf()
    &&& exec_frame(a, b)
    &&& extends(ea, eb)
}

proof fn lemma_exec_step_trans(a: Battle, b: Battle, c: Battle, ea: Seq<BattleEvent>, eb: Seq<BattleEvent>, ec: Seq<BattleEvent>)
    requires
        exec_step(a, b, ea, eb),
        exec_step(b, c, eb, ec),
    ensures
        exec_step(a, c, ea, ec),
{
    lemma_exec_frame_trans(a, b, c);
    lemma_extends_trans(ea, eb, ec);
}

proof fn lemma_exec_step_refl(a: Battle, ea: Seq<BattleEvent>)
    requires
        a.wf(),
    ensures
        exec_step(a, a, ea, ea),
{
    lemma_extends_refl(ea);
    assert forall|k: int| 0 <= k < a.player_units@.len() implies same_identity(a.player_units@[k], #[trigger] a.player_units@[k]) by {}
    assert forall|k: int| 0 <= k < a.enemies@.len() implies same_identity(a.enemies@[k], #[trigger] a.enemies@[k]) by {}
}

proof fn lemma_frame_keeps_refs(a: Battle, b: Battle)
    requires
        exec_frame(a, b),
    ensures
        forall|r: TargetRef| (#[trigger] unit_at(b, r)) is Some == unit_at(a, r) is Some,
{
}

/// The references of the first `n` units of `side`, in order.
pub open spec fn side_refs(side: Side, n: nat) -> Seq<TargetRef> {
    Seq::new(n, |k: int| TargetRef { side, index: k as u8 })
}

/// `v` is `u`, at `r`, after a chain of `amount`: a unit that is up and is
/// not the primary target takes the damage; any other stays as it was.
pub open spec fn chain_hit(u: BattleUnitFull, v: BattleUnitFull, r: TargetRef, primary: TargetRef, amount: u16) -> bool {
    if u.unit.is_alive && r != primary {
        damaged(u, v, amount, true)
    } else {
        v == u
    }
}

proof fn lemma_filter_side_refs(side: Side, n: nat, wanted: Side)
    requires
        n <= 256,
    ensures
        side_refs(side, n).filter(damage_mods::on_side(wanted)) == (if side == wanted {
            side_refs(side, n)
        } else {
            Seq::<TargetRef>::empty()
        }),
    decreases n,
{
    broadcast use vstd::seq_lib::group_filter_ensures;

    if n == 0 {
        assert(side_refs(side, 0) =~= Seq::<TargetRef>::empty());
        assert(Seq::<TargetRef>::empty().filter(damage_mods::on_side(wanted)) =~= Seq::<TargetRef>::empty()) by {
            Seq::<TargetRef>::empty().lemma_filter_len(damage_mods::on_side(wanted));
        }
    } else {
        lemma_filter_side_refs(side, (n - 1) as nat, wanted);
        let prev = side_refs(side, (n - 1) as nat);
        let last = TargetRef { side, index: (n - 1) as u8 };
        assert(side_refs(side, n) =~= prev.push(last));
        prev.lemma_filter_push(last, damage_mods::on_side(wanted));
    }
}

/// The units a chain reaches: every unit of the side opposing `side`, in
/// index order.
proof fn lemma_chain_refs(side: Side, np: nat, ne: nat)
    requires
        np <= 255,
        ne <= 255,
    ensures
        damage_mods::sort_by_index(
            (side_refs(Side::Player, np) + side_refs(Side::Enemy, ne)).filter(
                damage_mods::on_side(damage_mods::opposing_side(side)),
            ),
        ) == side_refs(other_side(side), if other_side(side) == Side::Player { np } else { ne }),
{
    let wanted = damage_mods::opposing_side(side);
    let opp = other_side(side);
    assert(wanted == opp);
    let n_opp = if opp == Side::Player { np } else { ne };
    let pred = damage_mods::on_side(wanted);
    Seq::filter_distributes_over_add(side_refs(Side::Player, np), side_refs(Side::Enemy, ne), pred);
    lemma_filter_side_refs(Side::Player, np, wanted);
    lemma_filter_side_refs(Side::Enemy, ne, wanted);
    let refs = side_refs(opp, n_opp);
    assert((side_refs(Side::Player, np) + side_refs(Side::Enemy, ne)).filter(pred) =~= refs);
    assert forall|x: int, y: int| 0 <= x < y < refs.len() implies (#[trigger] refs[x]).index <= (#[trigger] refs[y]).index by {
        assert(refs[x].index == x as u8);
        assert(refs[y].index == y as u8);
        assert(0 <= x < 256 && 0 <= y < 256);
        assert(x as u8 == x);
        assert(y as u8 == y);
    }
    damage_mods::lemma_sort_sorted(refs);
}

/// Hit, with `amount` of `damage_type` damage, every unit that is up on the
/// side opposing the actor, in index order, except the primary target (which
/// has been hit already); each hit is reported, and each unit felled.
#[verifier::rlimit(60)]
pub fn apply_chain_damage(
    battle: &mut Battle,
    actor_ref: TargetRef,
    primary_target_ref: TargetRef,
    amount: u16,
    damage_type: DamageType,
    is_crit: bool,
    events: &mut Vec<BattleEvent>,
)
    requires
        old(battle).wf(),
    ensures
        exec_step(*old(battle), *final(battle), old(events)@, final(events)@),
        sourced(old(events)@, final(events)@, actor_ref),
        final(battle).team_djinn_slots == old(battle).team_djinn_slots,
        final(battle).mana_pool == old(battle).mana_pool,
        side_units(*final(battle), actor_ref.side) == side_units(*old(battle), actor_ref.side),
        side_units(*final(battle), other_side(actor_ref.side)).len() == side_units(
            *old(battle),
            other_side(actor_ref.side),
        ).len(),
        forall|k: int|
            0 <= k < side_units(*old(battle), other_side(actor_ref.side)).len() ==> chain_hit(
                side_units(*old(battle), other_side(actor_ref.side))[k],
                #[trigger] side_units(*final(battle), other_side(actor_ref.side))[k],
                TargetRef { side: other_side(actor_ref.side), index: k as u8 },
                primary_target_ref,
                amount,
            ),
{
    let opp = actor_ref.side.opposite();
    let ghost b0 = *battle;
    let ghost e0 = events@;
    let np = battle.player_units.len();
    let ne = battle.enemies.len();
    let mut all_targets: Vec<TargetRef> = Vec::new();
    let mut i: usize = 0;
    while i < np
        invariant
            np == b0.player_units@.len(),
            np <= 255,
            i <= np,
            all_targets@ == side_refs(Side::Player, i as nat),
        decreases np - i,
    {
        all_targets.push(TargetRef { side: Side::Player, index: i as u8 });
        i += 1;
        assert(all_targets@ =~= side_refs(Side::Player, i as nat));
    }
    let mut j: usize = 0;
    while j < ne
        invariant
            ne == b0.enemies@.len(),
            ne <= 255,
            j <= ne,
            all_targets@ == side_refs(Side::Player, np as nat) + side_refs(Side::Enemy, j as nat),
        decreases ne - j,
    {
        all_targets.push(TargetRef { side: Side::Enemy, index: j as u8 });
        j += 1;
        assert(all_targets@ =~= side_refs(Side::Player, np as nat) + side_refs(Side::Enemy, j as nat));
    }
    let chain_targets = damage_mods::calculate_chain_targets(actor_ref, all_targets.as_slice());
    let n_opp = match opp {
        Side::Player => np,
        Side::Enemy => ne,
    };
    proof {
        assert(opp == other_side(actor_ref.side));
        lemma_chain_refs(actor_ref.side, np as nat, ne as nat);
        lemma_exec_step_refl(b0, e0);
    }
    let mut k: usize = 0;
    while k < chain_targets.len()
        invariant
            k <= chain_targets@.len(),
            chain_targets@ == side_refs(opp, n_opp as nat),
            n_opp == side_units(b0, opp).len(),
            n_opp <= 255,
            opp == other_side(actor_ref.side),
            exec_step(b0, *battle, e0, events@),
            battle.team_djinn_slots == b0.team_djinn_slots,
            battle.mana_pool == b0.mana_pool,
            side_units(*battle, actor_ref.side) == side_units(b0, actor_ref.side),
            side_units(*battle, opp).len() == n_opp,
            forall|q: int| 0 <= q < k ==> chain_hit(
                side_units(b0, opp)[q],
                #[trigger] side_units(*battle, opp)[q],
                TargetRef { side: opp, index: q as u8 },
                primary_target_ref,
                amount,
            ),
            forall|q: int| k <= q < n_opp ==> #[trigger] side_units(*battle, opp)[q] == side_units(b0, opp)[q],
            sourced(e0, events@, actor_ref),
        decreases chain_targets@.len() - k,
    {
        let tr = chain_targets[k];
        assert(tr == TargetRef { side: opp, index: k as u8 });
        assert(side_units(*battle, opp)[k as int] == side_units(b0, opp)[k as int]);
        if tr != primary_target_ref && alive_ref(battle, tr) {
            let ghost b1 = *battle;
            let ghost e1 = events@;
            damage_unit(battle, tr, amount, true);
            emit(events, BattleEvent::DamageDealt(DamageDealt { source: actor_ref, target: tr, amount, damage_type, is_crit }));
            if !alive_ref(battle, tr) {
                emit(events, BattleEvent::UnitDefeated(UnitDefeated { unit: tr }));
            }
            proof {
                lemma_exec_step_trans(b0, b1, *battle, e0, e1, events@);
                let v = choose|v: BattleUnitFull| replaced(b1, *battle, tr, v) && damaged(unit_at(b1, tr).unwrap(), v, amount, true);
                assert(side_units(*battle, opp) == side_units(b1, opp).update(k as int, v));
                assert forall|q: int| 0 <= q < k + 1 implies chain_hit(
                    side_units(b0, opp)[q],
                    #[trigger] side_units(*battle, opp)[q],
                    TargetRef { side: opp, index: q as u8 },
                    primary_target_ref,
                    amount,
                ) by {
                    if q < k {
                        assert(side_units(*battle, opp)[q] == side_units(b1, opp)[q]);
                    }
                }
                assert forall|q: int| k + 1 <= q < n_opp implies #[trigger] side_units(*battle, opp)[q] == side_units(b0, opp)[q] by {
                    assert(side_units(*battle, opp)[q] == side_units(b1, opp)[q]);
                }
            }
        }
        k += 1;
    }
}

/// Splash the living units beside `target_ref` on its side with `amount`.
fn apply_splash(
    battle: &mut Battle,
    actor_ref: TargetRef,
    target_ref: TargetRef,
    splash_pct: u8,
    amount: u16,
    damage_type: DamageType,
    events: &mut Vec<BattleEvent>,
)
    requires
        old(battle).wf(),
    ensures
        exec_step(*old(battle), *final(battle), old(events)@, final(events)@),
        sourced(old(events)@, final(events)@, actor_ref),
        final(battle).team_djinn_slots == old(battle).team_djinn_slots,
        final(battle).mana_pool == old(battle).mana_pool,
        unit_at(*final(battle), target_ref) == unit_at(*old(battle), target_ref),
{
    let count = match target_ref.side {
        Side::Enemy => battle.enemies.len(),
        Side::Player => battle.player_units.len(),
    };
    let mut all_targets: Vec<TargetRef> = Vec::new();
    let mut i: usize = 0;
    while i < count
        invariant
            count <= 255,
            i <= count,
        decreases count - i,
    {
        all_targets.push(TargetRef { side: target_ref.side, index: i as u8 });
        i += 1;
    }
    let splash_targets = damage_mods::calculate_splash_targets(target_ref, splash_pct, all_targets.as_slice());
    let ghost b0 = *battle;
    let ghost e0 = events@;
    proof {
        lemma_exec_step_refl(b0, e0);
    }
    let mut k: usize = 0;
    while k < splash_targets.len()
        invariant
            k <= splash_targets@.len(),
            exec_step(b0, *battle, e0, events@),
            battle.team_djinn_slots == b0.team_djinn_slots,
            battle.mana_pool == b0.mana_pool,
            sourced(e0, events@, actor_ref),
            unit_at(*battle, target_ref) == unit_at(b0, target_ref),
            splash_targets@ == all_targets@.filter(damage_mods::splashed(target_ref)).map_values(
                damage_mods::with_pct(splash_pct),
            ),
        decreases splash_targets@.len() - k,
    {
        let tr = splash_targets[k].0;
        proof {
            all_targets@.lemma_filter_pred(damage_mods::splashed(target_ref), k as int);
            assert(tr == all_targets@.filter(damage_mods::splashed(target_ref))[k as int]);
            assert(tr != target_ref);
        }
        if alive_ref(battle, tr) {
            let ghost b1 = *battle;
            let ghost e1 = events@;
            damage_unit(battle, tr, amount, false);
            proof {
                let v = choose|v: BattleUnitFull| replaced(b1, *battle, tr, v) && damaged(unit_at(b1, tr).unwrap(), v, amount, false);
                lemma_replaced_touches(b1, *battle, tr, v, set![tr]);
                assert(!set![tr].contains(target_ref));
            }
            emit(events, BattleEvent::DamageDealt(DamageDealt { source: actor_ref, target: tr, amount, damage_type, is_crit: false }));
            if get_unit(battle, tr).unwrap().unit.current_hp == 0 {
                emit(events, BattleEvent::UnitDefeated(UnitDefeated { unit: tr }));
            }
            proof {
                lemma_exec_step_trans(b0, b1, *battle, e0, e1, events@);
            }
        }
        k += 1;
    }
}

/// Damage of the hits added up, capped at `u16::MAX` at every step.
pub open spec fn hits_damage(hits: Seq<combat::HitResult>) -> int
    decreases hits.len(),
{
    if hits.len() == 0 {
        0
    } else {
        let sum = hits_damage(hits.drop_last()) + hits.last().damage;
        if sum > 65535 {
            65535
        } else {
            sum
        }
    }
}

/// Sum of the damage of the hits and whether any was critical.
fn hits_total(hits: &Vec<combat::HitResult>) -> (r: (u16, bool))
    ensures
        r.0 == hits_damage(hits@),
        r.1 == exists|i: int| 0 <= i < hits@.len() && (#[trigger] hits@[i]).is_crit,
{
    let mut total: u16 = 0;
    let mut crit = false;
    let mut i: usize = 0;
    while i < hits.len()
        invariant
            i <= hits@.len(),
            total == hits_damage(hits@.take(i as int)),
            crit == exists|j: int| 0 <= j < i && (#[trigger] hits@[j]).is_crit,
        decreases hits@.len() - i,
    {
        proof {
            assert(hits@.take(i + 1).drop_last() =~= hits@.take(i as int));
        }
        total = total.saturating_add(hits[i].damage);
        crit = crit || hits[i].is_crit;
        i += 1;
    }
    assert(hits@.take(i as int) =~= hits@);
    (total, crit)
}

/// HP a revive restores: `pct` percent of the maximum, at least 1.
pub open spec fn revive_hp(max_hp: u16, pct: u8) -> int {
    let v = max_hp * pct / 100;
    if v < 1 {
        1
    } else {
        v
    }
}

fn revive_amount(max_hp: u16, pct: u8) -> (r: u16)
    requires
        1 <= max_hp <= 9999,
    ensures
        r == revive_hp(max_hp, pct),
        r >= 1,
{
    assert((max_hp as u32) * (pct as u32) <= 9999u32 * 255u32) by (nonlinear_arith)
        requires
            max_hp <= 9999,
    ;
    let v: u32 = (max_hp as u32) * (pct as u32) / 100;
    if v < 1 {
        1
    } else {
        v as u16
    }
}

/// Whether using ability `a` goes ahead: enemies use their own budget,
/// player units need its cost in the pool.
pub open spec fn ability_paid(b: Battle, actor_ref: TargetRef, a: AbilityDef) -> bool {
    actor_ref.side == Side::Enemy || b.mana_pool.current_mana >= a.mana_cost@
}

/// What a healing ability of `base` power used by `a` heals: the power plus
/// the user's magic with its modifiers, at least 1.
pub open spec fn heal_power(a: BattleUnitFull, base: u16) -> int {
    let v = base + bounded_stat(a.unit.stats.mag@ as int, unit_mods(a).mag, 0);
    if v < 1 {
        1
    } else {
        v
    }
}

/// HP after `n` heals of `amount`, each capped at `max`.
pub open spec fn healed_hp(hp: int, max: int, amount: int, n: nat) -> int
    decreases n,
{
    if n == 0 {
        hp
    } else {
        let h = healed_hp(hp, max, amount, (n - 1) as nat);
        if h + amount > max {
            max
        } else {
            h + amount
        }
    }
}

/// How often `r` occurs in `s`.
pub open spec fn occurrences(s: Seq<TargetRef>, r: TargetRef) -> nat
    decreases s.len(),
{
    if s.len() == 0 {
        0
    } else {
        occurrences(s.drop_last(), r) + if s.last() == r {
            1nat
        } else {
            0nat
        }
    }
}

/// `v` is `u` healed `n` times by `amount`; a unit that is down is left alone.
pub open spec fn healed_times(u: BattleUnitFull, v: BattleUnitFull, n: nat, amount: int) -> bool {
    if n == 0 || !u.unit.is_alive {
        v == u
    } else {
        &&& only_life_changed(u, v)
        &&& v.unit.is_alive
        &&& v.unit.current_hp == healed_hp(u.unit.current_hp as int, u.unit.stats.hp@ as int, amount, n)
    }
}

/// What using ability `id` on `targets` does (see `execute_ability`).
pub open spec fn ability_done(
    before: Battle,
    after: Battle,
    ea: Seq<BattleEvent>,
    eb: Seq<BattleEvent>,
    actor: TargetRef,
    id: Seq<char>,
    targets: Seq<TargetRef>,
) -> bool {
    &&& after.team_djinn_slots == before.team_djinn_slots
    &&& find_ability(before.ability_defs@, id) is None ==> after == before && eb == ea
    &&& actor.side == Side::Player ==> match find_ability(before.ability_defs@, id) {
        Some(a) => if before.mana_pool.current_mana < a.mana_cost@ {
            after == before && eb == ea
        } else {
            &&& after.mana_pool.current_mana == before.mana_pool.current_mana - a.mana_cost@
            &&& after.mana_pool.max_mana == before.mana_pool.max_mana
            &&& after.mana_pool.projected_mana == before.mana_pool.projected_mana
        },
        None => true,
    }
    &&& actor.side == Side::Enemy ==> after.mana_pool == before.mana_pool
    &&& match find_ability(before.ability_defs@, id) {
        Some(a) => ability_paid(before, actor, a) ==> {
            &&& a.category == AbilityCategory::Healing && !(a.revive && a.revive_hp_percent is Some)
                ==> forall|r: TargetRef|
                #![trigger unit_at(before, r)]
                #![trigger unit_at(after, r)]
                unit_at(before, r) is Some ==> unit_at(after, r) is Some && healed_times(
                    unit_at(before, r).unwrap(),
                    unit_at(after, r).unwrap(),
                    occurrences(targets, r),
                    heal_power(unit_at(before, actor).unwrap(), a.base_power@),
                )
            &&& a.revive && a.revive_hp_percent is Some ==> forall|i: int|
                0 <= i < side_units(after, actor.side).len()
                    ==> (#[trigger] side_units(after, actor.side)[i]).unit.is_alive
            &&& eb.len() > ea.len()
            &&& opens_ability(eb[ea.len() as int], before, actor, a, targets)
            &&& a.category != AbilityCategory::Healing ==> exists|trace: Seq<Battle>, logs: Seq<Seq<BattleEvent>>|
                {
                    &&& #[trigger] ability_targets_played(trace, logs, actor, unit_at(before, actor).unwrap(), a, targets)
                    &&& trace[0].player_units == before.player_units
                    &&& trace[0].enemies == before.enemies
                    &&& trace[0].config == before.config
                    &&& logs[0] == ea.push(eb[ea.len() as int])
                    &&& extends(logs.last(), eb)
                    &&& !(a.revive && a.revive_hp_percent is Some) ==> trace.last() == after && logs.last() == eb
                }
            &&& a.category == AbilityCategory::Healing ==> eb == ea.push(eb[ea.len() as int]) + listed_heal_events(
                before,
                targets,
                actor,
                heal_power(unit_at(before, actor).unwrap(), a.base_power@),
            ) + match (a.revive, a.revive_hp_percent) {
                (true, Some(p)) => revive_events(side_units(before, actor.side), actor.side, actor, p),
                _ => seq![],
            }
        },
        None => true,
    }
}

/// The event that opens the use of ability `a`: for a player unit the pool's
/// change, for an enemy the announcement of the ability and its targets.
pub open spec fn opens_ability(e: BattleEvent, before: Battle, actor: TargetRef, a: AbilityDef, targets: Seq<TargetRef>) -> bool {
    if actor.side == Side::Player {
        e == BattleEvent::ManaChanged(
            ManaPoolChanged {
                old_value: before.mana_pool.current_mana,
                new_value: (before.mana_pool.current_mana - a.mana_cost@) as u8,
            },
        )
    } else {
        e matches BattleEvent::EnemyAbilityUsed { actor: x, ability_name: n, targets: ts } && x == actor && n@ == a.name@
            && ts@ == targets
    }
}

/// What healing the listed targets reports: the heal's amount, for each
/// listing of a target that is up.
pub open spec fn listed_heal_events(before: Battle, targets: Seq<TargetRef>, actor: TargetRef, amount: int) -> Seq<BattleEvent>
    decreases targets.len(),
{
    if targets.len() == 0 {
        seq![]
    } else {
        listed_heal_events(before, targets.drop_last(), actor, amount) + if is_alive_at(before, targets.last()) {
            seq![BattleEvent::HealingDone(HealingDone { source: actor, target: targets.last(), amount: amount as u16 })]
        } else {
            seq![]
        }
    }
}

/// What reviving the fallen among `units` of `side` at `pct` percent reports.
pub open spec fn revive_events(units: Seq<BattleUnitFull>, side: Side, actor: TargetRef, pct: u8) -> Seq<BattleEvent>
    decreases units.len(),
{
    if units.len() == 0 {
        seq![]
    } else {
        let u = units.last();
        revive_events(units.drop_last(), side, actor, pct) + if !u.unit.is_alive {
            seq![
                BattleEvent::HealingDone(
                    HealingDone {
                        source: actor,
                        target: TargetRef { side, index: (units.len() - 1) as u8 },
                        amount: revive_hp(u.unit.stats.hp@, pct) as u16,
                    },
                ),
            ]
        } else {
            seq![]
        }
    }
}

proof fn lemma_revive_events_same(s1: Seq<BattleUnitFull>, s2: Seq<BattleUnitFull>, side: Side, actor: TargetRef, pct: u8)
    requires
        s1.len() == s2.len(),
        forall|k: int|
            0 <= k < s1.len() ==> (#[trigger] s2[k]).unit.is_alive == s1[k].unit.is_alive && s2[k].unit.stats.hp
                == s1[k].unit.stats.hp,
    ensures
        revive_events(s1, side, actor, pct) == revive_events(s2, side, actor, pct),
    decreases s1.len(),
{
    if s1.len() > 0 {
        lemma_revive_events_same(s1.drop_last(), s2.drop_last(), side, actor, pct);
        assert(s2.last() == s2[s2.len() - 1]);
    }
}

/// Heal the living unit at `r` by `amount`, not above its maximum.
fn heal_target(battle: &mut Battle, source: TargetRef, r: TargetRef, amount: u16, events: &mut Vec<BattleEvent>)
    requires
        old(battle).wf(),
        is_alive_at(*old(battle), r),
    ensures
        exec_step(*old(battle), *final(battle), old(events)@, final(events)@),
        final(battle).team_djinn_slots == old(battle).team_djinn_slots,
        final(battle).mana_pool == old(battle).mana_pool,
        touches_only(*old(battle), *final(battle), set![r]),
        unit_at(*final(battle), r) matches Some(v) && changed_as(unit_at(*old(battle), r).unwrap(), v, UnitChange::Heal(amount)),
        forall|actor: TargetRef| #[trigger] sourced(old(events)@, final(events)@, actor),
        final(events)@ == old(events)@.push(BattleEvent::HealingDone(HealingDone { source, target: r, amount })),
{
    let ghost b0 = *battle;
    change_unit(battle, r, UnitChange::Heal(amount));
    proof {
        let v = choose|v: BattleUnitFull|
            replaced(b0, *battle, r, v) && changed_as(unit_at(b0, r).unwrap(), v, UnitChange::Heal(amount));
        lemma_replaced_touches(b0, *battle, r, v, set![r]);
    }
    let ghost e0 = events@;
    emit(events, BattleEvent::HealingDone(HealingDone { source, target: r, amount }));
}

/// `s` holds the stats of `u` with the modifiers in effect on it.
pub open spec fn attacker_as(s: Stats, u: BattleUnitFull) -> bool {
    &&& s.atk@ == bounded_stat(u.unit.stats.atk@ as int, unit_mods(u).atk, 0)
    &&& s.mag@ == bounded_stat(u.unit.stats.mag@ as int, unit_mods(u).mag, 0)
}

/// Damage per hit of ability `a` of damage type `dt` used by `u` on `t`:
/// from their stats with the modifiers in effect, the target's defense
/// reduced by the ability's penetration.
pub open spec fn ability_damage(u: BattleUnitFull, t: BattleUnitFull, a: AbilityDef, dt: DamageType, config: CombatConfig) -> int {
    let def0 = bounded_stat(t.unit.stats.def@ as int, unit_mods(t).def, 0);
    let pen = match a.ignore_defense_percent {
        Some(p) => damage_mods::penetrated_def(def0 as u16, p),
        None => def0,
    };
    let def = if pen > 9999 {
        9999
    } else {
        pen
    };
    match dt {
        DamageType::Physical => combat::damage_formula(
            a.base_power@ as int,
            bounded_stat(u.unit.stats.atk@ as int, unit_mods(u).atk, 0),
            def,
            config.physical_def_multiplier_pct as int,
        ),
        DamageType::Psynergy => combat::damage_formula(
            a.base_power@ as int,
            bounded_stat(u.unit.stats.mag@ as int, unit_mods(u).mag, 0),
            def,
            config.psynergy_def_multiplier_pct as int,
        ),
    }
}

/// The hits of ability `a` by `u` (crit counter `crit`, which abilities do
/// not advance) on `t`.
pub open spec fn ability_hits(u: BattleUnitFull, t: BattleUnitFull, crit: u8, a: AbilityDef, dt: DamageType, config: CombatConfig) -> Seq<combat::HitResult> {
    combat::multi_hit_seq(
        (if a.hit_count@ < 1 {
            1
        } else {
            a.hit_count@
        }) as nat,
        ability_damage(u, t, a, dt, config) as u16,
        t.unit.current_hp,
        crit,
        false,
        config,
    )
}

/// What an ability's hits on `target` report: each hit's damage, until the
/// one that fells the target, whose fall ends them.
pub open spec fn ability_hit_events(actor: TargetRef, target: TargetRef, hits: Seq<combat::HitResult>, dt: DamageType) -> Seq<BattleEvent>
    decreases hits.len(),
{
    if hits.len() == 0 {
        seq![]
    } else {
        let h = hits[0];
        seq![
            BattleEvent::DamageDealt(
                DamageDealt { source: actor, target, amount: h.damage, damage_type: dt, is_crit: h.is_crit },
            ),
        ] + if h.target_killed {
            seq![BattleEvent::UnitDefeated(UnitDefeated { unit: target })]
        } else {
            ability_hit_events(actor, target, hits.drop_first(), dt)
        }
    }
}

/// What ability `a` used by `actor` (whose stats at the start of the use
/// were those of `u0`) does on listed target `t`: nothing where `t` is down;
/// else, for a damaging ability, `t` takes its hits (its HP as
/// `hp_after_hits` gives, down at 0), which are reported first; then the
/// ability's effects go onto `t` (see `effects_on`), its status reported
/// last where it takes.
pub open spec fn ability_target_step(
    b1: Battle,
    b2: Battle,
    e1: Seq<BattleEvent>,
    e2: Seq<BattleEvent>,
    actor: TargetRef,
    u0: BattleUnitFull,
    a: AbilityDef,
    t: TargetRef,
) -> bool {
    &&& exec_step(b1, b2, e1, e2)
    &&& if !is_alive_at(b1, t) {
        b2 == b1 && e2 == e1
    } else {
        match a.damage_type {
            Some(dt) => {
                let v = unit_at(b1, t).unwrap();
                let hits = ability_hits(u0, v, unit_at(b1, actor).unwrap().unit.crit_counter, a, dt, b1.config);
                let hev = ability_hit_events(actor, t, hits, dt);
                &&& unit_at(b2, t) matches Some(w) && w.unit.current_hp == hp_after_hits(v.unit.current_hp, hits, 0)
                    && w.unit.is_alive == (w.unit.current_hp > 0) && exists|w0: BattleUnitFull|
                    only_statuses_hit(v, w0) && #[trigger] effects_on(w0, w, a, b1.config.max_buff_stacks@ as usize)
                        && e2.len() >= status_events(w0, a, actor, t).len() && e2 == e2.take(
                        e2.len() - status_events(w0, a, actor, t).len(),
                    ) + status_events(w0, a, actor, t)
                &&& e2.len() >= e1.len() + hev.len()
                &&& e2.subrange(e1.len() as int, (e1.len() + hev.len()) as int) == hev
            },
            None => {
                &&& unit_at(b2, t) matches Some(w) && w.unit == unit_at(b1, t).unwrap().unit && effects_on(
                    unit_at(b1, t).unwrap(),
                    w,
                    a,
                    b1.config.max_buff_stacks@ as usize,
                )
                &&& e2 == e1 + status_events(unit_at(b1, t).unwrap(), a, actor, t)
            },
        }
    }
}

/// `trace` and `logs` are the battles and events as ability `a` of `actor`
/// takes effect on the listed targets one after the other.
pub open spec fn ability_targets_played(
    trace: Seq<Battle>,
    logs: Seq<Seq<BattleEvent>>,
    actor: TargetRef,
    u0: BattleUnitFull,
    a: AbilityDef,
    targets: Seq<TargetRef>,
) -> bool {
    &&& trace.len() == targets.len() + 1
    &&& logs.len() == targets.len() + 1
    &&& forall|i: int|
        0 <= i < targets.len() ==> ability_target_step(
            trace[i],
            trace[i + 1],
            logs[i],
            logs[i + 1],
            actor,
            u0,
            a,
            #[trigger] targets[i],
        )
}

/// Hits changed no more of what is in effect on the unit than its statuses'
/// freeze counts.
pub open spec fn only_statuses_hit(u: BattleUnitFull, v: BattleUnitFull) -> bool {
    &&& same_identity(u, v)
    &&& v.status_state.statuses@.len() == u.status_state.statuses@.len()
    &&& v.status_state.buffs == u.status_state.buffs
    &&& v.status_state.debuffs == u.status_state.debuffs
    &&& v.status_state.barriers == u.status_state.barriers
    &&& v.status_state.hots == u.status_state.hots
    &&& v.status_state.immunity == u.status_state.immunity
}

/// The hits land on the living unit at `target`, in turn, until one fells it.
fn ability_hit_target(
    battle: &mut Battle,
    actor_ref: TargetRef,
    target_ref: TargetRef,
    hits: &Vec<combat::HitResult>,
    damage_type: DamageType,
    events: &mut Vec<BattleEvent>,
)
    requires
        old(battle).wf(),
        is_alive_at(*old(battle), target_ref),
    ensures
        exec_step(*old(battle), *final(battle), old(events)@, final(events)@),
        sourced(old(events)@, final(events)@, actor_ref),
        final(battle).team_djinn_slots == old(battle).team_djinn_slots,
        final(battle).mana_pool == old(battle).mana_pool,
        touches_only(*old(battle), *final(battle), set![target_ref]),
        unit_at(*final(battle), target_ref) matches Some(w) && w.unit.current_hp == hp_after_hits(
            unit_at(*old(battle), target_ref).unwrap().unit.current_hp,
            hits@,
            0,
        ),
        final(events)@ == old(events)@ + ability_hit_events(actor_ref, target_ref, hits@, damage_type),
        unit_at(*final(battle), target_ref) matches Some(w) && only_statuses_hit(unit_at(*old(battle), target_ref).unwrap(), w),
{
    let ghost b0 = *battle;
    let ghost e0 = events@;
    proof {
        lemma_exec_step_refl(b0, e0);
        assert(hits@.skip(0) =~= hits@);
        assert(e0 + Seq::<BattleEvent>::empty() =~= e0);
    }
    let mut h: usize = 0;
    while h < hits.len()
        invariant
            h <= hits@.len(),
            exec_step(b0, *battle, e0, events@),
            sourced(e0, events@, actor_ref),
            battle.team_djinn_slots == b0.team_djinn_slots,
            battle.mana_pool == b0.mana_pool,
            touches_only(b0, *battle, set![target_ref]),
            unit_at(*battle, target_ref) is Some,
            hp_after_hits(unit_at(b0, target_ref).unwrap().unit.current_hp, hits@, 0) == hp_after_hits(
                unit_at(*battle, target_ref).unwrap().unit.current_hp,
                hits@.skip(h as int),
                0,
            ),
            e0 + ability_hit_events(actor_ref, target_ref, hits@, damage_type) == events@ + ability_hit_events(
                actor_ref,
                target_ref,
                hits@.skip(h as int),
                damage_type,
            ),
            only_statuses_hit(unit_at(b0, target_ref).unwrap(), unit_at(*battle, target_ref).unwrap()),
        decreases hits@.len() - h,
    {
        let hit = hits[h];
        let ghost b2 = *battle;
        let ghost e2 = events@;
        proof {
            assert(hits@.skip(h as int)[0] == hit);
            assert(hits@.skip(h as int).drop_first() =~= hits@.skip(h + 1));
        }
        damage_unit(battle, target_ref, hit.damage, true);
        proof {
            let v = choose|v: BattleUnitFull| replaced(b2, *battle, target_ref, v) && damaged(unit_at(b2, target_ref).unwrap(), v, hit.damage, true);
            lemma_replaced_touches(b2, *battle, target_ref, v, set![target_ref]);
            lemma_touches_trans(b0, b2, *battle, set![target_ref]);
            lemma_exec_frame_trans(b0, b2, *battle);
        }
        emit(events, BattleEvent::DamageDealt(DamageDealt {
            source: actor_ref,
            target: target_ref,
            amount: hit.damage,
            damage_type,
            is_crit: hit.is_crit,
        }));
        if hit.target_killed {
            emit(events, BattleEvent::UnitDefeated(UnitDefeated { unit: target_ref }));
            proof {
                assert(hits@.skip(hits@.len() as int) =~= Seq::<combat::HitResult>::empty());
            }
            h = hits.len();
        } else {
            h += 1;
        }
        proof {
            lemma_exec_step_trans(b0, b2, *battle, e0, e2, events@);
        }
    }
    proof {
        assert(hits@.skip(h as int) =~= Seq::<combat::HitResult>::empty());
        assert(events@ + Seq::<BattleEvent>::empty() =~= events@);
    }
}

/// What the effects of ability `a` do to what is in effect on `u`, giving
/// `v`: its status (unless an immunity blocks it), then its cleanse, go onto
/// the statuses; its buff and debuff stack up to `max_stacks`; its barrier
/// (3 turns unless said otherwise) and heal over time are added; its
/// immunity replaces the unit's.
pub open spec fn effects_on(u: BattleUnitFull, v: BattleUnitFull, a: AbilityDef, max_stacks: usize) -> bool {
    let s = u.status_state;
    let t = v.status_state;
    let s1 = match a.status_effect {
        Some(e) => if status::blocks(s.immunity, e.effect_type) {
            s.statuses@
        } else {
            s.statuses@.push(status::fresh_status(e))
        },
        None => s.statuses@,
    };
    &&& t.statuses@ == match a.cleanse {
        Some(c) => s1.filter(status::kept_by(c)),
        None => s1,
    }
    &&& t.buffs@ == match a.buff_effect {
        Some(e) => status::stacked(s.buffs@, status::fresh_buff(e.stat_modifiers, e.duration), max_stacks),
        None => s.buffs@,
    }
    &&& t.debuffs@ == match a.debuff_effect {
        Some(e) => status::stacked(s.debuffs@, status::fresh_buff(e.stat_modifiers, e.duration), max_stacks),
        None => s.debuffs@,
    }
    &&& t.barriers@ == match a.shield_charges {
        Some(c) => s.barriers@.push(
            status::ActiveBarrier {
                charges: c,
                remaining_turns: match a.shield_duration {
                    Some(d) => d,
                    None => 3,
                },
            },
        ),
        None => s.barriers@,
    }
    &&& t.hots@ == match a.heal_over_time {
        Some(h) => s.hots@.push(status::ActiveHoT { amount: h.amount, remaining_turns: h.duration }),
        None => s.hots@,
    }
    &&& match a.grant_immunity {
        Some(imm) => t.immunity matches Some(i) && i.all == imm.all && i.types@ == imm.types@ && i.remaining_turns
            == imm.duration,
        None => t.immunity == s.immunity,
    }
}

/// What putting the effects of ability `a` onto `u` at `target` reports:
/// its status, where it takes.
pub open spec fn status_events(u: BattleUnitFull, a: AbilityDef, actor: TargetRef, target: TargetRef) -> Seq<BattleEvent> {
    match a.status_effect {
        Some(e) => if status::blocks(u.status_state.immunity, e.effect_type) {
            seq![]
        } else {
            seq![BattleEvent::StatusApplied(StatusApplied { source: actor, target, effect: e })]
        },
        None => seq![],
    }
}

/// The status, buff, debuff, barrier, heal over time, immunity and cleanse
/// of ability `k` go onto the unit at `target_ref`; a status that takes is
/// reported.
fn apply_ability_effects(
    battle: &mut Battle,
    actor_ref: TargetRef,
    target_ref: TargetRef,
    k: usize,
    max_stacks: usize,
    events: &mut Vec<BattleEvent>,
)
    requires
        old(battle).wf(),
        unit_at(*old(battle), target_ref) is Some,
        k < old(battle).ability_defs@.len(),
    ensures
        exec_step(*old(battle), *final(battle), old(events)@, final(events)@),
        sourced(old(events)@, final(events)@, actor_ref),
        final(battle).team_djinn_slots == old(battle).team_djinn_slots,
        final(battle).mana_pool == old(battle).mana_pool,
        touches_only(*old(battle), *final(battle), set![target_ref]),
        unit_at(*final(battle), target_ref) matches Some(w) && w.unit == unit_at(*old(battle), target_ref).unwrap().unit,
        effects_on(
            unit_at(*old(battle), target_ref).unwrap(),
            unit_at(*final(battle), target_ref).unwrap(),
            old(battle).ability_defs@[k as int],
            max_stacks,
        ),
        final(battle).ability_defs == old(battle).ability_defs,
        final(events)@ == old(events)@ + status_events(
            unit_at(*old(battle), target_ref).unwrap(),
            old(battle).ability_defs@[k as int],
            actor_ref,
            target_ref,
        ),
{
    let ghost b1 = *battle;
    let ghost e1 = events@;
    let ghost u1 = unit_at(b1, target_ref).unwrap();
    let ghost a = b1.ability_defs@[k as int];
    proof {
        lemma_exec_step_refl(b1, e1);
        lemma_touches_refl(b1, set![target_ref]);
    }
    match battle.ability_defs[k].status_effect {
        Some(effect) => {
            let ghost b5 = *battle;
            let ghost e5 = events@;
            proof {
                lemma_extends_refl(e5);
            }
            let applied = change_effects(battle, target_ref, EffectChange::Status(&effect));
            if applied {
                emit(events, BattleEvent::StatusApplied(StatusApplied { source: actor_ref, target: target_ref, effect }));
            }
            proof {
                lemma_exec_step_trans(b1, b5, *battle, e1, e5, events@);
                lemma_effects_step(b1, b5, *battle, target_ref);
                assert(events@ =~= e1 + status_events(u1, a, actor_ref, target_ref));
            }
        },
        None => {
            proof {
                assert(events@ =~= e1 + status_events(u1, a, actor_ref, target_ref));
            }
        },
    }
    match battle.ability_defs[k].buff_effect {
        Some(effect) => {
            let ghost b6 = *battle;
            let _ = change_effects(battle, target_ref, EffectChange::Buff(&effect, max_stacks));
            proof {
                lemma_extends_refl(events@);
                lemma_exec_step_trans(b1, b6, *battle, e1, events@, events@);
                lemma_effects_step(b1, b6, *battle, target_ref);
            }
        },
        None => {},
    }
    match battle.ability_defs[k].debuff_effect {
        Some(effect) => {
            let ghost b7 = *battle;
            let _ = change_effects(battle, target_ref, EffectChange::Debuff(&effect, max_stacks));
            proof {
                lemma_extends_refl(events@);
                lemma_exec_step_trans(b1, b7, *battle, e1, events@, events@);
                lemma_effects_step(b1, b7, *battle, target_ref);
            }
        },
        None => {},
    }
    match battle.ability_defs[k].shield_charges {
        Some(charges) => {
            let duration = match battle.ability_defs[k].shield_duration {
                Some(d) => d,
                None => 3,
            };
            let ghost b8 = *battle;
            let _ = change_effects(battle, target_ref, EffectChange::AddBarrier(charges, duration));
            proof {
                lemma_extends_refl(events@);
                lemma_exec_step_trans(b1, b8, *battle, e1, events@, events@);
                lemma_effects_step(b1, b8, *battle, target_ref);
            }
        },
        None => {},
    }
    match battle.ability_defs[k].heal_over_time {
        Some(hot) => {
            let ghost b9 = *battle;
            let _ = change_effects(battle, target_ref, EffectChange::Hot(hot.amount, hot.duration));
            proof {
                lemma_extends_refl(events@);
                lemma_exec_step_trans(b1, b9, *battle, e1, events@, events@);
                lemma_effects_step(b1, b9, *battle, target_ref);
            }
        },
        None => {},
    }
    let immunity = battle.ability_defs[k].grant_immunity.clone();
    match immunity {
        Some(imm) => {
            let ghost b10 = *battle;
            let _ = change_effects(battle, target_ref, EffectChange::Immunity(&imm));
            proof {
                lemma_extends_refl(events@);
                lemma_exec_step_trans(b1, b10, *battle, e1, events@, events@);
                lemma_effects_step(b1, b10, *battle, target_ref);
            }
        },
        None => {},
    }
    let cleanse = battle.ability_defs[k].cleanse.clone();
    match cleanse {
        Some(ct) => {
            let ghost b11 = *battle;
            let _ = change_effects(battle, target_ref, EffectChange::Cleanse(&ct));
            proof {
                lemma_extends_refl(events@);
                lemma_exec_step_trans(b1, b11, *battle, e1, events@, events@);
                lemma_effects_step(b1, b11, *battle, target_ref);
                let c0 = a.cleanse.unwrap();
                assert(status::kept_by(ct) =~= status::kept_by(c0));
            }
        },
        None => {},
    }
}

/// One more change of what is in effect on the unit at `r` keeps the other
/// units and the unit's own HP and life.
proof fn lemma_effects_step(b1: Battle, b2: Battle, b3: Battle, r: TargetRef)
    requires
        touches_only(b1, b2, set![r]),
        unit_at(b2, r) matches Some(w) && w.unit == unit_at(b1, r).unwrap().unit,
        unit_at(b1, r) is Some,
        exists|v: BattleUnitFull| replaced(b2, b3, r, v) && only_effects_changed(unit_at(b2, r).unwrap(), v),
    ensures
        touches_only(b1, b3, set![r]),
        unit_at(b3, r) matches Some(w) && w.unit == unit_at(b1, r).unwrap().unit,
{
    let v = choose|v: BattleUnitFull| replaced(b2, b3, r, v) && only_effects_changed(unit_at(b2, r).unwrap(), v);
    lemma_replaced_touches(b2, b3, r, v, set![r]);
    lemma_touches_trans(b1, b2, b3, set![r]);
}

/// Ability `k` used by `actor_ref` (whose stats with modifiers at the start
/// of the use are `effective_attacker`) takes effect on the living unit at
/// `target_ref`: for a damaging ability its hits land, splash and chain
/// damage follow; then its effects go onto the target.
fn strike_with_ability(
    battle: &mut Battle,
    actor_ref: TargetRef,
    target_ref: TargetRef,
    k: usize,
    effective_attacker: &Stats,
    max_stacks: usize,
    events: &mut Vec<BattleEvent>,
    Ghost(u0): Ghost<BattleUnitFull>,
)
    requires
        old(battle).wf(),
        is_alive_at(*old(battle), target_ref),
        unit_at(*old(battle), actor_ref) is Some,
        k < old(battle).ability_defs@.len(),
        attacker_as(*effective_attacker, u0),
        max_stacks == old(battle).config.max_buff_stacks@ as usize,
    ensures
        exec_step(*old(battle), *final(battle), old(events)@, final(events)@),
        sourced(old(events)@, final(events)@, actor_ref),
        final(battle).team_djinn_slots == old(battle).team_djinn_slots,
        final(battle).mana_pool == old(battle).mana_pool,
        ability_target_step(*old(battle), *final(battle), old(events)@, final(events)@, actor_ref, u0, old(battle).ability_defs@[k as int], target_ref),
{
    let ghost b1 = *battle;
    let ghost e1 = events@;
    let ghost a = battle.ability_defs@[k as int];
    proof {
        lemma_exec_step_refl(b1, e1);
    }
    match battle.ability_defs[k].damage_type {
        Some(damage_type) => {
            let target = get_unit(battle, target_ref).unwrap();
            let target_hp = target.unit.current_hp;
            let target_mods = status::compute_stat_modifiers(target.status_state.buffs.as_slice(), target.status_state.debuffs.as_slice());
            let effective_target = buffed_stats(&target.unit.stats, &target_mods);
            let def = effective_target.def.get();
            let effective_def = match battle.ability_defs[k].ignore_defense_percent {
                Some(pct) => damage_mods::apply_defense_penetration(def, pct),
                None => def,
            };
            let modified = Stats {
                hp: effective_target.hp,
                atk: effective_target.atk,
                def: BaseStat::new_unchecked(if effective_def > 9999 { 9999 } else { effective_def }),
                mag: effective_target.mag,
                spd: effective_target.spd,
            };
            let base_damage = combat::calculate_damage(
                battle.ability_defs[k].base_power.get(),
                damage_type,
                effective_attacker,
                &modified,
                &battle.config,
            );
            let crit_counter = get_unit(battle, actor_ref).unwrap().unit.crit_counter;
            let count = battle.ability_defs[k].hit_count.get();
            let hits = combat::resolve_multi_hit(
                if count < 1 { 1 } else { count },
                base_damage,
                target_hp,
                crit_counter,
                false,
                &battle.config,
            );
            let ghost v1 = unit_at(b1, target_ref).unwrap();
            proof {
                assert(base_damage == ability_damage(u0, v1, a, damage_type, b1.config));
                assert(hits@ == ability_hits(u0, v1, unit_at(b1, actor_ref).unwrap().unit.crit_counter, a, damage_type, b1.config));
            }
            ability_hit_target(battle, actor_ref, target_ref, &hits, damage_type, events);
            let ghost b2 = *battle;
            let ghost e2 = events@;
            let ghost hp_goal = unit_at(b2, target_ref).unwrap().unit;
            proof {
                lemma_touches_refl(b2, set![target_ref]);
                lemma_extends_refl(e2);
            }
            let (primary_damage, primary_is_crit) = hits_total(&hits);
            match battle.ability_defs[k].splash_damage_percent {
                Some(splash_pct) => {
                    let splash_dmg = damage_mods::apply_splash_damage(primary_damage, splash_pct);
                    if splash_dmg > 0 {
                        let ghost b3 = *battle;
                        let ghost e3 = events@;
                        apply_splash(battle, actor_ref, target_ref, splash_pct, splash_dmg, damage_type, events);
                        proof {
                            lemma_exec_step_trans(b2, b3, *battle, e2, e3, events@);
                            lemma_sourced_trans(e2, e3, events@, actor_ref);
                        }
                    }
                },
                None => {},
            }
            if battle.ability_defs[k].chain_damage && primary_damage > 0 {
                let ghost b4 = *battle;
                let ghost e4 = events@;
                apply_chain_damage(battle, actor_ref, target_ref, primary_damage, damage_type, primary_is_crit, events);
                proof {
                    lemma_exec_step_trans(b2, b4, *battle, e2, e4, events@);
                    lemma_sourced_trans(e2, e4, events@, actor_ref);
                    if target_ref.side == actor_ref.side {
                        assert(unit_at(*battle, target_ref) == unit_at(b4, target_ref));
                    } else {
                        assert(target_ref.side == other_side(actor_ref.side));
                        let q = target_ref.index as int;
                        assert(chain_hit(
                            side_units(b4, other_side(actor_ref.side))[q],
                            side_units(*battle, other_side(actor_ref.side))[q],
                            TargetRef { side: other_side(actor_ref.side), index: q as u8 },
                            target_ref,
                            primary_damage,
                        ));
                        assert(unit_at(*battle, target_ref) == unit_at(b4, target_ref));
                    }
                }
            }
            let ghost b5 = *battle;
            let ghost e5 = events@;
            proof {
                assert(unit_at(b5, target_ref) == unit_at(b2, target_ref));
                lemma_exec_step_trans(b1, b2, b5, e1, e2, e5);
                lemma_sourced_trans(e1, e2, e5, actor_ref);
                lemma_frame_keeps_refs(b1, b5);
            }
            apply_ability_effects(battle, actor_ref, target_ref, k, max_stacks, events);
            proof {
                lemma_exec_step_trans(b1, b5, *battle, e1, e5, events@);
                lemma_sourced_trans(e1, e5, events@, actor_ref);
                let hev = ability_hit_events(actor_ref, target_ref, hits@, damage_type);
                lemma_extends_trans(e2, e5, events@);
                assert(e2 == e1 + hev);
                assert(events@.subrange(0, e2.len() as int) == e2);
                assert(events@.subrange(e1.len() as int, (e1.len() + hev.len()) as int) =~= hev) by {
                    assert forall|j: int| 0 <= j < hev.len() implies events@.subrange(e1.len() as int, (e1.len() + hev.len()) as int)[j] == hev[j] by {
                        assert(events@[e1.len() + j] == events@.subrange(0, e2.len() as int)[e1.len() + j]);
                        assert(e2[e1.len() + j] == hev[j]);
                    }
                }
                let w = unit_at(*battle, target_ref).unwrap();
                assert(w.unit == hp_goal);
                let w0 = unit_at(b5, target_ref).unwrap();
                assert(only_statuses_hit(v1, w0));
                assert(effects_on(w0, w, a, b1.config.max_buff_stacks@ as usize));
                assert(events@ == e5 + status_events(w0, a, actor_ref, target_ref));
                assert(events@.take(events@.len() - status_events(w0, a, actor_ref, target_ref).len()) =~= e5);
                assert(unit_wf(w)) by {
                    assert(w == side_units(*battle, target_ref.side)[target_ref.index as int]);
                }
            }
        },
        None => {
            apply_ability_effects(battle, actor_ref, target_ref, k, max_stacks, events);
        },
    }
}

/// Heal each listed target that is up by `amount`, once per listing.
fn heal_listed(battle: &mut Battle, source: TargetRef, targets: &Vec<TargetRef>, amount: u16, events: &mut Vec<BattleEvent>)
    requires
        old(battle).wf(),
    ensures
        exec_step(*old(battle), *final(battle), old(events)@, final(events)@),
        final(battle).team_djinn_slots == old(battle).team_djinn_slots,
        final(battle).mana_pool == old(battle).mana_pool,
        sourced(old(events)@, final(events)@, source),
        forall|r: TargetRef|
            #![trigger unit_at(*old(battle), r)]
            #![trigger unit_at(*final(battle), r)]
            unit_at(*old(battle), r) is Some ==> unit_at(*final(battle), r) is Some && healed_times(
                unit_at(*old(battle), r).unwrap(),
                unit_at(*final(battle), r).unwrap(),
                occurrences(targets@, r),
                amount as int,
            ),
        final(events)@ == old(events)@ + listed_heal_events(*old(battle), targets@, source, amount as int),
{
    let ghost b0 = *battle;
    let ghost e0 = events@;
    proof {
        lemma_exec_step_refl(b0, e0);
        assert(targets@.take(0) =~= Seq::<TargetRef>::empty());
        assert(e0 + listed_heal_events(b0, targets@.take(0), source, amount as int) =~= e0);
    }
    let mut ti: usize = 0;
    while ti < targets.len()
        invariant
            ti <= targets@.len(),
            exec_step(b0, *battle, e0, events@),
            battle.team_djinn_slots == b0.team_djinn_slots,
            battle.mana_pool == b0.mana_pool,
            sourced(e0, events@, source),
            forall|r: TargetRef|
                #![trigger unit_at(b0, r)]
                #![trigger unit_at(*battle, r)]
                unit_at(b0, r) is Some ==> unit_at(*battle, r) is Some && healed_times(
                    unit_at(b0, r).unwrap(),
                    unit_at(*battle, r).unwrap(),
                    occurrences(targets@.take(ti as int), r),
                    amount as int,
                ),
            events@ == e0 + listed_heal_events(b0, targets@.take(ti as int), source, amount as int),
        decreases targets@.len() - ti,
    {
        let target_ref = targets[ti];
        proof {
            assert(targets@.take(ti + 1).drop_last() =~= targets@.take(ti as int));
            lemma_frame_keeps_refs(b0, *battle);
            let u0 = unit_at(b0, target_ref);
            if u0 is Some {
                assert(is_alive_at(*battle, target_ref) == is_alive_at(b0, target_ref));
            }
        }
        ti += 1;
        if alive_ref(battle, target_ref) {
            let ghost b1 = *battle;
            let ghost e1 = events@;
            heal_target(battle, source, target_ref, amount, events);
            proof {
                lemma_exec_step_trans(b0, b1, *battle, e0, e1, events@);
                lemma_frame_keeps_refs(b0, *battle);
                lemma_heal_step(b0, b1, *battle, targets@, ti as int, amount);
                assert(sourced(e1, events@, source));
                lemma_sourced_trans(e0, e1, events@, source);
                assert(events@ =~= e0 + listed_heal_events(b0, targets@.take(ti as int), source, amount as int));
            }
        } else {
            proof {
                lemma_heal_step_skip(b0, *battle, targets@, ti as int, amount);
                assert(events@ =~= e0 + listed_heal_events(b0, targets@.take(ti as int), source, amount as int));
            }
        }
    }
    proof {
        assert(targets@.take(targets@.len() as int) =~= targets@);
    }
}

/// Skipping a listed target that is down keeps every unit healed as often as
/// it occurs in the first `ti` targets.
proof fn lemma_heal_step_skip(b0: Battle, b1: Battle, targets: Seq<TargetRef>, ti: int, amount: u16)
    requires
        1 <= ti <= targets.len(),
        !is_alive_at(b1, targets[ti - 1]),
        forall|r: TargetRef|
            #![trigger unit_at(b0, r)]
            #![trigger unit_at(b1, r)]
            unit_at(b0, r) is Some ==> unit_at(b1, r) is Some && healed_times(
                unit_at(b0, r).unwrap(),
                unit_at(b1, r).unwrap(),
                occurrences(targets.take(ti - 1), r),
                amount as int,
            ),
    ensures
        forall|r: TargetRef|
            #![trigger unit_at(b0, r)]
            #![trigger unit_at(b1, r)]
            unit_at(b0, r) is Some ==> unit_at(b1, r) is Some && healed_times(
                unit_at(b0, r).unwrap(),
                unit_at(b1, r).unwrap(),
                occurrences(targets.take(ti), r),
                amount as int,
            ),
{
    assert(targets.take(ti).drop_last() =~= targets.take(ti - 1));
    assert forall|r: TargetRef| unit_at(b0, r) is Some implies unit_at(b1, r) is Some && healed_times(
        unit_at(b0, r).unwrap(),
        unit_at(b1, r).unwrap(),
        occurrences(targets.take(ti), r),
        amount as int,
    ) by {
        assert(unit_at(b1, r) is Some);
        if r == targets[ti - 1] {
            let u0 = unit_at(b0, r).unwrap();
            let w = unit_at(b1, r).unwrap();
            assert(!w.unit.is_alive);
            assert(!u0.unit.is_alive);
        }
    }
}

/// One more heal of the unit at `targets[ti - 1]` keeps every unit healed
/// as often as it occurs in the first `ti` targets.
proof fn lemma_heal_step(b0: Battle, b1: Battle, b2: Battle, targets: Seq<TargetRef>, ti: int, amount: u16)
    requires
        1 <= ti <= targets.len(),
        b1.wf(),
        exec_frame(b0, b1),
        is_alive_at(b1, targets[ti - 1]),
        touches_only(b1, b2, set![targets[ti - 1]]),
        unit_at(b2, targets[ti - 1]) matches Some(v) && changed_as(unit_at(b1, targets[ti - 1]).unwrap(), v, UnitChange::Heal(amount)),
        forall|r: TargetRef|
            #![trigger unit_at(b0, r)]
            #![trigger unit_at(b1, r)]
            unit_at(b0, r) is Some ==> unit_at(b1, r) is Some && healed_times(
                unit_at(b0, r).unwrap(),
                unit_at(b1, r).unwrap(),
                occurrences(targets.take(ti - 1), r),
                amount as int,
            ),
    ensures
        forall|r: TargetRef|
            #![trigger unit_at(b0, r)]
            #![trigger unit_at(b2, r)]
            unit_at(b0, r) is Some ==> unit_at(b2, r) is Some && healed_times(
                unit_at(b0, r).unwrap(),
                unit_at(b2, r).unwrap(),
                occurrences(targets.take(ti), r),
                amount as int,
            ),
{
    let t = targets[ti - 1];
    assert(targets.take(ti).drop_last() =~= targets.take(ti - 1));
    assert forall|r: TargetRef| unit_at(b0, r) is Some implies unit_at(b2, r) is Some && healed_times(
        unit_at(b0, r).unwrap(),
        unit_at(b2, r).unwrap(),
        occurrences(targets.take(ti), r),
        amount as int,
    ) by {
        assert(unit_at(b1, r) is Some);
        if r != t {
            assert(!set![t].contains(r));
            assert(unit_at(b2, r) == unit_at(b1, r));
        } else {
            let u0 = unit_at(b0, r).unwrap();
            let w = unit_at(b1, r).unwrap();
            let v = unit_at(b2, r).unwrap();
            let n = occurrences(targets.take(ti - 1), r);
            assert(unit_wf(w)) by {
                assert(w == side_units(b1, r.side)[r.index as int]);
            }
            assert(occurrences(targets.take(ti), r) == n + 1);
            assert(u0.unit.is_alive);
            assert(w.unit.current_hp == healed_hp(u0.unit.current_hp as int, u0.unit.stats.hp@ as int, amount as int, n)) by {
                if n == 0 {
                    assert(w == u0);
                }
            }
            assert(v.unit.current_hp == healed_hp(u0.unit.current_hp as int, u0.unit.stats.hp@ as int, amount as int, n + 1));
        }
    }
}

/// Use an ability: spend its mana (player units; without enough mana
/// nothing happens), then for each living target heal it (healing
/// abilities) or deal the ability's hits with splash and chain damage, and
/// apply the ability's status, buff, debuff, barrier, heal over time,
/// immunity and cleanse; finally revive fallen allies when the ability
/// revives.
fn execute_ability(
    battle: &mut Battle,
    actor_ref: TargetRef,
    ability_id: &AbilityId,
    targets: &Vec<TargetRef>,
    events: &mut Vec<BattleEvent>,
)
    requires
        old(battle).wf(),
        unit_at(*old(battle), actor_ref) is Some,
    ensures
        exec_step(*old(battle), *final(battle), old(events)@, final(events)@),
        ability_done(*old(battle), *final(battle), old(events)@, final(events)@, actor_ref, ability_id@, targets@),
        sourced(old(events)@, final(events)@, actor_ref),
{
    proof {
        lemma_exec_step_refl(*battle, events@);
    }
    let k = match find_ability_index(&battle.ability_defs, ability_id) {
        Some(k) => k,
        None => {
            return;
        },
    };
    let ghost b_start = *battle;
    let ghost e_start = events@;
    let cost = battle.ability_defs[k].mana_cost.get();
    if actor_ref.side == Side::Player {
        let old_mana = battle.mana_pool.current_mana;
        if !battle.mana_pool.spend_mana(cost) {
            return;
        }
        let now = battle.mana_pool.current_mana;
        emit(events, BattleEvent::ManaChanged(ManaPoolChanged { old_value: old_mana, new_value: now }));
    }
    if actor_ref.side == Side::Enemy {
        let name = battle.ability_defs[k].name.clone();
        let listed = targets.clone();
        proof {
            assert(listed@ =~= targets@);
        }
        emit(events, BattleEvent::EnemyAbilityUsed { actor: actor_ref, ability_name: name, targets: listed });
    }
    proof {
        assert(events@.len() == e_start.len() + 1);
        assert(events@ == e_start.push(events@[e_start.len() as int]));
        assert(opens_ability(events@[e_start.len() as int], *old(battle), actor_ref, b_start.ability_defs@[k as int], targets@));
        assert(exec_step(b_start, *battle, e_start, events@)) by {
            lemma_exec_step_refl(b_start, e_start);
            assert(exec_frame(b_start, *battle)) by {
                assert forall|q: int| 0 <= q < battle.player_units@.len() implies same_identity(b_start.player_units@[q], #[trigger] battle.player_units@[q]) by {}
                assert forall|q: int| 0 <= q < battle.enemies@.len() implies same_identity(b_start.enemies@[q], #[trigger] battle.enemies@[q]) by {}
            }
        }
    }
    let actor = get_unit(battle, actor_ref).unwrap();
    let attacker_mods = status::compute_stat_modifiers(actor.status_state.buffs.as_slice(), actor.status_state.debuffs.as_slice());
    let effective_attacker = buffed_stats(&actor.unit.stats, &attacker_mods);
    let max_stacks = battle.config.max_buff_stacks.get() as usize;
    let ghost b0 = *battle;
    let ghost e0 = events@;
    let ghost u0 = unit_at(b0, actor_ref).unwrap();
    let ghost amount = heal_power(unit_at(b0, actor_ref).unwrap(), b0.ability_defs@[k as int].base_power@);
    proof {
        lemma_exec_step_refl(b0, e0);
        assert(sourced(old(events)@, e0, actor_ref));
    }
    let is_healing = match battle.ability_defs[k].category {
        AbilityCategory::Healing => true,
        _ => false,
    };
    let ghost mut trace: Seq<Battle> = seq![b0];
    let ghost mut logs: Seq<Seq<BattleEvent>> = seq![e0];
    if is_healing {
        let base = battle.ability_defs[k].base_power.get();
        let sum = base + effective_attacker.mag.get();
        let heal_amount: u16 = if sum < 1 { 1 } else { sum };
        heal_listed(battle, actor_ref, targets, heal_amount, events);
        proof {
            lemma_exec_step_trans(b0, b0, *battle, e0, e0, events@);
            assert(heal_amount == amount);
            assert(listed_heal_events(b0, targets@, actor_ref, amount) == listed_heal_events(*old(battle), targets@, actor_ref, amount)) by {
                lemma_listed_heal_events_same(b0, *old(battle), targets@, actor_ref, amount);
            }
        }
    } else {
        let mut ti: usize = 0;
        proof {
            assert(targets@.take(0) =~= Seq::<TargetRef>::empty());
        }
        while ti < targets.len()
            invariant
                ti <= targets@.len(),
                ability_targets_played(trace, logs, actor_ref, u0, b0.ability_defs@[k as int], targets@.take(ti as int)),
                trace[0] == b0,
                logs[0] == e0,
                trace.last() == *battle,
                logs.last() == events@,
                exec_step(b0, *battle, e0, events@),
                sourced(e0, events@, actor_ref),
                battle.team_djinn_slots == b0.team_djinn_slots,
                battle.ability_defs == b0.ability_defs,
                (k as int) < battle.ability_defs@.len(),
                unit_at(*battle, actor_ref) is Some,
                max_stacks == battle.config.max_buff_stacks@ as usize,
                battle.mana_pool == b0.mana_pool,
                battle.config == b0.config,
                attacker_as(effective_attacker, u0),
            decreases targets@.len() - ti,
        {
            let target_ref = targets[ti];
            proof {
                lemma_frame_keeps_refs(b0, *battle);
                assert(targets@.take(ti + 1).drop_last() =~= targets@.take(ti as int));
            }
            ti += 1;
            let ghost b1 = *battle;
            let ghost e1 = events@;
            if alive_ref(battle, target_ref) {
                strike_with_ability(battle, actor_ref, target_ref, k, &effective_attacker, max_stacks, events, Ghost(u0));
                proof {
                    lemma_exec_step_trans(b0, b1, *battle, e0, e1, events@);
                    lemma_extends_trans(e0, e1, events@);
                    lemma_sourced_trans(e0, e1, events@, actor_ref);
                    lemma_frame_keeps_refs(b0, *battle);
                }
            } else {
                proof {
                    lemma_exec_step_refl(b1, e1);
                }
            }
            proof {
                let t2 = trace.push(*battle);
                let l2 = logs.push(events@);
                let ts = targets@.take(ti as int);
                assert(ability_target_step(b1, *battle, e1, events@, actor_ref, u0, b0.ability_defs@[k as int], target_ref));
                assert forall|i: int| 0 <= i < ts.len() implies ability_target_step(
                    t2[i],
                    t2[i + 1],
                    l2[i],
                    l2[i + 1],
                    actor_ref,
                    u0,
                    b0.ability_defs@[k as int],
                    #[trigger] ts[i],
                ) by {
                    if i < ti - 1 {
                        assert(targets@.take(ti - 1)[i] == ts[i]);
                    }
                }
                trace = t2;
                logs = l2;
            }
        }
    }
    let ghost b_targets = *battle;
    let ghost e_targets = events@;
    proof {
        lemma_extends_refl(e_targets);
        assert(targets@.take(targets@.len() as int) =~= targets@);
        assert(unit_at(b0, actor_ref) == unit_at(*old(battle), actor_ref));
        assert(forall|r: TargetRef| #[trigger] unit_at(b0, r) == unit_at(*old(battle), r));
    }
    if battle.ability_defs[k].revive {
        match battle.ability_defs[k].revive_hp_percent {
            Some(pct) => {
                let ally_count = match actor_ref.side {
                    Side::Player => battle.player_units.len(),
                    Side::Enemy => battle.enemies.len(),
                };
                let ghost b12 = *battle;
                let ghost e12 = events@;
                proof {
                    lemma_exec_step_refl(b12, e12);
                }
                let mut i: usize = 0;
                while i < ally_count
                    invariant
                        i <= ally_count,
                        ally_count == side_units(b12, actor_ref.side).len(),
                        ally_count <= 255,
                        exec_step(b12, *battle, e12, events@),
                        battle.team_djinn_slots == b12.team_djinn_slots,
                        battle.mana_pool == b12.mana_pool,
                        sourced(e0, events@, actor_ref),
                        forall|j: int| 0 <= j < i ==> (#[trigger] side_units(*battle, actor_ref.side)[j]).unit.is_alive,
                        forall|j: int| i <= j < ally_count ==> #[trigger] side_units(*battle, actor_ref.side)[j] == side_units(
                            b12,
                            actor_ref.side,
                        )[j],
                        events@ == e12 + revive_events(side_units(b12, actor_ref.side).take(i as int), actor_ref.side, actor_ref, pct),
                    decreases ally_count - i,
                {
                    proof {
                        assert(side_units(b12, actor_ref.side).take(i + 1).drop_last() =~= side_units(b12, actor_ref.side).take(
                            i as int,
                        ));
                    }
                    let ally_ref = TargetRef { side: actor_ref.side, index: i as u8 };
                    proof {
                        lemma_frame_keeps_refs(b12, *battle);
                        assert(unit_at(b12, ally_ref) is Some);
                    }
                    let ally = get_unit(battle, ally_ref).unwrap();
                    if !ally.unit.is_alive {
                        let amount = revive_amount(ally.unit.stats.hp.get(), pct);
                        let ghost b13 = *battle;
                        let ghost e13 = events@;
                        change_unit(battle, ally_ref, UnitChange::Revive(amount));
                        emit(events, BattleEvent::HealingDone(HealingDone { source: actor_ref, target: ally_ref, amount }));
                        proof {
                            lemma_exec_step_trans(b12, b13, *battle, e12, e13, events@);
                            let v = choose|v: BattleUnitFull|
                                replaced(b13, *battle, ally_ref, v) && changed_as(unit_at(b13, ally_ref).unwrap(), v, UnitChange::Revive(amount));
                            assert(side_units(*battle, actor_ref.side) == side_units(b13, actor_ref.side).update(i as int, v));
                        }
                    }
                    i += 1;
                }
                proof {
                    lemma_exec_step_trans(b0, b12, *battle, e0, e12, events@);
                    assert(extends(e_targets, events@));
                    assert(side_units(b12, actor_ref.side).take(ally_count as int) =~= side_units(b12, actor_ref.side));
                    if is_healing {
                        assert forall|q: int| 0 <= q < side_units(b0, actor_ref.side).len() implies (#[trigger] side_units(
                            b12,
                            actor_ref.side,
                        )[q]).unit.is_alive == side_units(b0, actor_ref.side)[q].unit.is_alive && side_units(b12, actor_ref.side)[q].unit.stats.hp
                            == side_units(b0, actor_ref.side)[q].unit.stats.hp by {
                            let r = TargetRef { side: actor_ref.side, index: q as u8 };
                            assert(unit_at(b0, r) is Some);
                            assert(unit_at(b12, r) is Some);
                        }
                        lemma_revive_events_same(side_units(b0, actor_ref.side), side_units(b12, actor_ref.side), actor_ref.side, actor_ref, pct);
                    }
                }
            },
            None => {},
        }
    }
    proof {
        lemma_exec_step_trans(b_start, b0, *battle, e_start, e0, events@);
        lemma_exec_step_trans(*old(battle), b_start, *battle, old(events)@, e_start, events@);
        lemma_extends_trans(old(events)@, e_start, e0);
        lemma_sourced_trans(old(events)@, e0, events@, actor_ref);
        assert(events@[e_start.len() as int] == e0[e_start.len() as int]) by {
            assert(events@.subrange(0, e0.len() as int) == e0);
            assert(events@[e_start.len() as int] == events@.subrange(0, e0.len() as int)[e_start.len() as int]);
        }
        if !is_healing {
            assert(targets@.take(targets@.len() as int) =~= targets@);
            assert(ability_targets_played(trace, logs, actor_ref, u0, b0.ability_defs@[k as int], targets@));
            assert(logs.last() == e_targets);
            assert(extends(logs.last(), events@));
        }
    }
}

proof fn lemma_listed_heal_events_same(a: Battle, b: Battle, targets: Seq<TargetRef>, actor: TargetRef, amount: int)
    requires
        forall|r: TargetRef| #[trigger] unit_at(a, r) == unit_at(b, r),
    ensures
        listed_heal_events(a, targets, actor, amount) == listed_heal_events(b, targets, actor, amount),
    decreases targets.len(),
{
    if targets.len() > 0 {
        lemma_listed_heal_events_same(a, b, targets.drop_last(), actor, amount);
        assert(unit_at(a, targets.last()) == unit_at(b, targets.last()));
    }
}

fn find_ability_index(defs: &Vec<AbilityDef>, id: &AbilityId) -> (r: Option<usize>)
    ensures
        match r {
            Some(k) => k < defs@.len() && find_ability(defs@, id@) == Some(defs@[k as int]),
            None => find_ability(defs@, id@) is None,
        },
{
    let mut i: usize = 0;
    assert(defs@.skip(0) =~= defs@);
    while i < defs.len()
        invariant
            i <= defs@.len(),
            find_ability(defs@, id@) == find_ability(defs@.skip(i as int), id@),
        decreases defs@.len() - i,
    {
        assert(defs@.skip(i as int).drop_first() =~= defs@.skip(i + 1));
        if defs[i].id.same_as(id) {
            return Some(i);
        }
        i += 1;
    }
    None
}

// ── Djinn in battle ─────────────────────────────────────────────────

proof fn lemma_djinn_only_step(a: Battle, b: Battle, ea: Seq<BattleEvent>)
    requires
        a.wf(),
        same_but_team(a, b),
        b.player_units@.len() == a.player_units@.len(),
        forall|i: int| 0 <= i < b.player_units@.len() ==> same_but_djinn(a.player_units@[i], #[trigger] b.player_units@[i]),
    ensures
        exec_step(a, b, ea, ea),
{
    lemma_extends_refl(ea);
    assert forall|i: int| 0 <= i < b.player_units@.len() implies unit_wf(#[trigger] b.player_units@[i]) && same_identity(a.player_units@[i], b.player_units@[i]) by {
        assert(same_but_djinn(a.player_units@[i], b.player_units@[i]));
        assert(unit_wf(a.player_units@[i]));
    }
    assert forall|i: int| 0 <= i < b.enemies@.len() implies same_identity(a.enemies@[i], #[trigger] b.enemies@[i]) by {}
}

/// The first definition of djinn `id`.
pub open spec fn find_djinn_def(defs: Seq<DjinnDef>, id: Seq<char>) -> Option<int>
    decreases defs.len(),
{
    if defs.len() == 0 {
        None
    } else if defs[0].id@ == id {
        Some(0)
    } else {
        match find_djinn_def(defs.drop_first(), id) {
            Some(i) => Some(i + 1),
            None => None,
        }
    }
}

fn find_djinn_def_index(defs: &Vec<DjinnDef>, id: &DjinnId) -> (r: Option<usize>)
    ensures
        match r {
            Some(k) => find_djinn_def(defs@, id@) == Some(k as int) && k < defs@.len(),
            None => find_djinn_def(defs@, id@) is None,
        },
{
    let mut i: usize = 0;
    assert(defs@.skip(0) =~= defs@);
    while i < defs.len()
        invariant
            i <= defs@.len(),
            find_djinn_def(defs@, id@) == match find_djinn_def(defs@.skip(i as int), id@) {
                Some(j) => Some(j + i),
                None => None,
            },
        decreases defs@.len() - i,
    {
        assert(defs@.skip(i as int).drop_first() =~= defs@.skip(i + 1));
        if defs[i].id.same_as(id) {
            return Some(i);
        }
        i += 1;
    }
    None
}

/// The buff a djinn of the buff kind gives its user: +2 ATK for 3 turns.
pub open spec fn is_djinn_buff(b: status::ActiveBuff) -> bool {
    &&& b.stat_modifiers.atk@ == 2
    &&& b.stat_modifiers.def@ == 0
    &&& b.stat_modifiers.mag@ == 0
    &&& b.stat_modifiers.spd@ == 0
    &&& b.stat_modifiers.hp@ == 0
    &&& b.remaining_turns == 3
}

fn djinn_buff() -> (b: BuffEffect)
    ensures
        b.stat_modifiers.atk@ == 2,
        b.stat_modifiers.def@ == 0,
        b.stat_modifiers.mag@ == 0,
        b.stat_modifiers.spd@ == 0,
        b.stat_modifiers.hp@ == 0,
        b.duration == 3,
{
    BuffEffect {
        stat_modifiers: StatBonus {
            atk: StatMod::new_unchecked(2),
            def: StatMod::new_unchecked(0),
            mag: StatMod::new_unchecked(0),
            spd: StatMod::new_unchecked(0),
            hp: StatMod::new_unchecked(0),
        },
        duration: 3,
    }
}

/// Damage of a psynergy strike of `base` power by `a` on `t`, from their
/// stats with the modifiers in effect.
pub open spec fn psy_damage(a: BattleUnitFull, t: BattleUnitFull, base: u16, config: CombatConfig) -> int {
    combat::damage_formula(
        base as int,
        bounded_stat(a.unit.stats.mag@ as int, unit_mods(a).mag, 0),
        bounded_stat(t.unit.stats.def@ as int, unit_mods(t).def, 0),
        config.psynergy_def_multiplier_pct as int,
    )
}

/// `v` is `u` healed to full HP when `u` is up and hurt, and `u` otherwise.
pub open spec fn healed_to_full(u: BattleUnitFull, v: BattleUnitFull) -> bool {
    if u.unit.is_alive && u.unit.current_hp < u.unit.stats.hp@ {
        &&& only_life_changed(u, v)
        &&& v.unit.current_hp == u.unit.stats.hp@
        &&& v.unit.is_alive
    } else {
        v == u
    }
}

/// What healing `units` of `side` to full reports: for each living, hurt
/// unit in turn, the HP restored, by `actor`.
pub open spec fn heal_events(units: Seq<BattleUnitFull>, side: Side, actor: TargetRef) -> Seq<BattleEvent>
    decreases units.len(),
{
    if units.len() == 0 {
        seq![]
    } else {
        let u = units.last();
        heal_events(units.drop_last(), side, actor) + if u.unit.is_alive && u.unit.current_hp < u.unit.stats.hp@ {
            seq![
                BattleEvent::HealingDone(
                    HealingDone {
                        source: actor,
                        target: TargetRef { side, index: (units.len() - 1) as u8 },
                        amount: (u.unit.stats.hp@ - u.unit.current_hp) as u16,
                    },
                ),
            ]
        } else {
            seq![]
        }
    }
}

/// What the immediate effect of an activated djinn does (see
/// `resolve_djinn_activation_damage`).
pub open spec fn resolve_done(
    before: Battle,
    after: Battle,
    ea: Seq<BattleEvent>,
    eb: Seq<BattleEvent>,
    actor: TargetRef,
    ev: djinn::DjinnActivationEvent,
) -> bool {
    &&& ev.effect_type is None ==> after == before && eb == ea
    &&& ev.effect_type == Some(djinn::DjinnActivationEffectType::Status) ==> after == before && eb == ea
    &&& ev.effect_type == Some(djinn::DjinnActivationEffectType::Heal) ==> {
        &&& after.mana_pool == before.mana_pool
        &&& side_units(after, other_side(actor.side)) == side_units(before, other_side(actor.side))
        &&& side_units(after, actor.side).len() == side_units(before, actor.side).len()
        &&& forall|k: int| 0 <= k < side_units(before, actor.side).len() ==> healed_to_full(
            side_units(before, actor.side)[k],
            #[trigger] side_units(after, actor.side)[k],
        )
        &&& eb == ea + heal_events(side_units(before, actor.side), actor.side, actor)
    }
    &&& ev.effect_type == Some(djinn::DjinnActivationEffectType::Buff) ==> {
        let u = unit_at(before, actor).unwrap();
        let max_stacks = before.config.max_buff_stacks@ as usize;
        &&& after.mana_pool == before.mana_pool
        &&& eb == ea
        &&& touches_only(before, after, set![actor])
        &&& unit_at(after, actor) matches Some(v) && {
            &&& only_effects_changed(u, v)
            &&& status::same_except_buffs(u.status_state, v.status_state)
            &&& if u.status_state.buffs@.len() < max_stacks {
                &&& v.status_state.buffs@.drop_last() == u.status_state.buffs@
                &&& v.status_state.buffs@.len() == u.status_state.buffs@.len() + 1
                &&& is_djinn_buff(v.status_state.buffs@.last())
            } else {
                v.status_state.buffs@ == u.status_state.buffs@
            }
        }
    }
    &&& ev.effect_type == Some(djinn::DjinnActivationEffectType::Damage) ==> match first_alive(before.enemies@) {
        None => after == before && eb == ea,
        Some(ti) => {
            let t = before.enemies@[ti];
            let a = unit_at(before, actor).unwrap();
            let tref = TargetRef { side: Side::Enemy, index: ti as u8 };
            let charges = status::total_charges(t.status_state.barriers@);
            &&& after.mana_pool == before.mana_pool
            &&& after.player_units@ == before.player_units@
            &&& after.enemies@.len() == before.enemies@.len()
            &&& forall|k: int| 0 <= k < before.enemies@.len() && k != ti ==> #[trigger] after.enemies@[k]
                == before.enemies@[k]
            &&& if charges > 0 {
                &&& after.enemies@[ti].unit == t.unit
                &&& status::total_charges(after.enemies@[ti].status_state.barriers@) == charges - 1
                &&& eb == ea.push(BattleEvent::BarrierBlocked(tref))
            } else {
                let amount = psy_damage(a, t, ev.base_damage, before.config) as u16;
                &&& after.enemies@[ti].unit.current_hp == sat_sub_u16(t.unit.current_hp, amount)
                &&& status::total_charges(after.enemies@[ti].status_state.barriers@) == 0
                &&& eb == ea + seq![
                    BattleEvent::DamageDealt(
                        DamageDealt {
                            source: actor,
                            target: tref,
                            amount,
                            damage_type: DamageType::Psynergy,
                            is_crit: false,
                        },
                    ),
                ] + if after.enemies@[ti].unit.is_alive {
                    seq![]
                } else {
                    seq![BattleEvent::UnitDefeated(UnitDefeated { unit: tref })]
                }
            }
        },
    }
}

/// The immediate effect of an activated djinn: heal the user's living,
/// hurt allies to full HP; buff the user; or hit the first living enemy
/// with psynergy (a barrier blocks it).
fn resolve_djinn_activation_damage(
    battle: &mut Battle,
    actor_ref: TargetRef,
    activation_event: djinn::DjinnActivationEvent,
    events: &mut Vec<BattleEvent>,
)
    requires
        old(battle).wf(),
        unit_at(*old(battle), actor_ref) is Some,
    ensures
        exec_step(*old(battle), *final(battle), old(events)@, final(events)@),
        final(battle).team_djinn_slots == old(battle).team_djinn_slots,
        sourced(old(events)@, final(events)@, actor_ref),
        resolve_done(*old(battle), *final(battle), old(events)@, final(events)@, actor_ref, activation_event),
{
    let ghost b0 = *battle;
    let ghost e0 = events@;
    proof {
        lemma_exec_step_refl(b0, e0);
    }
    match activation_event.effect_type {
        Some(djinn::DjinnActivationEffectType::Heal) => {
            let ally_count = match actor_ref.side {
                Side::Player => battle.player_units.len(),
                Side::Enemy => battle.enemies.len(),
            };
            let mut index: usize = 0;
            while index < ally_count
                invariant
                    index <= ally_count,
                    ally_count == side_units(b0, actor_ref.side).len(),
                    ally_count <= 255,
                    exec_step(b0, *battle, e0, events@),
                    battle.team_djinn_slots == b0.team_djinn_slots,
                    battle.mana_pool == b0.mana_pool,
                    side_units(*battle, other_side(actor_ref.side)) == side_units(b0, other_side(actor_ref.side)),
                    side_units(*battle, actor_ref.side).len() == ally_count,
                    forall|k: int| 0 <= k < index ==> healed_to_full(
                        side_units(b0, actor_ref.side)[k],
                        #[trigger] side_units(*battle, actor_ref.side)[k],
                    ),
                    forall|k: int| index <= k < ally_count ==> #[trigger] side_units(*battle, actor_ref.side)[k]
                        == side_units(b0, actor_ref.side)[k],
                    sourced(e0, events@, actor_ref),
                    events@ == e0 + heal_events(side_units(b0, actor_ref.side).take(index as int), actor_ref.side, actor_ref),
                decreases ally_count - index,
            {
                proof {
                    assert(side_units(b0, actor_ref.side).take(index + 1).drop_last() =~= side_units(b0, actor_ref.side).take(
                        index as int,
                    ));
                }
                let target_ref = TargetRef { side: actor_ref.side, index: index as u8 };
                proof {
                    lemma_frame_keeps_refs(b0, *battle);
                    assert(unit_at(b0, target_ref) is Some);
                }
                let unit = get_unit(battle, target_ref).unwrap();
                let max_hp = unit.unit.stats.hp.get();
                let current = unit.unit.current_hp;
                if unit.unit.is_alive && current < max_hp {
                    let heal_amount = max_hp - current;
                    let ghost b1 = *battle;
                    let ghost e1 = events@;
                    change_unit(battle, target_ref, UnitChange::Heal(heal_amount));
                    emit(events, BattleEvent::HealingDone(HealingDone { source: actor_ref, target: target_ref, amount: heal_amount }));
                    proof {
                        lemma_exec_step_trans(b0, b1, *battle, e0, e1, events@);
                        let v = choose|v: BattleUnitFull| replaced(b1, *battle, target_ref, v) && changed_as(unit_at(b1, target_ref).unwrap(), v, UnitChange::Heal(heal_amount));
                        assert(side_units(*battle, actor_ref.side) == side_units(b1, actor_ref.side).update(index as int, v));
                        assert(healed_to_full(side_units(b0, actor_ref.side)[index as int], v));
                        assert forall|k: int| 0 <= k < index + 1 implies healed_to_full(
                            side_units(b0, actor_ref.side)[k],
                            #[trigger] side_units(*battle, actor_ref.side)[k],
                        ) by {
                            if k < index {
                                assert(side_units(*battle, actor_ref.side)[k] == side_units(b1, actor_ref.side)[k]);
                            }
                        }
                    }
                } else {
                    proof {
                        assert(healed_to_full(side_units(b0, actor_ref.side)[index as int], side_units(*battle, actor_ref.side)[index as int]));
                    }
                }
                index += 1;
            }
            proof {
                assert(side_units(b0, actor_ref.side).take(ally_count as int) =~= side_units(b0, actor_ref.side));
                assert(events@ == e0 + heal_events(side_units(b0, actor_ref.side), actor_ref.side, actor_ref));
                assert(e0 == old(events)@);
                assert(b0 == *old(battle));
            }
        },
        Some(djinn::DjinnActivationEffectType::Buff) => {
            let max_stacks = battle.config.max_buff_stacks.get() as usize;
            let buff = djinn_buff();
            let _ = change_effects(battle, actor_ref, EffectChange::Buff(&buff, max_stacks));
            proof {
                lemma_exec_step_trans(b0, b0, *battle, e0, e0, events@);
                let v = choose|v: BattleUnitFull|
                    replaced(b0, *battle, actor_ref, v) && only_effects_changed(unit_at(b0, actor_ref).unwrap(), v)
                        && (EffectChange::Buff(&buff, max_stacks) matches EffectChange::Buff(e, m) ==> {
                        let u = unit_at(b0, actor_ref).unwrap();
                        &&& v.status_state.buffs@ == status::stacked(
                            u.status_state.buffs@,
                            status::fresh_buff(e.stat_modifiers, e.duration),
                            m,
                        )
                        &&& status::same_except_buffs(u.status_state, v.status_state)
                    });
                lemma_replaced_touches(b0, *battle, actor_ref, v, set![actor_ref]);
                let u = unit_at(b0, actor_ref).unwrap();
                if u.status_state.buffs@.len() < max_stacks {
                    assert(v.status_state.buffs@.drop_last() =~= u.status_state.buffs@);
                }
            }
        },
        Some(djinn::DjinnActivationEffectType::Damage) => {
            let target_index = match find_first_alive(&battle.enemies) {
                Some(i) => i,
                None => {
                    return;
                },
            };
            proof {
                assert(battle.enemies@.len() <= 255);
            }
            let target_ref = TargetRef { side: Side::Enemy, index: target_index as u8 };
            let actor = get_unit(battle, actor_ref).unwrap();
            let attacker_mods = status::compute_stat_modifiers(actor.status_state.buffs.as_slice(), actor.status_state.debuffs.as_slice());
            let effective_attacker = buffed_stats(&actor.unit.stats, &attacker_mods);
            let target = get_unit(battle, target_ref).unwrap();
            let target_mods = status::compute_stat_modifiers(target.status_state.buffs.as_slice(), target.status_state.debuffs.as_slice());
            let effective_target = buffed_stats(&target.unit.stats, &target_mods);
            let damage = combat::calculate_damage(
                activation_event.base_damage,
                DamageType::Psynergy,
                &effective_attacker,
                &effective_target,
                &battle.config,
            );
            let blocked = change_effects(battle, target_ref, EffectChange::ConsumeBarrier);
            let ghost b1 = *battle;
            let ghost v = choose|v: BattleUnitFull| replaced(b0, b1, target_ref, v) && only_effects_changed(unit_at(b0, target_ref).unwrap(), v)
                && barrier_used(unit_at(b0, target_ref).unwrap(), v, blocked);
            proof {
                lemma_exec_step_trans(b0, b0, b1, e0, e0, events@);
                assert(b1.enemies@ == b0.enemies@.update(target_index as int, v));
                assert(b1.player_units@ == b0.player_units@);
            }
            if blocked {
                emit(events, BattleEvent::BarrierBlocked(target_ref));
                return;
            }
            proof {
                lemma_frame_keeps_refs(b0, b1);
            }
            damage_unit(battle, target_ref, damage, true);
            proof {
                let w = choose|w: BattleUnitFull| replaced(b1, *battle, target_ref, w) && damaged(unit_at(b1, target_ref).unwrap(), w, damage, true);
                assert(battle.enemies@ == b1.enemies@.update(target_index as int, w));
                assert(battle.player_units@ == b1.player_units@);
            }
            let dealt = BattleEvent::DamageDealt(DamageDealt {
                source: actor_ref,
                target: target_ref,
                amount: damage,
                damage_type: DamageType::Psynergy,
                is_crit: false,
            });
            emit(events, dealt);
            let ghost e1 = events@;
            proof {
                assert(e1 == e0 + seq![dealt]);
            }
            if !alive_ref(battle, target_ref) {
                emit(events, BattleEvent::UnitDefeated(UnitDefeated { unit: target_ref }));
                proof {
                    assert(events@ =~= e0 + seq![dealt] + seq![BattleEvent::UnitDefeated(UnitDefeated { unit: target_ref })]);
                }
            } else {
                proof {
                    assert(events@ =~= e0 + seq![dealt] + Seq::<BattleEvent>::empty());
                }
            }
            proof {
                lemma_exec_step_trans(b0, b1, *battle, e0, e0, events@);
            }
        },
        _ => {},
    }
}

proof fn lemma_found_djinn_def(defs: Seq<DjinnDef>, id: Seq<char>)
    ensures
        find_djinn_def(defs, id) matches Some(d) ==> 0 <= d < defs.len() && defs[d].id@ == id,
    decreases defs.len(),
{
    if defs.len() > 0 && defs[0].id@ != id {
        lemma_found_djinn_def(defs.drop_first(), id);
    }
}

/// Whether the team's djinn in slot `index` can be activated: the slot
/// exists, its djinn has a definition and is ready, and an activation order
/// is left.
pub open spec fn djinn_ready(a: Battle, index: int) -> bool {
    let team = hydrated_team(a);
    &&& 0 <= index < team.len()
    &&& find_djinn_def(a.djinn_defs@, team[index].djinn_id@) is Some
    &&& team[index].state == DjinnState::Good
    &&& hydrated_next(a) < u32::MAX
}

/// What activating the team's djinn in slot `index` for `actor` does (see
/// `execute_djinn_activate`): when it is ready it goes into recovery and
/// then its effect resolves; else only the team's djinn are taken from the
/// players.
pub open spec fn djinn_activation_done(
    a: Battle,
    b: Battle,
    ea: Seq<BattleEvent>,
    eb: Seq<BattleEvent>,
    actor: TargetRef,
    index: int,
) -> bool {
    if djinn_ready(a, index) {
        let team = hydrated_team(a);
        let d = a.djinn_defs@[find_djinn_def(a.djinn_defs@, team[index].djinn_id@).unwrap()];
        let slots = team.update(index, djinn::activated(team[index], battle_recovery_turns(a.config), hydrated_next(a)));
        &&& b.team_djinn_slots.slots@ == slots
        &&& exists|mid: Battle, em: Seq<BattleEvent>|
            {
                &&& mid.enemies == a.enemies
                &&& mid.mana_pool == a.mana_pool
                &&& mid.config == a.config
                &&& mid.player_units@.len() == a.player_units@.len()
                &&& forall|k: int|
                    0 <= k < a.player_units@.len() ==> same_but_djinn(a.player_units@[k], #[trigger] mid.player_units@[k])
                &&& mid.team_djinn_slots.slots@ == slots
                &&& em == ea.push(
                    BattleEvent::DjinnChanged(djinn::to_recovery_event(team[index], actor, battle_recovery_turns(a.config))),
                )
                &&& #[trigger] resolve_done(mid, b, em, eb, actor, djinn::activation_event(d))
            }
    } else {
        &&& b.enemies == a.enemies
        &&& b.mana_pool == a.mana_pool
        &&& eb == ea
        &&& b.player_units@.len() == a.player_units@.len()
        &&& forall|k: int| 0 <= k < a.player_units@.len() ==> same_but_djinn(a.player_units@[k], #[trigger] b.player_units@[k])
    }
}

/// Activate the team's djinn in slot `djinn_index` for `actor_ref`: it goes
/// into recovery and its effect resolves. Nothing happens for an empty slot,
/// a djinn without definition or one that is not ready.
fn execute_djinn_activate(
    battle: &mut Battle,
    actor_ref: TargetRef,
    djinn_index: usize,
    events: &mut Vec<BattleEvent>,
)
    requires
        old(battle).wf(),
        unit_at(*old(battle), actor_ref) is Some,
    ensures
        exec_step(*old(battle), *final(battle), old(events)@, final(events)@),
        sourced(old(events)@, final(events)@, actor_ref),
        djinn_activation_done(*old(battle), *final(battle), old(events)@, final(events)@, actor_ref, djinn_index as int),
{
    let ghost b0 = *battle;
    let ghost e0 = events@;
    hydrate_team_djinn_slots_from_players(battle);
    proof {
        lemma_djinn_only_step(b0, *battle, e0);
        lemma_frame_keeps_refs(b0, *battle);
    }
    let ghost b1 = *battle;
    let recovery_turns = battle.config.djinn_recovery_start_delay.saturating_add(battle.config.djinn_recovery_per_turn);
    if djinn_index >= battle.team_djinn_slots.slots.len() {
        return;
    }
    let d = match find_djinn_def_index(&battle.djinn_defs, &battle.team_djinn_slots.slots[djinn_index].djinn_id) {
        Some(d) => d,
        None => {
            return;
        },
    };
    if battle.team_djinn_slots.next_activation_order == u32::MAX {
        return;
    }
    let activation = djinn::activate_djinn(
        &mut battle.team_djinn_slots,
        djinn_index,
        actor_ref,
        recovery_turns,
        &battle.djinn_defs[d],
    );
    let ghost b2 = *battle;
    proof {
        assert(same_but_team(b1, b2));
        assert forall|i: int| 0 <= i < b2.player_units@.len() implies same_but_djinn(b1.player_units@[i], #[trigger] b2.player_units@[i]) by {}
        lemma_djinn_only_step(b1, b2, e0);
        lemma_exec_step_trans(b0, b1, b2, e0, e0, e0);
    }
    proof {
        lemma_found_djinn_def(b1.djinn_defs@, b1.team_djinn_slots.slots@[djinn_index as int].djinn_id@);
    }
    match activation {
        Some((state_change, activation_event)) => {
            sync_team_djinn_slots_to_players(battle);
            let ghost b3 = *battle;
            proof {
                lemma_djinn_only_step(b2, b3, e0);
                lemma_exec_step_trans(b0, b2, b3, e0, e0, e0);
                lemma_frame_keeps_refs(b0, b3);
            }
            emit(events, BattleEvent::DjinnChanged(state_change));
            let ghost e1 = events@;
            resolve_djinn_activation_damage(battle, actor_ref, activation_event, events);
            proof {
                lemma_exec_step_trans(b0, b3, *battle, e0, e1, events@);
                lemma_sourced_trans(e0, e1, events@, actor_ref);
                assert(djinn_ready(b0, djinn_index as int));
                assert(resolve_done(b3, *battle, e1, events@, actor_ref, activation_event));
            }
        },
        None => {},
    }
}

/// Summon damage of the djinn with id `id`: 0 without a definition or a
/// summon effect.
pub open spec fn djinn_summon_damage(defs: Seq<DjinnDef>, id: Seq<char>) -> int {
    match find_djinn_def(defs, id) {
        Some(d) => match defs[d].summon_effect {
            Some(e) => e.damage as int,
            None => 0,
        },
        None => 0,
    }
}

/// Summon damage of the djinn in `slots` at the first `n` of `indices`,
/// added up and capped at `u16::MAX`.
pub open spec fn summon_total(defs: Seq<DjinnDef>, slots: Seq<DjinnInstance>, indices: Seq<u8>, n: nat) -> int
    decreases n,
{
    if n == 0 {
        0
    } else {
        let t = summon_total(defs, slots, indices, (n - 1) as nat);
        let i = indices[n - 1] as int;
        let d = if i < slots.len() {
            djinn_summon_damage(defs, slots[i].djinn_id@)
        } else {
            0
        };
        if t + d > 65535 {
            65535
        } else {
            t + d
        }
    }
}

pub open spec fn summon_indices(indices: Seq<u8>) -> Seq<usize> {
    indices.map_values(|i: u8| i as usize)
}

/// Whether a summon with the djinn at `indices` goes ahead: each names a
/// ready djinn of the team, and activation orders are left for all of them.
pub open spec fn summon_goes(b: Battle, indices: Seq<u8>) -> bool {
    &&& djinn::summon_valid(hydrated_team(b), summon_indices(indices))
    &&& hydrated_next(b) + indices.len() <= u32::MAX
}

/// Turns a djinn used in battle stays in recovery.
pub open spec fn battle_recovery_turns(c: CombatConfig) -> u8 {
    if c.djinn_recovery_start_delay + c.djinn_recovery_per_turn > 255 {
        255
    } else {
        (c.djinn_recovery_start_delay + c.djinn_recovery_per_turn) as u8
    }
}

/// `v` is enemy `u` after a summon of `total` damage: a unit that is down
/// (or no damage) is left alone; a barrier charge blocks the hit; else the
/// damage comes off its HP.
pub open spec fn summon_hit(u: BattleUnitFull, v: BattleUnitFull, total: int) -> bool {
    if !u.unit.is_alive || total == 0 {
        v == u
    } else if status::total_charges(u.status_state.barriers@) > 0 {
        &&& only_effects_changed(u, v)
        &&& barrier_used(u, v, true)
    } else {
        &&& same_identity(u, v)
        &&& v.unit.current_hp == sat_sub_u16(u.unit.current_hp, total as u16)
        &&& v.unit.is_alive == (v.unit.current_hp > 0)
        &&& status::total_charges(v.status_state.barriers@) == 0
    }
}

/// What a summon by `actor` with the team's djinn at `indices` does (see
/// `execute_summon_action`).
/// What a summon's strike of `total` damage on enemy `u` at `r` reports:
/// nothing for one that is down (or no damage), a block for one with a
/// barrier charge, else the damage and, where it fells the enemy, its fall.
pub open spec fn strike_events(u: BattleUnitFull, r: TargetRef, actor: TargetRef, total: int) -> Seq<BattleEvent> {
    if !u.unit.is_alive || total == 0 {
        seq![]
    } else if status::total_charges(u.status_state.barriers@) > 0 {
        seq![BattleEvent::BarrierBlocked(r)]
    } else {
        seq![
            BattleEvent::DamageDealt(
                DamageDealt { source: actor, target: r, amount: total as u16, damage_type: DamageType::Psynergy, is_crit: false },
            ),
        ] + if sat_sub_u16(u.unit.current_hp, total as u16) == 0 {
            seq![BattleEvent::UnitDefeated(UnitDefeated { unit: r })]
        } else {
            seq![]
        }
    }
}

/// What a summon's strike on the enemies `units` reports, enemy by enemy.
pub open spec fn summon_events(units: Seq<BattleUnitFull>, actor: TargetRef, total: int) -> Seq<BattleEvent>
    decreases units.len(),
{
    if units.len() == 0 {
        seq![]
    } else {
        summon_events(units.drop_last(), actor, total) + strike_events(
            units.last(),
            TargetRef { side: Side::Enemy, index: (units.len() - 1) as u8 },
            actor,
            total,
        )
    }
}

pub open spec fn djinn_changed_fn() -> spec_fn(DjinnStateChanged) -> BattleEvent {
    |c: DjinnStateChanged| BattleEvent::DjinnChanged(c)
}

/// What a summon by `actor` with the team's djinn at `indices` reports: the
/// djinn going into recovery, then the strike on the enemies.
pub open spec fn summon_reports(a: Battle, ea: Seq<BattleEvent>, eb: Seq<BattleEvent>, actor: TargetRef, indices: Seq<u8>) -> bool {
    if summon_goes(a, indices) {
        eb == ea + djinn::summon_trace(
            hydrated_team(a),
            hydrated_next(a),
            summon_indices(indices),
            actor,
            battle_recovery_turns(a.config),
            indices.len(),
        ).events.map_values(djinn_changed_fn()) + summon_events(
            a.enemies@,
            actor,
            summon_total(a.djinn_defs@, hydrated_team(a), indices, indices.len()),
        )
    } else {
        eb == ea
    }
}

pub open spec fn summon_done(a: Battle, b: Battle, actor: TargetRef, indices: Seq<u8>) -> bool {
    &&& b.mana_pool == a.mana_pool
    &&& b.player_units@.len() == a.player_units@.len()
    &&& forall|k: int| 0 <= k < a.player_units@.len() ==> same_but_djinn(a.player_units@[k], #[trigger] b.player_units@[k])
    &&& summon_goes(a, indices) ==> {
        &&& forall|k: int| 0 <= k < a.enemies@.len() ==> summon_hit(
            a.enemies@[k],
            #[trigger] b.enemies@[k],
            summon_total(a.djinn_defs@, hydrated_team(a), indices, indices.len()),
        )
        &&& b.team_djinn_slots.slots@ == djinn::summon_trace(
            hydrated_team(a),
            hydrated_next(a),
            summon_indices(indices),
            actor,
            battle_recovery_turns(a.config),
            indices.len(),
        ).slots
        &&& b.team_djinn_slots.next_activation_order == djinn::summon_trace(
            hydrated_team(a),
            hydrated_next(a),
            summon_indices(indices),
            actor,
            battle_recovery_turns(a.config),
            indices.len(),
        ).next
        &&& synced_from(a.player_units@, b.player_units@, b.team_djinn_slots)
    }
    &&& !summon_goes(a, indices) ==> {
        &&& b.enemies@ == a.enemies@
        &&& b.team_djinn_slots.slots@ == hydrated_team(a)
        &&& b.team_djinn_slots.next_activation_order == hydrated_next(a)
        &&& hydrated_players(a, b)
    }
}

/// A summon: the chosen djinn go into recovery and every living enemy takes
/// the sum of their summon damage (a barrier blocks it). Nothing happens when
/// a chosen slot is empty or its djinn is not ready.
fn execute_summon_action(
    battle: &mut Battle,
    actor_ref: TargetRef,
    djinn_indices: &Vec<u8>,
    events: &mut Vec<BattleEvent>,
)
    requires
        old(battle).wf(),
    ensures
        exec_step(*old(battle), *final(battle), old(events)@, final(events)@),
        summon_done(*old(battle), *final(battle), actor_ref, djinn_indices@),
        summon_reports(*old(battle), old(events)@, final(events)@, actor_ref, djinn_indices@),
        sourced(old(events)@, final(events)@, actor_ref),
{
    let ghost b0 = *battle;
    let ghost e0 = events@;
    hydrate_team_djinn_slots_from_players(battle);
    proof {
        lemma_djinn_only_step(b0, *battle, e0);
    }
    let ghost b1 = *battle;
    let recovery_turns = battle.config.djinn_recovery_start_delay.saturating_add(battle.config.djinn_recovery_per_turn);
    let mut indices: Vec<usize> = Vec::new();
    let mut total: u16 = 0;
    let mut i: usize = 0;
    while i < djinn_indices.len()
        invariant
            i <= djinn_indices@.len(),
            *battle == b1,
            indices@ == summon_indices(djinn_indices@.take(i as int)),
            total == summon_total(b1.djinn_defs@, b1.team_djinn_slots.slots@, djinn_indices@, i as nat),
        decreases djinn_indices@.len() - i,
    {
        let idx = djinn_indices[i] as usize;
        indices.push(idx);
        proof {
            assert(summon_indices(djinn_indices@.take(i + 1)) =~= summon_indices(djinn_indices@.take(i as int)).push(idx));
        }
        if idx < battle.team_djinn_slots.slots.len() {
            match find_djinn_def_index(&battle.djinn_defs, &battle.team_djinn_slots.slots[idx].djinn_id) {
                Some(d) => match &battle.djinn_defs[d].summon_effect {
                    Some(effect) => {
                        total = total.saturating_add(effect.damage);
                    },
                    None => {},
                },
                None => {},
            }
        }
        i += 1;
    }
    proof {
        assert(djinn_indices@.take(djinn_indices@.len() as int) =~= djinn_indices@);
    }
    let headroom: u32 = u32::MAX - battle.team_djinn_slots.next_activation_order;
    if indices.len() > headroom as usize {
        return;
    }
    let result = djinn::execute_summon(&mut battle.team_djinn_slots, indices.as_slice(), actor_ref, recovery_turns);
    let ghost b2 = *battle;
    proof {
        assert(same_but_team(b1, b2));
        assert forall|k: int| 0 <= k < b2.player_units@.len() implies same_but_djinn(b1.player_units@[k], #[trigger] b2.player_units@[k]) by {}
        lemma_djinn_only_step(b1, b2, e0);
        lemma_exec_step_trans(b0, b1, b2, e0, e0, e0);
    }
    let changes = match result {
        Some(c) => c,
        None => {
            return;
        },
    };
    sync_team_djinn_slots_to_players(battle);
    let ghost b3 = *battle;
    proof {
        lemma_djinn_only_step(b2, b3, e0);
        lemma_exec_step_trans(b0, b2, b3, e0, e0, e0);
    }
    let mut c: usize = 0;
    proof {
        assert(e0 + changes@.take(0).map_values(djinn_changed_fn()) =~= e0);
    }
    while c < changes.len()
        invariant
            c <= changes@.len(),
            extends(e0, events@),
            sourced(e0, events@, actor_ref),
            events@ == e0 + changes@.take(c as int).map_values(djinn_changed_fn()),
        decreases changes@.len() - c,
    {
        let change = changes[c].clone();
        emit(events, BattleEvent::DjinnChanged(change));
        c += 1;
        proof {
            assert(changes@.take(c as int).map_values(djinn_changed_fn()) =~= changes@.take(c - 1).map_values(djinn_changed_fn()).push(
                BattleEvent::DjinnChanged(change),
            ));
        }
    }
    proof {
        assert(changes@.take(c as int) =~= changes@);
    }
    let ghost e1 = events@;
    if total > 0 {
        let enemy_count = battle.enemies.len();
        let mut ei: usize = 0;
        proof {
            lemma_exec_step_refl(b3, e1);
        }
        while ei < enemy_count
            invariant
                ei <= enemy_count,
                enemy_count == b3.enemies@.len(),
                enemy_count <= 255,
                exec_step(b3, *battle, e1, events@),
                battle.player_units@ == b3.player_units@,
                battle.mana_pool == b3.mana_pool,
                battle.team_djinn_slots == b3.team_djinn_slots,
                total > 0,
                forall|k: int| 0 <= k < ei ==> summon_hit(b3.enemies@[k], #[trigger] battle.enemies@[k], total as int),
                forall|k: int| ei <= k < enemy_count ==> #[trigger] battle.enemies@[k] == b3.enemies@[k],
                sourced(e1, events@, actor_ref),
                events@ == e1 + summon_events(b3.enemies@.take(ei as int), actor_ref, total as int),
            decreases enemy_count - ei,
        {
            proof {
                assert(b3.enemies@.take(ei + 1).drop_last() =~= b3.enemies@.take(ei as int));
                assert(b3.enemies@.take(ei + 1).last() == b3.enemies@[ei as int]);
            }
            let target_ref = TargetRef { side: Side::Enemy, index: ei as u8 };
            proof {
                lemma_frame_keeps_refs(b3, *battle);
                assert(unit_at(b3, target_ref) is Some);
            }
            if alive_ref(battle, target_ref) {
                let ghost b4 = *battle;
                let ghost e4 = events@;
                let blocked = summon_strike(battle, actor_ref, target_ref, total, events);
                proof {
                    lemma_exec_step_trans(b3, b4, *battle, e1, e4, events@);
                    lemma_sourced_trans(e1, e4, events@, actor_ref);
                    assert(battle.enemies@ == b4.enemies@.update(ei as int, battle.enemies@[ei as int]));
                }
            }
            ei += 1;
            proof {
                assert(events@ =~= e1 + summon_events(b3.enemies@.take(ei as int), actor_ref, total as int));
            }
        }
        proof {
            assert(b3.enemies@.take(enemy_count as int) =~= b3.enemies@);
        }
        proof {
            lemma_exec_step_trans(b0, b3, *battle, e0, e1, events@);
            lemma_sourced_trans(e0, e1, events@, actor_ref);
        }
    } else {
        proof {
            lemma_extends_refl(e1);
            lemma_exec_step_trans(b0, b3, *battle, e0, e1, events@);
            lemma_no_summon_events(b3.enemies@, actor_ref);
            assert(events@ =~= e1 + summon_events(b3.enemies@, actor_ref, 0));
        }
    }
}

proof fn lemma_no_summon_events(units: Seq<BattleUnitFull>, actor: TargetRef)
    ensures
        summon_events(units, actor, 0) == Seq::<BattleEvent>::empty(),
    decreases units.len(),
{
    if units.len() > 0 {
        lemma_no_summon_events(units.drop_last(), actor);
        assert(summon_events(units, actor, 0) =~= Seq::<BattleEvent>::empty());
    }
}

/// The summon's `total` damage strikes the living enemy at `r`: a barrier
/// charge blocks it, else it comes off the enemy's HP. Returns whether it
/// was blocked.
fn summon_strike(battle: &mut Battle, source: TargetRef, r: TargetRef, total: u16, events: &mut Vec<BattleEvent>) -> (blocked: bool)
    requires
        old(battle).wf(),
        r.side == Side::Enemy,
        is_alive_at(*old(battle), r),
        total > 0,
    ensures
        exec_step(*old(battle), *final(battle), old(events)@, final(events)@),
        final(battle).player_units@ == old(battle).player_units@,
        final(battle).mana_pool == old(battle).mana_pool,
        final(battle).team_djinn_slots == old(battle).team_djinn_slots,
        final(battle).enemies@.len() == old(battle).enemies@.len(),
        forall|k: int| 0 <= k < old(battle).enemies@.len() && k != r.index ==> #[trigger] final(battle).enemies@[k] == old(battle).enemies@[k],
        summon_hit(old(battle).enemies@[r.index as int], final(battle).enemies@[r.index as int], total as int),
        sourced(old(events)@, final(events)@, source),
        final(events)@ == old(events)@ + strike_events(old(battle).enemies@[r.index as int], r, source, total as int),
{
    let ghost b4 = *battle;
    let ghost e4 = events@;
    let blocked = change_effects(battle, r, EffectChange::ConsumeBarrier);
    let ghost b5 = *battle;
    proof {
        assert(other_side(r.side) == Side::Player);
        lemma_extends_refl(e4);
    }
    if blocked {
        emit(events, BattleEvent::BarrierBlocked(r));
    } else {
        damage_unit(battle, r, total, true);
        proof {
            assert(battle.player_units@ == b5.player_units@);
            lemma_exec_frame_trans(b4, b5, *battle);
        }
        emit(events, BattleEvent::DamageDealt(DamageDealt {
            source,
            target: r,
            amount: total,
            damage_type: DamageType::Psynergy,
            is_crit: false,
        }));
        if !alive_ref(battle, r) {
            emit(events, BattleEvent::UnitDefeated(UnitDefeated { unit: r }));
        }
    }
    blocked
}

// ── End of round ────────────────────────────────────────────────────

/// `v` is `u` with one end-of-round tick of kind `tick` applied: burn,
/// poison and freeze deal their damage and count down; heals over time heal
/// (not above the maximum) and count down; buffs and debuffs, barriers or
/// the immunity count down. Nothing else about the unit changes.
pub open spec fn tick_applied(u: BattleUnitFull, v: BattleUnitFull, tick: RoundTick) -> bool {
    let s = u.status_state;
    let t = v.status_state;
    &&& same_identity(u, v)
    &&& v.unit.crit_counter == u.unit.crit_counter
    &&& v.djinn_slots == u.djinn_slots
    &&& match tick {
        RoundTick::Statuses => {
            let dmg = status::capped_damage(status::total_dot(s.statuses@, u.unit.stats.hp@, u.unit.current_hp));
            &&& v.unit.current_hp == sat_sub_u16(u.unit.current_hp, dmg as u16)
            &&& v.unit.is_alive == (u.unit.is_alive && v.unit.current_hp > 0)
            &&& t.statuses@ == s.statuses@.map_values(status::tick_status_fn()).filter(status::status_active())
            &&& t.buffs == s.buffs && t.debuffs == s.debuffs && t.barriers == s.barriers
            &&& t.hots == s.hots && t.immunity == s.immunity
        },
        RoundTick::Hots => {
            let healed = u.unit.current_hp + status::hot_total(s.hots@);
            &&& v.unit.current_hp == if status::hot_total(s.hots@) == 0 {
                u.unit.current_hp as int
            } else if healed > u.unit.stats.hp@ {
                u.unit.stats.hp@ as int
            } else {
                healed
            }
            &&& v.unit.is_alive == u.unit.is_alive
            &&& t.hots@ == s.hots@.map_values(status::tick_hot_fn()).filter(status::hot_active())
            &&& t.statuses == s.statuses && t.buffs == s.buffs && t.debuffs == s.debuffs
            &&& t.barriers == s.barriers && t.immunity == s.immunity
        },
        RoundTick::Buffs => {
            &&& v.unit == u.unit
            &&& t.buffs@ == s.buffs@.map_values(status::tick_buff_fn()).filter(status::buff_active())
            &&& t.debuffs@ == s.debuffs@.map_values(status::tick_buff_fn()).filter(status::buff_active())
            &&& t.statuses == s.statuses && t.barriers == s.barriers && t.hots == s.hots && t.immunity == s.immunity
        },
        RoundTick::Barriers => {
            &&& v.unit == u.unit
            &&& t.barriers@ == s.barriers@.map_values(status::tick_barrier_fn()).filter(status::barrier_active())
            &&& t.statuses == s.statuses && t.buffs == s.buffs && t.debuffs == s.debuffs
            &&& t.hots == s.hots && t.immunity == s.immunity
        },
        RoundTick::Immunity => {
            &&& v.unit == u.unit
            &&& match s.immunity {
                Some(imm) => if imm.remaining_turns <= 1 {
                    t.immunity is None
                } else {
                    t.immunity matches Some(n) && n.all == imm.all && n.types == imm.types && n.remaining_turns
                        == imm.remaining_turns - 1
                },
                None => t.immunity is None,
            }
            &&& t.statuses == s.statuses && t.buffs == s.buffs && t.debuffs == s.debuffs
            &&& t.barriers == s.barriers && t.hots == s.hots
        },
    }
}

/// The end-of-round ticks in the order they run: statuses, heals over
/// time, buffs, barriers, immunity.
pub open spec fn tick_kind(t: int) -> RoundTick {
    if t == 0 {
        RoundTick::Statuses
    } else if t == 1 {
        RoundTick::Hots
    } else if t == 2 {
        RoundTick::Buffs
    } else if t == 3 {
        RoundTick::Barriers
    } else {
        RoundTick::Immunity
    }
}

/// `v` is `u` after the first `n` end-of-round ticks.
pub open spec fn ticked_upto(u: BattleUnitFull, v: BattleUnitFull, n: nat) -> bool
    decreases n,
{
    if n == 0 {
        v == u
    } else {
        exists|w: BattleUnitFull| ticked_upto(u, w, (n - 1) as nat) && #[trigger] unit_ticked(w, v, tick_kind(n - 1))
    }
}

/// What one end-of-round tick of kind `tick` of unit `u` at `r`, giving
/// `v`, reports: the damage of its burn, poison or freeze and its fall; the
/// healing its heals over time restore; nothing for the other ticks.
pub open spec fn tick_events(u: BattleUnitFull, v: BattleUnitFull, r: TargetRef, tick: RoundTick) -> Seq<BattleEvent> {
    if !u.unit.is_alive {
        seq![]
    } else {
        match tick {
            RoundTick::Statuses => {
                let dmg = status::capped_damage(
                    status::total_dot(u.status_state.statuses@, u.unit.stats.hp@, u.unit.current_hp),
                );
                if dmg > 0 {
                    seq![
                        BattleEvent::DamageDealt(
                            DamageDealt {
                                source: r,
                                target: r,
                                amount: dmg as u16,
                                damage_type: DamageType::Physical,
                                is_crit: false,
                            },
                        ),
                    ] + if v.unit.current_hp == 0 {
                        seq![BattleEvent::UnitDefeated(UnitDefeated { unit: r })]
                    } else {
                        seq![]
                    }
                } else {
                    seq![]
                }
            },
            RoundTick::Hots => if v.unit.current_hp > u.unit.current_hp {
                seq![
                    BattleEvent::HealingDone(
                        HealingDone { source: r, target: r, amount: (v.unit.current_hp - u.unit.current_hp) as u16 },
                    ),
                ]
            } else {
                seq![]
            },
            _ => seq![],
        }
    }
}

/// What one end-of-round tick reports for the units `us` of `side`, giving
/// `vs`, unit by unit.
pub open spec fn side_tick_events(us: Seq<BattleUnitFull>, vs: Seq<BattleUnitFull>, side: Side, tick: RoundTick) -> Seq<BattleEvent>
    decreases us.len(),
{
    if us.len() == 0 || vs.len() < us.len() {
        seq![]
    } else {
        side_tick_events(us.drop_last(), vs.take(us.len() - 1), side, tick) + tick_events(
            us.last(),
            vs[us.len() - 1],
            TargetRef { side, index: (us.len() - 1) as u8 },
            tick,
        )
    }
}

/// A tick reaches only the units that are up.
pub open spec fn unit_ticked(u: BattleUnitFull, v: BattleUnitFull, tick: RoundTick) -> bool {
    if u.unit.is_alive {
        tick_applied(u, v, tick)
    } else {
        v == u
    }
}

/// Burn, poison and freeze for one living unit.
fn tick_unit_statuses(battle: &mut Battle, r: TargetRef, events: &mut Vec<BattleEvent>)
    requires
        old(battle).wf(),
        unit_at(*old(battle), r) matches Some(u) && u.unit.is_alive,
    ensures
        exec_step(*old(battle), *final(battle), old(events)@, final(events)@),
        final(battle).team_djinn_slots == old(battle).team_djinn_slots,
        final(battle).mana_pool == old(battle).mana_pool,
        replaced(*old(battle), *final(battle), r, unit_at(*final(battle), r).unwrap()),
        unit_at(*final(battle), r) matches Some(v) && tick_applied(unit_at(*old(battle), r).unwrap(), v, RoundTick::Statuses),
        final(events)@ == old(events)@ + tick_events(
            unit_at(*old(battle), r).unwrap(),
            unit_at(*final(battle), r).unwrap(),
            r,
            RoundTick::Statuses,
        ),
{
    let ghost b0 = *battle;
    let ghost e0 = events@;
    proof {
        lemma_extends_refl(e0);
    }
    let mut u = take_unit(battle, r);
    let ghost u0 = u;
    let result = status::tick_statuses(u.unit.stats.hp.get(), u.unit.current_hp, &mut u.status_state.statuses);
    if result.damage > 0 {
        u.unit.current_hp = u.unit.current_hp.saturating_sub(result.damage);
        emit(events, BattleEvent::DamageDealt(DamageDealt {
            source: r,
            target: r,
            amount: result.damage,
            damage_type: DamageType::Physical,
            is_crit: false,
        }));
        if u.unit.current_hp == 0 {
            u.unit.is_alive = false;
            emit(events, BattleEvent::UnitDefeated(UnitDefeated { unit: r }));
        }
    }
    let ghost v = u;
    proof {
        lemma_take_put(side_units(b0, r.side), r.index as int, v);
    }
    put_unit(battle, r, u);
    proof {
        assert(replaced(b0, *battle, r, v));
        lemma_replaced(b0, *battle, r, v);
        assert(unit_at(*battle, r) == Some(v));
        assert(events@ =~= e0 + tick_events(u0, v, r, RoundTick::Statuses));
    }
}

/// Heal over time for one living unit, never above its maximum (a unit
/// revived above its maximum is brought down to it, and nothing is reported).
fn tick_unit_hots(battle: &mut Battle, r: TargetRef, events: &mut Vec<BattleEvent>)
    requires
        old(battle).wf(),
        unit_at(*old(battle), r) matches Some(u) && u.unit.is_alive,
    ensures
        exec_step(*old(battle), *final(battle), old(events)@, final(events)@),
        final(battle).team_djinn_slots == old(battle).team_djinn_slots,
        final(battle).mana_pool == old(battle).mana_pool,
        replaced(*old(battle), *final(battle), r, unit_at(*final(battle), r).unwrap()),
        unit_at(*final(battle), r) matches Some(v) && tick_applied(unit_at(*old(battle), r).unwrap(), v, RoundTick::Hots),
        final(events)@ == old(events)@ + tick_events(
            unit_at(*old(battle), r).unwrap(),
            unit_at(*final(battle), r).unwrap(),
            r,
            RoundTick::Hots,
        ),
{
    let ghost b0 = *battle;
    let ghost e0 = events@;
    proof {
        lemma_extends_refl(e0);
    }
    let mut u = take_unit(battle, r);
    let ghost u0 = u;
    let healing = status::tick_hots(&mut u.status_state.hots);
    if healing > 0 {
        let max_hp = u.unit.stats.hp.get();
        let old_hp = u.unit.current_hp;
        let sum = old_hp.saturating_add(healing);
        u.unit.current_hp = if sum > max_hp { max_hp } else { sum };
        if u.unit.current_hp > old_hp {
            let actual = u.unit.current_hp - old_hp;
            emit(events, BattleEvent::HealingDone(HealingDone { source: r, target: r, amount: actual }));
        }
    }
    let ghost v = u;
    proof {
        lemma_take_put(side_units(b0, r.side), r.index as int, v);
    }
    put_unit(battle, r, u);
    proof {
        assert(replaced(b0, *battle, r, v));
        lemma_replaced(b0, *battle, r, v);
        assert(unit_at(*battle, r) == Some(v));
        assert(events@ =~= e0 + tick_events(u0, v, r, RoundTick::Hots));
    }
}

/// Which end-of-round tick to run on every living unit.
#[derive(Clone, Copy)]
pub enum RoundTick {
    Statuses,
    Hots,
    Buffs,
    Barriers,
    Immunity,
}

/// Run one tick on the living units of one side, in index order.
fn tick_side(battle: &mut Battle, side: Side, tick: RoundTick, events: &mut Vec<BattleEvent>)
    requires
        old(battle).wf(),
    ensures
        exec_step(*old(battle), *final(battle), old(events)@, final(events)@),
        final(battle).team_djinn_slots == old(battle).team_djinn_slots,
        final(battle).mana_pool == old(battle).mana_pool,
        same_but_units(*old(battle), *final(battle)),
        side_units(*final(battle), other_side(side)) == side_units(*old(battle), other_side(side)),
        side_units(*final(battle), side).len() == side_units(*old(battle), side).len(),
        forall|k: int|
            0 <= k < side_units(*old(battle), side).len() ==> unit_ticked(
                side_units(*old(battle), side)[k],
                #[trigger] side_units(*final(battle), side)[k],
                tick,
            ),
        final(events)@ == old(events)@ + side_tick_events(side_units(*old(battle), side), side_units(*final(battle), side), side, tick),
{
    let ghost b0 = *battle;
    let ghost e0 = events@;
    proof {
        lemma_exec_step_refl(b0, e0);
    }
    let count = match side {
        Side::Player => battle.player_units.len(),
        Side::Enemy => battle.enemies.len(),
    };
    let mut i: usize = 0;
    while i < count
        invariant
            i <= count,
            count == side_units(b0, side).len(),
            count <= 255,
            exec_step(b0, *battle, e0, events@),
            battle.team_djinn_slots == b0.team_djinn_slots,
            battle.mana_pool == b0.mana_pool,
            same_but_units(b0, *battle),
            side_units(*battle, other_side(side)) == side_units(b0, other_side(side)),
            side_units(*battle, side).len() == count,
            forall|k: int| 0 <= k < i ==> unit_ticked(side_units(b0, side)[k], #[trigger] side_units(*battle, side)[k], tick),
            forall|k: int| i <= k < count ==> #[trigger] side_units(*battle, side)[k] == side_units(b0, side)[k],
            events@ == e0 + side_tick_events(side_units(b0, side).take(i as int), side_units(*battle, side).take(i as int), side, tick),
        decreases count - i,
    {
        let r = TargetRef { side, index: i as u8 };
        let ghost bi = *battle;
        let ghost ei = events@;
        proof {
            lemma_frame_keeps_refs(b0, *battle);
            assert(unit_at(b0, r) is Some);
        }
        if alive_ref(battle, r) {
            let ghost b1 = *battle;
            let ghost e1 = events@;
            proof {
                lemma_extends_refl(e1);
            }
            match tick {
                RoundTick::Statuses => tick_unit_statuses(battle, r, events),
                RoundTick::Hots => tick_unit_hots(battle, r, events),
                RoundTick::Buffs => {
                    let _ = change_effects(battle, r, EffectChange::TickBuffs);
                },
                RoundTick::Barriers => {
                    let _ = change_effects(battle, r, EffectChange::TickBarriers);
                },
                RoundTick::Immunity => {
                    let _ = change_effects(battle, r, EffectChange::TickImmunity);
                },
            }
            proof {
                lemma_exec_step_trans(b0, b1, *battle, e0, e1, events@);
                let v = unit_at(*battle, r).unwrap();
                assert(replaced(b1, *battle, r, v));
                assert(side_units(*battle, side) == side_units(b1, side).update(i as int, v));
                assert(tick_applied(side_units(b0, side)[i as int], v, tick));
            }
        }
        proof {
            let us = side_units(b0, side).take(i + 1);
            let vs = side_units(*battle, side).take(i + 1);
            assert(us.drop_last() =~= side_units(b0, side).take(i as int));
            assert(vs.take(i as int) =~= side_units(*battle, side).take(i as int));
            assert(side_units(*battle, side).take(i as int) =~= side_units(bi, side).take(i as int));
            assert(us.last() == side_units(bi, side)[i as int]);
            assert(vs[i as int] == side_units(*battle, side)[i as int]);
            assert(events@ =~= ei + tick_events(us.last(), vs[i as int], r, tick));
        }
        i += 1;
    }
    proof {
        assert(side_units(b0, side).take(count as int) =~= side_units(b0, side));
        assert(side_units(*battle, side).take(count as int) =~= side_units(*battle, side));
    }
}

/// Djinn in recovery count down; at most one becomes ready.
fn tick_all_units_djinn(battle: &mut Battle, events: &mut Vec<BattleEvent>)
    requires
        old(battle).wf(),
    ensures
        exec_step(*old(battle), *final(battle), old(events)@, final(events)@),
        final(battle).mana_pool == old(battle).mana_pool,
        final(battle).enemies == old(battle).enemies,
        final(battle).player_units@.len() == old(battle).player_units@.len(),
        forall|k: int|
            0 <= k < old(battle).player_units@.len() ==> same_but_djinn(
                old(battle).player_units@[k],
                #[trigger] final(battle).player_units@[k],
            ),
        final(battle).team_djinn_slots.slots@ == djinn::tick_slots(hydrated_team(*old(battle))),
        final(events)@ == old(events)@ + djinn_tick_events(*old(battle)),
{
    let ghost b0 = *battle;
    let ghost e0 = events@;
    hydrate_team_djinn_slots_from_players(battle);
    proof {
        lemma_djinn_only_step(b0, *battle, e0);
    }
    let ghost b1 = *battle;
    let anchor = team_djinn_anchor_ref(battle);
    let djinn_events = djinn::tick_recovery(&mut battle.team_djinn_slots, anchor);
    let ghost b2 = *battle;
    proof {
        assert(same_but_team(b1, b2));
        assert forall|k: int| 0 <= k < b2.player_units@.len() implies same_but_djinn(b1.player_units@[k], #[trigger] b2.player_units@[k]) by {}
        lemma_djinn_only_step(b1, b2, e0);
        lemma_exec_step_trans(b0, b1, b2, e0, e0, e0);
    }
    if djinn_events.len() > 0 {
        sync_team_djinn_slots_to_players(battle);
        proof {
            lemma_djinn_only_step(b2, *battle, e0);
            lemma_exec_step_trans(b0, b2, *battle, e0, e0, e0);
        }
        let mut k: usize = 0;
        proof {
            assert(e0 + djinn_events@.take(0).map_values(djinn_changed_fn()) =~= e0);
        }
        while k < djinn_events.len()
            invariant
                k <= djinn_events@.len(),
                extends(e0, events@),
                events@ == e0 + djinn_events@.take(k as int).map_values(djinn_changed_fn()),
            decreases djinn_events@.len() - k,
        {
            let change = djinn_events[k].clone();
            emit(events, BattleEvent::DjinnChanged(change));
            k += 1;
            proof {
                assert(djinn_events@.take(k as int).map_values(djinn_changed_fn()) =~= djinn_events@.take(k - 1).map_values(
                    djinn_changed_fn(),
                ).push(BattleEvent::DjinnChanged(change)));
            }
        }
        proof {
            assert(djinn_events@.take(k as int) =~= djinn_events@);
            assert(first_alive(b1.player_units@) == first_alive(b0.player_units@)) by {
                assert(alive_flags(b1.player_units@) =~= alive_flags(b0.player_units@)) by {
                    assert forall|q: int| 0 <= q < b0.player_units@.len() implies (#[trigger] b1.player_units@[q]).unit.is_alive
                        == b0.player_units@[q].unit.is_alive by {
                        assert(same_but_djinn(b0.player_units@[q], b1.player_units@[q]));
                    }
                }
            }
            assert(events@ =~= e0 + djinn_tick_events(b0));
        }
    } else {
        proof {
            assert(events@ =~= e0 + djinn_tick_events(b0));
        }
    }
}

/// Where the team's djinn are reported: the first player unit up, else the
/// first player unit.
pub open spec fn anchor_ref(b: Battle) -> TargetRef {
    TargetRef {
        side: Side::Player,
        index: match first_alive(b.player_units@) {
            Some(i) => i as u8,
            None => 0,
        },
    }
}

/// What the team's djinn recovering reports: the one that becomes ready, if
/// any.
pub open spec fn djinn_tick_events(b: Battle) -> Seq<BattleEvent> {
    let team = hydrated_team(b);
    match djinn::recovery_candidate(team, team.len()) {
        Some(c) => seq![
            BattleEvent::DjinnChanged(
                DjinnStateChanged {
                    djinn_id: team[c].djinn_id,
                    unit: anchor_ref(b),
                    old_state: DjinnState::Recovery,
                    new_state: DjinnState::Good,
                    recovery_turns: None,
                },
            ),
        ],
        None => seq![],
    }
}

/// Statuses, heals over time, buffs, barriers and immunity tick for every
/// living unit, players first; then the team's djinn recover.
/// `b` and `eb` are `a` and `ea` after one tick of kind `tick` on the units
/// of `side`.
pub open spec fn side_ticked(a: Battle, b: Battle, ea: Seq<BattleEvent>, eb: Seq<BattleEvent>, side: Side, tick: RoundTick) -> bool {
    &&& side_units(b, other_side(side)) == side_units(a, other_side(side))
    &&& side_units(b, side).len() == side_units(a, side).len()
    &&& forall|k: int| 0 <= k < side_units(a, side).len() ==> unit_ticked(side_units(a, side)[k], #[trigger] side_units(b, side)[k], tick)
    &&& eb == ea + side_tick_events(side_units(a, side), side_units(b, side), side, tick)
}

/// The side that the `i`-th of the end-of-round tick runs takes: players,
/// then enemies, for each kind in turn.
pub open spec fn tick_side_of(i: int) -> Side {
    if i % 2 == 0 {
        Side::Player
    } else {
        Side::Enemy
    }
}

/// The first `n` side ticks of the end of a round, with their events.
pub open spec fn ticks_run(states: Seq<Battle>, logs: Seq<Seq<BattleEvent>>, n: int) -> bool {
    &&& states.len() == n + 1
    &&& logs.len() == n + 1
    &&& forall|i: int|
        #![trigger states[i]]
        0 <= i < n ==> side_ticked(states[i], states[i + 1], logs[i], logs[i + 1], tick_side_of(i), tick_kind(i / 2))
}

/// What the end-of-round ticks report: the ticks of each kind, players then
/// enemies, unit by unit (see `tick_events`); then the djinn that becomes
/// ready.
pub open spec fn round_ticks_reported(a: Battle, ea: Seq<BattleEvent>, eb: Seq<BattleEvent>) -> bool {
    exists|states: Seq<Battle>, logs: Seq<Seq<BattleEvent>>|
        {
            &&& #[trigger] ticks_run(states, logs, 10)
            &&& states[0].player_units == a.player_units
            &&& states[0].enemies == a.enemies
            &&& states[0].team_djinn_slots == a.team_djinn_slots
            &&& logs[0] == ea
            &&& eb == logs[10] + djinn_tick_events(states[10])
        }
}

fn end_of_round_ticks(battle: &mut Battle, events: &mut Vec<BattleEvent>)
    requires
        old(battle).wf(),
    ensures
        exec_step(*old(battle), *final(battle), old(events)@, final(events)@),
        round_ticks_done(*old(battle), *final(battle)),
        round_ticks_reported(*old(battle), old(events)@, final(events)@),
{
    let ghost b0 = *battle;
    let ghost e0 = events@;
    let ghost mut states: Seq<Battle> = seq![b0];
    let ghost mut logs: Seq<Seq<BattleEvent>> = seq![e0];
    proof {
        lemma_exec_step_refl(b0, e0);
    }
    let mut t: usize = 0;
    while t < 5
        invariant
            t <= 5,
            exec_step(b0, *battle, e0, events@),
            battle.mana_pool == b0.mana_pool,
            same_but_units(b0, *battle),
            forall|k: int| 0 <= k < b0.player_units@.len() ==> ticked_upto(b0.player_units@[k], #[trigger] battle.player_units@[k], t as nat),
            forall|k: int| 0 <= k < b0.enemies@.len() ==> ticked_upto(b0.enemies@[k], #[trigger] battle.enemies@[k], t as nat),
            ticks_run(states, logs, 2 * t),
            states[0] == b0,
            logs[0] == e0,
            states.last() == *battle,
            logs.last() == events@,
        decreases 5 - t,
    {
        let tick = if t == 0 {
            RoundTick::Statuses
        } else if t == 1 {
            RoundTick::Hots
        } else if t == 2 {
            RoundTick::Buffs
        } else if t == 3 {
            RoundTick::Barriers
        } else {
            RoundTick::Immunity
        };
        let ghost b1 = *battle;
        let ghost e1 = events@;
        tick_side(battle, Side::Player, tick, events);
        let ghost b2 = *battle;
        let ghost e2 = events@;
        tick_side(battle, Side::Enemy, tick, events);
        proof {
            let s2 = states.push(b2).push(*battle);
            let l2 = logs.push(e2).push(events@);
            assert(tick_side_of(2 * t as int) == Side::Player);
            assert(tick_side_of(2 * t + 1) == Side::Enemy);
            assert((2 * t as int) / 2 == t);
            assert((2 * t + 1) / 2 == t);
            assert(side_ticked(b1, b2, e1, e2, Side::Player, tick));
            assert(side_ticked(b2, *battle, e2, events@, Side::Enemy, tick));
            assert forall|i: int| #![trigger s2[i]] 0 <= i < 2 * t + 2 implies side_ticked(
                s2[i],
                s2[i + 1],
                l2[i],
                l2[i + 1],
                tick_side_of(i),
                tick_kind(i / 2),
            ) by {
                if i < 2 * t {
                    assert(s2[i] == states[i]);
                    assert(s2[i + 1] == states[i + 1]);
                    assert(l2[i] == logs[i]);
                    assert(l2[i + 1] == logs[i + 1]);
                }
            }
            states = s2;
            logs = l2;
            lemma_exec_step_trans(b1, b2, *battle, e1, e2, events@);
            lemma_exec_step_trans(b0, b1, *battle, e0, e1, events@);
            assert(tick == tick_kind(t as int));
            assert(other_side(Side::Player) == Side::Enemy);
            assert(other_side(Side::Enemy) == Side::Player);
            assert forall|k: int| 0 <= k < b0.player_units@.len() implies ticked_upto(
                b0.player_units@[k],
                #[trigger] battle.player_units@[k],
                (t + 1) as nat,
            ) by {
                let w = b1.player_units@[k];
                assert(battle.player_units@[k] == b2.player_units@[k]);
                assert(unit_ticked(w, battle.player_units@[k], tick_kind(t as int)));
                assert(ticked_upto(b0.player_units@[k], w, t as nat));
            }
            assert forall|k: int| 0 <= k < b0.enemies@.len() implies ticked_upto(
                b0.enemies@[k],
                #[trigger] battle.enemies@[k],
                (t + 1) as nat,
            ) by {
                let w = b1.enemies@[k];
                assert(b2.enemies@[k] == w);
                assert(unit_ticked(w, battle.enemies@[k], tick_kind(t as int)));
                assert(ticked_upto(b0.enemies@[k], w, t as nat));
            }
        }
        t += 1;
    }
    let ghost b3 = *battle;
    let ghost e3 = events@;
    tick_all_units_djinn(battle, events);
    proof {
        assert(ticks_run(states, logs, 10));
        assert(round_ticks_reported(b0, e0, events@));
        lemma_exec_step_trans(b0, b3, *battle, e0, e3, events@);
        assert(hydrated_team(b3) == hydrated_team(b0)) by {
            assert forall|k: int| 0 <= k < b0.player_units@.len() implies (#[trigger] b3.player_units@[k]).djinn_slots
                == b0.player_units@[k].djinn_slots by {
                lemma_ticked_keeps_djinn(b0.player_units@[k], b3.player_units@[k], 5);
            }
            lemma_same_djinn_hydrated(b0, b3);
        }
        assert forall|k: int| 0 <= k < b0.player_units@.len() implies #[trigger] ticked_then_synced(
            b0.player_units@[k],
            battle.player_units@[k],
        ) by {
            assert(ticked_upto(b0.player_units@[k], b3.player_units@[k], 5));
            assert(same_but_djinn(b3.player_units@[k], battle.player_units@[k]));
        }
        assert(battle.mana_pool == b0.mana_pool);
        assert(battle.enemies@.len() == b0.enemies@.len());
        assert(battle.player_units@.len() == b0.player_units@.len());
        assert(battle.team_djinn_slots.slots@ == djinn::tick_slots(hydrated_team(b0)));
        assert forall|k: int| 0 <= k < b0.enemies@.len() implies ticked_upto(b0.enemies@[k], #[trigger] battle.enemies@[k], 5) by {
            assert(battle.enemies@[k] == b3.enemies@[k]);
        }
    }
}

proof fn lemma_ticked_keeps_djinn(u: BattleUnitFull, v: BattleUnitFull, n: nat)
    requires
        ticked_upto(u, v, n),
    ensures
        v.djinn_slots == u.djinn_slots,
    decreases n,
{
    if n > 0 {
        let w = choose|w: BattleUnitFull| ticked_upto(u, w, (n - 1) as nat) && #[trigger] unit_ticked(w, v, tick_kind(n - 1));
        lemma_ticked_keeps_djinn(u, w, (n - 1) as nat);
    }
}

proof fn lemma_first_held_same(a: Seq<BattleUnitFull>, b: Seq<BattleUnitFull>)
    requires
        a.len() == b.len(),
        forall|k: int| 0 <= k < a.len() ==> (#[trigger] b[k]).djinn_slots == a[k].djinn_slots,
    ensures
        first_held_djinn(b) == first_held_djinn(a),
        first_held_next(b) == first_held_next(a),
    decreases a.len(),
{
    if a.len() > 0 {
        assert forall|k: int| 0 <= k < a.drop_first().len() implies (#[trigger] b.drop_first()[k]).djinn_slots == a.drop_first()[k].djinn_slots by {
            assert(b.drop_first()[k] == b[k + 1]);
            assert(a.drop_first()[k] == a[k + 1]);
        }
        lemma_first_held_same(a.drop_first(), b.drop_first());
        assert(b[0].djinn_slots == a[0].djinn_slots);
    }
}

/// Battles whose team and players hold the same djinn hydrate alike.
proof fn lemma_same_djinn_hydrated(a: Battle, b: Battle)
    requires
        b.team_djinn_slots == a.team_djinn_slots,
        b.player_units@.len() == a.player_units@.len(),
        forall|k: int| 0 <= k < a.player_units@.len() ==> (#[trigger] b.player_units@[k]).djinn_slots == a.player_units@[k].djinn_slots,
    ensures
        hydrated_team(b) == hydrated_team(a),
        hydrated_next(b) == hydrated_next(a),
{
    lemma_first_held_same(a.player_units@, b.player_units@);
}

/// `v` is `u` after the five end-of-round ticks, holding the team's djinn.
pub open spec fn ticked_then_synced(u: BattleUnitFull, v: BattleUnitFull) -> bool {
    exists|w: BattleUnitFull| #[trigger] ticked_upto(u, w, 5) && same_but_djinn(w, v)
}

/// What the end-of-round ticks do: every unit takes the five ticks in turn
/// (see `tick_kind`; a unit down by then is left alone), the team's djinn
/// in recovery count down, and the players' djinn follow the team's.
pub open spec fn round_ticks_done(a: Battle, b: Battle) -> bool {
    &&& b.mana_pool == a.mana_pool
    &&& units_ticked(a, b)
}

/// Every unit of `b` is that of `a` after the end-of-round ticks, and the
/// team's djinn in recovery have counted down.
pub open spec fn units_ticked(a: Battle, b: Battle) -> bool {
    &&& b.enemies@.len() == a.enemies@.len()
    &&& forall|k: int| 0 <= k < a.enemies@.len() ==> ticked_upto(a.enemies@[k], #[trigger] b.enemies@[k], 5)
    &&& b.player_units@.len() == a.player_units@.len()
    &&& forall|k: int|
        0 <= k < a.player_units@.len() ==> #[trigger] ticked_then_synced(a.player_units@[k], b.player_units@[k])
    &&& b.team_djinn_slots.slots@ == djinn::tick_slots(hydrated_team(a))
}

// ── A round ─────────────────────────────────────────────────────────

/// Whether an actor still acts when its turn comes: it exists, is alive and
/// is not stunned or frozen.
fn may_proceed(battle: &Battle, actor_ref: TargetRef) -> (r: bool)
    ensures
        r == (unit_at(*battle, actor_ref) matches Some(u) && u.unit.is_alive && may_act(u)),
{
    match get_unit(battle, actor_ref) {
        Some(u) => u.unit.is_alive && status::can_act(u.status_state.statuses.as_slice()),
        None => false,
    }
}

/// What one planned action does: an actor that is missing, down, stunned or
/// frozen skips its turn; otherwise its attack, ability, djinn activation or
/// summon takes effect as `attack_done`, `ability_done`,
/// `djinn_activation_done` and `summon_done` say. Every damage it reports
/// names the actor as its source.
pub open spec fn action_done(
    a: Battle,
    b: Battle,
    ea: Seq<BattleEvent>,
    eb: Seq<BattleEvent>,
    actor: TargetRef,
    action: crate::shared::ActionView,
) -> bool {
    &&& exec_step(a, b, ea, eb)
    &&& sourced(ea, eb, actor)
    &&& if unit_at(a, actor) matches Some(u) && u.unit.is_alive && may_act(u) {
        match action {
            crate::shared::ActionView::Attack { target } => attack_done(a, b, ea, eb, actor, target),
            crate::shared::ActionView::UseAbility { ability_id, targets } => ability_done(a, b, ea, eb, actor, ability_id, targets),
            crate::shared::ActionView::ActivateDjinn { djinn_index } => djinn_activation_done(
                a,
                b,
                ea,
                eb,
                actor,
                djinn_index as int,
            ),
            crate::shared::ActionView::Summon { djinn_indices } => summon_done(a, b, actor, djinn_indices)
                && summon_reports(a, ea, eb, actor, djinn_indices),
        }
    } else {
        b == a && eb == ea
    }
}

/// The planned summons, in the order planned.
pub open spec fn summons_of(p: Seq<(TargetRef, BattleAction)>) -> Seq<(TargetRef, BattleAction)>
    decreases p.len(),
{
    if p.len() == 0 {
        seq![]
    } else if p.last().1 is Summon {
        summons_of(p.drop_last()).push(p.last())
    } else {
        summons_of(p.drop_last())
    }
}

/// The planned actions other than summons, in the order planned.
pub open spec fn others_of(p: Seq<(TargetRef, BattleAction)>) -> Seq<(TargetRef, BattleAction)>
    decreases p.len(),
{
    if p.len() == 0 {
        seq![]
    } else if p.last().1 is Summon {
        others_of(p.drop_last())
    } else {
        others_of(p.drop_last()).push(p.last())
    }
}

/// The order in which a round carries out its plan: the summons first, then
/// the other actions, each group in the order planned.
pub open spec fn round_order(p: Seq<(TargetRef, BattleAction)>) -> Seq<(TargetRef, BattleAction)> {
    summons_of(p) + others_of(p)
}

/// `trace` and `logs` are the battles and event logs as the actions of
/// `order` are carried out one after the other.
pub open spec fn played(trace: Seq<Battle>, logs: Seq<Seq<BattleEvent>>, order: Seq<(TargetRef, BattleAction)>) -> bool {
    &&& trace.len() == order.len() + 1
    &&& logs.len() == order.len() + 1
    &&& forall|i: int|
        0 <= i < order.len() ==> action_done(trace[i], trace[i + 1], logs[i], logs[i + 1], (#[trigger] order[i]).0, order[i].1@)
}

/// `b` is `a` as its round begins: in the execution phase, the plan taken out.
pub open spec fn round_begun(a: Battle, b: Battle) -> bool {
    &&& b.round == a.round
    &&& b.phase == BattlePhase::Execution
    &&& b.player_units == a.player_units
    &&& b.enemies == a.enemies
    &&& b.team_djinn_slots == a.team_djinn_slots
    &&& b.mana_pool == a.mana_pool
    &&& b.planned_actions@.len() == 0
    &&& b.log == a.log
    &&& b.config == a.config
    &&& b.ability_defs == a.ability_defs
    &&& b.djinn_defs == a.djinn_defs
}

/// In a played round the actions report in the order they were carried
/// out: the events of the `i`-th action follow those of the actions before
/// it, and every damage report among them names its actor as the source.
pub proof fn lemma_round_reports_in_order(
    trace: Seq<Battle>,
    logs: Seq<Seq<BattleEvent>>,
    order: Seq<(TargetRef, BattleAction)>,
    events: Seq<BattleEvent>,
    i: int,
    p: int,
)
    requires
        played(trace, logs, order),
        extends(logs.last(), events),
        0 <= i < order.len(),
        logs[i].len() <= p < logs[i + 1].len(),
    ensures
        forall|j: int| 0 <= j <= i ==> (#[trigger] logs[j]).len() <= logs[i].len(),
        p < events.len(),
        damage_from(events[p], order[i].0),
{
    assert(action_done(trace[i], trace[i + 1], logs[i], logs[i + 1], order[i].0, order[i].1@));
    lemma_logs_grow(trace, logs, order, i + 1);
    assert(logs[i + 1][p] == events[p]) by {
        assert(extends(logs[i + 1], logs.last()));
        lemma_extends_trans(logs[i + 1], logs.last(), events);
        assert(events.subrange(0, logs[i + 1].len() as int)[p] == events[p]);
    }
    lemma_logs_grow(trace, logs, order, i);
}

/// The event logs of a played round only grow.
proof fn lemma_logs_grow(trace: Seq<Battle>, logs: Seq<Seq<BattleEvent>>, order: Seq<(TargetRef, BattleAction)>, i: int)
    requires
        played(trace, logs, order),
        0 <= i <= order.len(),
    ensures
        extends(logs[i], logs.last()),
        forall|j: int| 0 <= j <= i ==> extends(#[trigger] logs[j], logs[i]),
    decreases order.len() - i,
{
    if i < order.len() {
        assert(action_done(trace[i], trace[i + 1], logs[i], logs[i + 1], order[i].0, order[i].1@));
        lemma_logs_grow(trace, logs, order, i + 1);
        lemma_extends_trans(logs[i], logs[i + 1], logs.last());
    } else {
        lemma_extends_refl(logs[i]);
    }
    lemma_logs_grow_back(trace, logs, order, i);
}

proof fn lemma_logs_grow_back(trace: Seq<Battle>, logs: Seq<Seq<BattleEvent>>, order: Seq<(TargetRef, BattleAction)>, i: int)
    requires
        played(trace, logs, order),
        0 <= i <= order.len(),
    ensures
        forall|j: int| 0 <= j <= i ==> extends(#[trigger] logs[j], logs[i]),
    decreases i,
{
    if i > 0 {
        lemma_logs_grow_back(trace, logs, order, i - 1);
        assert(action_done(trace[i - 1], trace[i], logs[i - 1], logs[i], order[i - 1].0, order[i - 1].1@));
        assert forall|j: int| 0 <= j <= i implies extends(#[trigger] logs[j], logs[i]) by {
            if j < i {
                lemma_extends_trans(logs[j], logs[i - 1], logs[i]);
            } else {
                lemma_extends_refl(logs[i]);
            }
        }
    } else {
        lemma_extends_refl(logs[0]);
    }
}

/// Carry out one planned action.
fn execute_action(battle: &mut Battle, actor_ref: TargetRef, action: BattleAction, events: &mut Vec<BattleEvent>)
    requires
        old(battle).wf(),
    ensures
        action_done(*old(battle), *final(battle), old(events)@, final(events)@, actor_ref, action@),
{
    let ghost b0 = *battle;
    let ghost e0 = events@;
    proof {
        lemma_exec_step_refl(b0, e0);
    }
    if !may_proceed(battle, actor_ref) {
        return;
    }
    match action {
        BattleAction::Attack { target } => {
            execute_attack(battle, actor_ref, target, events);
        },
        BattleAction::UseAbility { ability_id, targets } => {
            execute_ability(battle, actor_ref, &ability_id, &targets, events);
        },
        BattleAction::ActivateDjinn { djinn_index } => {
            execute_djinn_activate(battle, actor_ref, djinn_index as usize, events);
        },
        BattleAction::Summon { djinn_indices } => {
            execute_summon_action(battle, actor_ref, &djinn_indices, events);
        },
    }
}

/// What one round does to battle `a`, giving `b` and reporting `events`
/// (see `execute_round`).
pub open spec fn round_played(a: Battle, b: Battle, events: Seq<BattleEvent>) -> bool {
    &&& b.round == a.round + 1
    &&& b.phase == BattlePhase::Planning
    &&& b.planned_actions@.len() == 0
    &&& b.log == a.log
    &&& b.config == a.config
    &&& b.ability_defs == a.ability_defs
    &&& b.djinn_defs == a.djinn_defs
    &&& same_roster(a.player_units@, b.player_units@)
    &&& same_roster(a.enemies@, b.enemies@)
    &&& b.mana_pool.max_mana == a.mana_pool.max_mana
    &&& a.config.mana_resets_each_round ==> b.mana_pool.current_mana == a.mana_pool.max_mana
        && b.mana_pool.projected_mana == a.mana_pool.max_mana
    &&& events.len() >= 2
    &&& events[0] == BattleEvent::RoundStarted(a.round)
    &&& events.last() == BattleEvent::RoundEnded(a.round)
    &&& exists|trace: Seq<Battle>, logs: Seq<Seq<BattleEvent>>|
        {
            &&& #[trigger] played(trace, logs, round_order(a.planned_actions@))
            &&& round_begun(a, trace[0])
            &&& logs[0] == seq![BattleEvent::RoundStarted(a.round)]
            &&& extends(logs.last(), events)
            &&& units_ticked(trace.last(), b)
            &&& exists|tail: Seq<BattleEvent>|
                #[trigger] round_ticks_reported(trace.last(), logs.last(), tail) && events == tail + refill_events(
                    a.config.mana_resets_each_round,
                    trace.last().mana_pool.current_mana,
                    a.mana_pool.max_mana,
                ) + seq![BattleEvent::RoundEnded(a.round)]
        }
}

/// What refilling the pool at the end of a round reports: its change, where
/// the rules refill it and it was not full.
pub open spec fn refill_events(resets: bool, current: u8, max: u8) -> Seq<BattleEvent> {
    if resets && current != max {
        seq![BattleEvent::ManaChanged(ManaPoolChanged { old_value: current, new_value: max })]
    } else {
        seq![]
    }
}

/// Run one round: summons first, then every other planned action in the
/// order planned (an actor that is down, stunned or frozen by then skips
/// its turn); then the end-of-round ticks; the mana pool refills when the
/// rules say so; the round number goes up and planning starts again.
pub fn execute_round(battle: &mut Battle) -> (events: Vec<BattleEvent>)
    requires
        old(battle).wf(),
        old(battle).round < u32::MAX,
    ensures
        final(battle).wf(),
        round_played(*old(battle), *final(battle), events@),
{
    let mut events: Vec<BattleEvent> = Vec::new();
    let round = battle.round;
    emit(&mut events, BattleEvent::RoundStarted(round));
    let ghost first_events = events@;
    battle.phase = BattlePhase::Execution;
    let mut planned: Vec<(TargetRef, BattleAction)> = Vec::new();
    std::mem::swap(&mut planned, &mut battle.planned_actions);
    let ghost plan = planned@;
    let mut summons: Vec<(TargetRef, BattleAction)> = Vec::new();
    let mut others: Vec<(TargetRef, BattleAction)> = Vec::new();
    let ghost mut taken: int = 0;
    proof {
        assert(plan.take(0) =~= Seq::<(TargetRef, BattleAction)>::empty());
        assert(plan.skip(0) =~= plan);
    }
    while planned.len() > 0
        invariant
            0 <= taken <= plan.len(),
            planned@ == plan.skip(taken),
            summons@ == summons_of(plan.take(taken)),
            others@ == others_of(plan.take(taken)),
        decreases planned@.len(),
    {
        let (tr, action) = planned.remove(0);
        proof {
            assert(plan.take(taken + 1).drop_last() =~= plan.take(taken));
            assert(plan.take(taken + 1).last() == plan[taken]);
            assert(plan.skip(taken).remove(0) =~= plan.skip(taken + 1));
        }
        match action {
            BattleAction::Summon { .. } => summons.push((tr, action)),
            _ => others.push((tr, action)),
        }
        proof {
            taken = taken + 1;
        }
    }
    proof {
        assert(plan.take(taken) =~= plan);
    }
    let mut sequence = summons;
    sequence.append(&mut others);
    let ghost order = sequence@;
    let ghost b0 = *battle;
    let ghost e0 = events@;
    let ghost mut trace: Seq<Battle> = seq![b0];
    let ghost mut logs: Seq<Seq<BattleEvent>> = seq![e0];
    proof {
        lemma_exec_step_refl(b0, e0);
        assert(order.skip(0) =~= order);
    }
    while sequence.len() > 0
        invariant
            exec_step(b0, *battle, e0, events@),
            1 <= trace.len() <= order.len() + 1,
            sequence@ == order.skip(trace.len() - 1),
            played(trace, logs, order.take(trace.len() - 1)),
            trace[0] == b0,
            logs[0] == e0,
            trace.last() == *battle,
            logs.last() == events@,
        decreases sequence@.len(),
    {
        let ghost done = trace.len() - 1;
        let (actor_ref, action) = sequence.remove(0);
        let ghost b1 = *battle;
        let ghost e1 = events@;
        execute_action(battle, actor_ref, action, &mut events);
        proof {
            lemma_exec_step_trans(b0, b1, *battle, e0, e1, events@);
            assert(order[done] == (actor_ref, action));
            assert(order.skip(done).remove(0) =~= order.skip(done + 1));
            let t2 = trace.push(*battle);
            let l2 = logs.push(events@);
            assert forall|i: int| 0 <= i < order.take(done + 1).len() implies action_done(
                t2[i],
                t2[i + 1],
                l2[i],
                l2[i + 1],
                (#[trigger] order.take(done + 1)[i]).0,
                order.take(done + 1)[i].1@,
            ) by {
                if i < done {
                    assert(order.take(done)[i] == order.take(done + 1)[i]);
                }
            }
            trace = t2;
            logs = l2;
        }
    }
    proof {
        assert(order.take(trace.len() - 1) =~= order);
    }
    let ghost t_last = trace.last();
    let ghost l_last = logs.last();
    battle.phase = BattlePhase::RoundEnd;
    let ghost b2 = *battle;
    let ghost e2 = events@;
    end_of_round_ticks(battle, &mut events);
    let ghost e_ticks = events@;
    let ghost m_ticks = battle.mana_pool.current_mana;
    proof {
        lemma_exec_step_trans(b0, b2, *battle, e0, e2, events@);
        assert(round_ticks_reported(t_last, l_last, e_ticks));
    }
    if battle.config.mana_resets_each_round {
        let old_mana = battle.mana_pool.current_mana;
        battle.mana_pool.reset_mana();
        if old_mana != battle.mana_pool.current_mana {
            let now = battle.mana_pool.current_mana;
            emit(&mut events, BattleEvent::ManaChanged(ManaPoolChanged { old_value: old_mana, new_value: now }));
        }
    }
    emit(&mut events, BattleEvent::RoundEnded(round));
    battle.round = round + 1;
    battle.phase = BattlePhase::Planning;
    proof {
        assert(events@.subrange(0, 1) == first_events);
        assert(events@[0] == events@.subrange(0, 1)[0]);
        assert(extends(l_last, events@));
        assert(played(trace, logs, round_order(old(battle).planned_actions@)));
        assert(units_ticked(t_last, *battle));
        assert(m_ticks == t_last.mana_pool.current_mana);
        assert(events@ =~= e_ticks + refill_events(
            old(battle).config.mana_resets_each_round,
            t_last.mana_pool.current_mana,
            old(battle).mana_pool.max_mana,
        ) + seq![BattleEvent::RoundEnded(old(battle).round)]);
    }
    events
}

} // verus!

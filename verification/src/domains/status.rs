//! Status effects, buffs and debuffs, barriers, heal-over-time, immunity and
//! cleansing, each with its duration in turns. Percentages are whole percent.
use vstd::prelude::*;

use crate::shared::bounded_types::StatMod;
use crate::shared::{
    add_clamped, bonus_in_range, sum_in_range, totals_of, zero_totals, BonusTotals, BuffEffect, CleanseType, DebuffEffect,
    Immunity, StatBonus, StatusEffect, StatusEffectType,
};

verus! {

#[derive(Debug, Clone, Copy, PartialEq, Eq)]
pub struct ActiveStatus {
    pub effect_type: StatusEffectType,
    pub remaining_turns: u8,
    pub burn_percent: Option<u8>,
    pub poison_percent: Option<u8>,
    pub freeze_threshold: Option<u16>,
    pub freeze_damage_taken: u16,
}

/// A buff or a debuff in effect.
#[derive(Debug, Clone, Copy, PartialEq, Eq)]
pub struct ActiveBuff {
    pub stat_modifiers: StatBonus,
    pub remaining_turns: u8,
}

#[derive(Debug, Clone, Copy, PartialEq, Eq)]
pub struct ActiveBarrier {
    pub charges: u8,
    pub remaining_turns: u8,
}

/// Healing over time.
#[derive(Debug, Clone, Copy, PartialEq, Eq)]
pub struct ActiveHoT {
    pub amount: u16,
    pub remaining_turns: u8,
}

#[derive(Debug, Clone, PartialEq, Eq)]
pub struct ActiveImmunity {
    pub all: bool,
    pub types: Vec<StatusEffectType>,
    pub remaining_turns: u8,
}

/// Everything in effect on one unit.
#[derive(Debug, Clone)]
pub struct UnitStatusState {
    pub statuses: Vec<ActiveStatus>,
    pub buffs: Vec<ActiveBuff>,
    pub debuffs: Vec<ActiveBuff>,
    pub barriers: Vec<ActiveBarrier>,
    pub hots: Vec<ActiveHoT>,
    pub immunity: Option<ActiveImmunity>,
}

impl UnitStatusState {
    pub open spec fn is_clear(&self) -> bool {
        &&& self.statuses@.len() == 0
        &&& self.buffs@.len() == 0
        &&& self.debuffs@.len() == 0
        &&& self.barriers@.len() == 0
        &&& self.hots@.len() == 0
        &&& self.immunity is None
    }

    pub fn new() -> (r: Self)
        ensures
            r.is_clear(),
    {
        UnitStatusState {
            statuses: Vec::new(),
            buffs: Vec::new(),
            debuffs: Vec::new(),
            barriers: Vec::new(),
            hots: Vec::new(),
            immunity: None,
        }
    }
}

impl Default for UnitStatusState {
    fn default() -> (r: Self)
        ensures
            r.is_clear(),
    {
        UnitStatusState::new()
    }
}

/// What one end-of-round status tick did.
#[derive(Debug, Clone, PartialEq, Eq)]
pub struct StatusTickResult {
    pub damage: u16,
    pub expired: Vec<StatusEffectType>,
    pub freeze_broken: bool,
}

impl Default for StatusTickResult {
    fn default() -> (r: Self)
        ensures
            r.damage == 0,
            r.expired@.len() == 0,
            !r.freeze_broken,
    {
        StatusTickResult { damage: 0, expired: Vec::new(), freeze_broken: false }
    }
}

// ── Immunity ────────────────────────────────────────────────────────

/// An immunity with turns left blocks every status, or the listed ones.
pub open spec fn blocks(immunity: Option<ActiveImmunity>, t: StatusEffectType) -> bool {
    match immunity {
        Some(imm) => imm.remaining_turns > 0 && (imm.all || imm.types@.contains(t)),
        None => false,
    }
}

fn contains_type(types: &Vec<StatusEffectType>, t: StatusEffectType) -> (r: bool)
    ensures
        r == types@.contains(t),
{
    let mut i: usize = 0;
    while i < types.len()
        invariant
            i <= types@.len(),
            forall|j: int| 0 <= j < i ==> types@[j] != t,
        decreases types@.len() - i,
    {
        if types[i] == t {
            return true;
        }
        i += 1;
    }
    false
}

pub fn is_immune(immunity: &Option<ActiveImmunity>, status_type: StatusEffectType) -> (r: bool)
    ensures
        r == blocks(*immunity, status_type),
{
    match immunity {
        Some(imm) => imm.remaining_turns > 0 && (imm.all || contains_type(&imm.types, status_type)),
        None => false,
    }
}

// ── Statuses ────────────────────────────────────────────────────────

pub open spec fn fresh_status(e: StatusEffect) -> ActiveStatus {
    ActiveStatus {
        effect_type: e.effect_type,
        remaining_turns: e.duration,
        burn_percent: e.burn_percent,
        poison_percent: e.poison_percent,
        freeze_threshold: e.freeze_threshold,
        freeze_damage_taken: 0,
    }
}

/// Add a status unless the unit's own immunity blocks it; reports whether it
/// was added.
pub fn apply_status(
    state: &mut UnitStatusState,
    status_effect: &StatusEffect,
    _immunity: &Option<ActiveImmunity>,
) -> (r: bool)
    ensures
        r == !blocks(old(state).immunity, status_effect.effect_type),
        r ==> final(state).statuses@ == old(state).statuses@.push(fresh_status(*status_effect)),
        !r ==> final(state).statuses@ == old(state).statuses@,
        final(state).buffs == old(state).buffs,
        final(state).debuffs == old(state).debuffs,
        final(state).barriers == old(state).barriers,
        final(state).hots == old(state).hots,
        final(state).immunity == old(state).immunity,
{
    if is_immune(&state.immunity, status_effect.effect_type) {
        return false;
    }
    state.statuses.push(
        ActiveStatus {
            effect_type: status_effect.effect_type,
            remaining_turns: status_effect.duration,
            burn_percent: status_effect.burn_percent,
            poison_percent: status_effect.poison_percent,
            freeze_threshold: status_effect.freeze_threshold,
            freeze_damage_taken: 0,
        },
    );
    true
}

/// A frozen unit that has taken its threshold of damage breaks free.
pub open spec fn freeze_breaks(s: ActiveStatus) -> bool {
    &&& s.effect_type == StatusEffectType::Freeze
    &&& s.freeze_threshold matches Some(t)
    &&& s.freeze_damage_taken >= t
}

/// A status one turn later: a broken freeze ends, others lose a turn.
pub open spec fn status_after_tick(s: ActiveStatus) -> ActiveStatus {
    let left: u8 = if freeze_breaks(s) { 0 } else { s.remaining_turns };
    ActiveStatus {
        effect_type: s.effect_type,
        remaining_turns: if left > 0 { (left - 1) as u8 } else { 0 },
        burn_percent: s.burn_percent,
        poison_percent: s.poison_percent,
        freeze_threshold: s.freeze_threshold,
        freeze_damage_taken: s.freeze_damage_taken,
    }
}

pub open spec fn tick_status_fn() -> spec_fn(ActiveStatus) -> ActiveStatus {
    |s: ActiveStatus| status_after_tick(s)
}

pub open spec fn status_active() -> spec_fn(ActiveStatus) -> bool {
    |s: ActiveStatus| s.remaining_turns > 0
}

pub open spec fn status_over() -> spec_fn(ActiveStatus) -> bool {
    |s: ActiveStatus| s.remaining_turns == 0
}

pub open spec fn status_kind() -> spec_fn(ActiveStatus) -> StatusEffectType {
    |s: ActiveStatus| s.effect_type
}

/// `pct` percent of `base`, rounded down and capped at `u16::MAX`.
pub open spec fn percent_of(base: int, pct: u8) -> int {
    let d = base * pct / 100;
    if d > 65535 {
        65535
    } else {
        d
    }
}

/// Damage a status deals at the end of a round: burn takes a share of the
/// maximum HP, poison a share of the missing HP.
pub open spec fn dot_damage(s: ActiveStatus, max_hp: u16, current_hp: u16) -> int {
    match s.effect_type {
        StatusEffectType::Burn => match s.burn_percent {
            Some(p) => percent_of(max_hp as int, p),
            None => 0,
        },
        StatusEffectType::Poison => match s.poison_percent {
            Some(p) => percent_of(
                if max_hp >= current_hp {
                    max_hp - current_hp
                } else {
                    0
                },
                p,
            ),
            None => 0,
        },
        _ => 0,
    }
}

pub open spec fn total_dot(s: Seq<ActiveStatus>, max_hp: u16, current_hp: u16) -> int
    decreases s.len(),
{
    if s.len() == 0 {
        0
    } else {
        total_dot(s.drop_last(), max_hp, current_hp) + dot_damage(s.last(), max_hp, current_hp)
    }
}

proof fn lemma_total_dot_nonneg(s: Seq<ActiveStatus>, max_hp: u16, current_hp: u16)
    ensures
        total_dot(s, max_hp, current_hp) >= 0,
    decreases s.len(),
{
    if s.len() > 0 {
        lemma_total_dot_nonneg(s.drop_last(), max_hp, current_hp);
    }
}

fn percent_damage(base: u16, pct: u8) -> (r: u16)
    ensures
        r == percent_of(base as int, pct),
{
    assert((base as u32) * (pct as u32) <= 65535u32 * 255u32) by (nonlinear_arith);
    let d: u32 = (base as u32) * (pct as u32) / 100;
    if d > 65535 {
        65535
    } else {
        d as u16
    }
}

fn status_damage(s: &ActiveStatus, max_hp: u16, current_hp: u16) -> (r: u16)
    ensures
        r == dot_damage(*s, max_hp, current_hp),
{
    match s.effect_type {
        StatusEffectType::Burn => match s.burn_percent {
            Some(p) => percent_damage(max_hp, p),
            None => 0,
        },
        StatusEffectType::Poison => match s.poison_percent {
            Some(p) => percent_damage(max_hp.saturating_sub(current_hp), p),
            None => 0,
        },
        _ => 0,
    }
}

/// Damage added up, capped at `u16::MAX`.
pub open spec fn capped_damage(d: int) -> int {
    if d > 65535 {
        65535
    } else {
        d
    }
}

/// End a round for the statuses: deal burn and poison damage (at most
/// `u16::MAX` in all), break a freeze
/// that has taken its threshold, take a turn off every status and drop those
/// that have run out, reporting their kinds in order.
pub fn tick_statuses(max_hp: u16, current_hp: u16, statuses: &mut Vec<ActiveStatus>) -> (r:
    StatusTickResult)
    ensures
        r.damage == capped_damage(total_dot(old(statuses)@, max_hp, current_hp)),
        r.freeze_broken == exists|i: int|
            0 <= i < old(statuses)@.len() && freeze_breaks(#[trigger] old(statuses)@[i]),
        final(statuses)@ == old(statuses)@.map_values(tick_status_fn()).filter(status_active()),
        r.expired@ == old(statuses)@.map_values(tick_status_fn()).filter(status_over()).map_values(
            status_kind(),
        ),
{
    let ghost before = statuses@;
    let ghost ticked = before.map_values(tick_status_fn());
    let mut damage: u16 = 0;
    let mut broken = false;
    let mut kept: Vec<ActiveStatus> = Vec::new();
    let mut expired: Vec<StatusEffectType> = Vec::new();
    let mut i: usize = 0;
    while i < statuses.len()
        invariant
            statuses@ == before,
            ticked == before.map_values(tick_status_fn()),
            i <= before.len(),
            damage == capped_damage(total_dot(before.take(i as int), max_hp, current_hp)),
            broken == exists|j: int| 0 <= j < i && freeze_breaks(#[trigger] before[j]),
            kept@ == ticked.take(i as int).filter(status_active()),
            expired@ == ticked.take(i as int).filter(status_over()).map_values(status_kind()),
        decreases before.len() - i,
    {
        let s = statuses[i];
        let d = status_damage(&s, max_hp, current_hp);
        proof {
            assert(before.take(i + 1).drop_last() =~= before.take(i as int));
            lemma_total_dot_nonneg(before.take(i as int), max_hp, current_hp);
            assert(ticked.take(i + 1) =~= ticked.take(i as int).push(ticked[i as int]));
            ticked.take(i as int).lemma_filter_push(ticked[i as int], status_active());
            ticked.take(i as int).lemma_filter_push(ticked[i as int], status_over());
        }
        damage = damage.saturating_add(d);
        let mut left = s.remaining_turns;
        match s.freeze_threshold {
            Some(threshold) => {
                if s.effect_type == StatusEffectType::Freeze && s.freeze_damage_taken >= threshold {
                    broken = true;
                    left = 0;
                }
            },
            None => {},
        }
        if left > 0 {
            left = left - 1;
        }
        let t = ActiveStatus {
            effect_type: s.effect_type,
            remaining_turns: left,
            burn_percent: s.burn_percent,
            poison_percent: s.poison_percent,
            freeze_threshold: s.freeze_threshold,
            freeze_damage_taken: s.freeze_damage_taken,
        };
        assert(t == ticked[i as int]);
        if left > 0 {
            kept.push(t);
        } else {
            proof {
                let f = ticked.take(i as int).filter(status_over());
                assert(f.push(t).map_values(status_kind()) =~= f.map_values(status_kind()).push(
                    t.effect_type,
                ));
            }
            expired.push(t.effect_type);
        }
        i += 1;
    }
    proof {
        assert(before.take(before.len() as int) =~= before);
        assert(ticked.take(before.len() as int) =~= ticked);
    }
    *statuses = kept;
    StatusTickResult { damage, expired, freeze_broken: broken }
}

// ── Buffs and debuffs ───────────────────────────────────────────────

pub const MAX_BUFF_STACKS: usize = 3;

/// Add a buff unless three are already in effect.
pub fn apply_buff(state: &mut UnitStatusState, buff_effect: &BuffEffect)
    ensures
        final(state).buffs@ == stacked(old(state).buffs@, fresh_buff(buff_effect.stat_modifiers, buff_effect.duration), MAX_BUFF_STACKS),
        same_except_buffs(*old(state), *final(state)),
{
    apply_buff_stacked(state, buff_effect, MAX_BUFF_STACKS);
}

/// Add a debuff unless three are already in effect.
pub fn apply_debuff(state: &mut UnitStatusState, debuff_effect: &DebuffEffect)
    ensures
        final(state).debuffs@ == stacked(old(state).debuffs@, fresh_buff(debuff_effect.stat_modifiers, debuff_effect.duration), MAX_BUFF_STACKS),
        same_except_debuffs(*old(state), *final(state)),
{
    apply_debuff_stacked(state, debuff_effect, MAX_BUFF_STACKS);
}

pub open spec fn fresh_buff(m: StatBonus, duration: u8) -> ActiveBuff {
    ActiveBuff { stat_modifiers: m, remaining_turns: duration }
}

/// `b` added unless `max_stacks` are already in effect.
pub open spec fn stacked(s: Seq<ActiveBuff>, b: ActiveBuff, max_stacks: usize) -> Seq<ActiveBuff> {
    if s.len() < max_stacks {
        s.push(b)
    } else {
        s
    }
}

pub open spec fn same_except_buffs(a: UnitStatusState, b: UnitStatusState) -> bool {
    &&& b.statuses == a.statuses
    &&& b.debuffs == a.debuffs
    &&& b.barriers == a.barriers
    &&& b.hots == a.hots
    &&& b.immunity == a.immunity
}

pub open spec fn same_except_debuffs(a: UnitStatusState, b: UnitStatusState) -> bool {
    &&& b.statuses == a.statuses
    &&& b.buffs == a.buffs
    &&& b.barriers == a.barriers
    &&& b.hots == a.hots
    &&& b.immunity == a.immunity
}

/// Add a buff unless `max_stacks` are already in effect.
pub fn apply_buff_stacked(state: &mut UnitStatusState, buff_effect: &BuffEffect, max_stacks: usize)
    ensures
        final(state).buffs@ == stacked(old(state).buffs@, fresh_buff(buff_effect.stat_modifiers, buff_effect.duration), max_stacks),
        same_except_buffs(*old(state), *final(state)),
{
    if state.buffs.len() < max_stacks {
        state.buffs.push(
            ActiveBuff { stat_modifiers: buff_effect.stat_modifiers, remaining_turns: buff_effect.duration },
        );
    }
}

/// Add a debuff unless `max_stacks` are already in effect.
pub fn apply_debuff_stacked(state: &mut UnitStatusState, debuff_effect: &DebuffEffect, max_stacks: usize)
    ensures
        final(state).debuffs@ == stacked(old(state).debuffs@, fresh_buff(debuff_effect.stat_modifiers, debuff_effect.duration), max_stacks),
        same_except_debuffs(*old(state), *final(state)),
{
    if state.debuffs.len() < max_stacks {
        state.debuffs.push(
            ActiveBuff {
                stat_modifiers: debuff_effect.stat_modifiers,
                remaining_turns: debuff_effect.duration,
            },
        );
    }
}

pub open spec fn buff_after_tick(b: ActiveBuff) -> ActiveBuff {
    ActiveBuff {
        stat_modifiers: b.stat_modifiers,
        remaining_turns: if b.remaining_turns > 0 { (b.remaining_turns - 1) as u8 } else { 0 },
    }
}

pub open spec fn tick_buff_fn() -> spec_fn(ActiveBuff) -> ActiveBuff {
    |b: ActiveBuff| buff_after_tick(b)
}

pub open spec fn buff_active() -> spec_fn(ActiveBuff) -> bool {
    |b: ActiveBuff| b.remaining_turns > 0
}

/// Take a turn off every buff and drop those that have run out.
pub fn tick_buffs(buffs: &mut Vec<ActiveBuff>)
    ensures
        final(buffs)@ == old(buffs)@.map_values(tick_buff_fn()).filter(buff_active()),
{
    let ghost before = buffs@;
    let ghost ticked = before.map_values(tick_buff_fn());
    let mut kept: Vec<ActiveBuff> = Vec::new();
    let mut i: usize = 0;
    while i < buffs.len()
        invariant
            buffs@ == before,
            ticked == before.map_values(tick_buff_fn()),
            i <= before.len(),
            kept@ == ticked.take(i as int).filter(buff_active()),
        decreases before.len() - i,
    {
        let b = buffs[i];
        proof {
            assert(ticked.take(i + 1) =~= ticked.take(i as int).push(ticked[i as int]));
            ticked.take(i as int).lemma_filter_push(ticked[i as int], buff_active());
        }
        let left: u8 = if b.remaining_turns > 0 { b.remaining_turns - 1 } else { 0 };
        if left > 0 {
            kept.push(ActiveBuff { stat_modifiers: b.stat_modifiers, remaining_turns: left });
        }
        i += 1;
    }
    proof {
        assert(ticked.take(before.len() as int) =~= ticked);
    }
    *buffs = kept;
}

/// Running totals after adding each bonus in turn, each statistic clamped to
/// `[-999, 999]` at every step.
pub open spec fn sum_bonuses(t: BonusTotals, s: Seq<ActiveBuff>) -> BonusTotals
    decreases s.len(),
{
    if s.len() == 0 {
        t
    } else {
        add_clamped(sum_bonuses(t, s.drop_last()), s.last().stat_modifiers)
    }
}

fn add_all(total: StatBonus, items: &[ActiveBuff]) -> (r: StatBonus)
    ensures
        totals_of(r) == sum_bonuses(totals_of(total), items@),
{
    let mut acc = total;
    let mut i: usize = 0;
    while i < items.len()
        invariant
            i <= items@.len(),
            totals_of(acc) == sum_bonuses(totals_of(total), items@.take(i as int)),
        decreases items@.len() - i,
    {
        proof {
            assert(items@.take(i + 1).drop_last() =~= items@.take(i as int));
        }
        acc = acc.add_clamped(&items[i].stat_modifiers);
        i += 1;
    }
    proof {
        assert(items@.take(items@.len() as int) =~= items@);
    }
    acc
}

/// All buff and then all debuff modifiers added up.
pub fn compute_stat_modifiers(buffs: &[ActiveBuff], debuffs: &[ActiveBuff]) -> (r: StatBonus)
    ensures
        totals_of(r) == sum_bonuses(sum_bonuses(zero_totals(), buffs@), debuffs@),
{
    let zero = StatBonus::default();
    let with_buffs = add_all(zero, buffs);
    add_all(with_buffs, debuffs)
}

// ── Barriers ────────────────────────────────────────────────────────

pub fn apply_barrier(state: &mut UnitStatusState, charges: u8, duration: u8)
    ensures
        final(state).barriers@ == old(state).barriers@.push(
            ActiveBarrier { charges, remaining_turns: duration },
        ),
        final(state).statuses == old(state).statuses,
        final(state).buffs == old(state).buffs,
        final(state).debuffs == old(state).debuffs,
        final(state).hots == old(state).hots,
        final(state).immunity == old(state).immunity,
{
    state.barriers.push(ActiveBarrier { charges, remaining_turns: duration });
}

/// Spend one charge of the oldest barrier that has one; reports whether a
/// charge was spent.
pub fn consume_barrier(barriers: &mut Vec<ActiveBarrier>) -> (r: bool)
    ensures
        r == exists|i: int| 0 <= i < old(barriers)@.len() && (#[trigger] old(barriers)@[i]).charges > 0,
        !r ==> final(barriers)@ == old(barriers)@,
        r ==> exists|k: int|
            0 <= k < old(barriers)@.len() && (#[trigger] old(barriers)@[k]).charges > 0 && (forall|j: int|
                0 <= j < k ==> (#[trigger] old(barriers)@[j]).charges == 0) && final(barriers)@ == old(
                barriers,
            )@.update(
                k,
                ActiveBarrier {
                    charges: (old(barriers)@[k].charges - 1) as u8,
                    remaining_turns: old(barriers)@[k].remaining_turns,
                },
            ),
{
    let mut i: usize = 0;
    while i < barriers.len()
        invariant
            barriers@ == old(barriers)@,
            i <= barriers@.len(),
            forall|j: int| 0 <= j < i ==> (#[trigger] barriers@[j]).charges == 0,
        decreases barriers@.len() - i,
    {
        let b = barriers[i];
        if b.charges > 0 {
            barriers.set(i, ActiveBarrier { charges: b.charges - 1, remaining_turns: b.remaining_turns });
            return true;
        }
        i += 1;
    }
    false
}

pub open spec fn barrier_after_tick(b: ActiveBarrier) -> ActiveBarrier {
    ActiveBarrier {
        charges: b.charges,
        remaining_turns: if b.remaining_turns > 0 { (b.remaining_turns - 1) as u8 } else { 0 },
    }
}

pub open spec fn tick_barrier_fn() -> spec_fn(ActiveBarrier) -> ActiveBarrier {
    |b: ActiveBarrier| barrier_after_tick(b)
}

pub open spec fn barrier_active() -> spec_fn(ActiveBarrier) -> bool {
    |b: ActiveBarrier| b.remaining_turns > 0 && b.charges > 0
}

/// Take a turn off every barrier and drop those out of turns or charges.
pub fn tick_barriers(barriers: &mut Vec<ActiveBarrier>)
    ensures
        final(barriers)@ == old(barriers)@.map_values(tick_barrier_fn()).filter(barrier_active()),
{
    let ghost before = barriers@;
    let ghost ticked = before.map_values(tick_barrier_fn());
    let mut kept: Vec<ActiveBarrier> = Vec::new();
    let mut i: usize = 0;
    while i < barriers.len()
        invariant
            barriers@ == before,
            ticked == before.map_values(tick_barrier_fn()),
            i <= before.len(),
            kept@ == ticked.take(i as int).filter(barrier_active()),
        decreases before.len() - i,
    {
        let b = barriers[i];
        proof {
            assert(ticked.take(i + 1) =~= ticked.take(i as int).push(ticked[i as int]));
            ticked.take(i as int).lemma_filter_push(ticked[i as int], barrier_active());
        }
        let left: u8 = if b.remaining_turns > 0 { b.remaining_turns - 1 } else { 0 };
        if left > 0 && b.charges > 0 {
            kept.push(ActiveBarrier { charges: b.charges, remaining_turns: left });
        }
        i += 1;
    }
    proof {
        assert(ticked.take(before.len() as int) =~= ticked);
    }
    *barriers = kept;
}

// ── Healing over time ───────────────────────────────────────────────

pub fn apply_hot(state: &mut UnitStatusState, amount: u16, duration: u8)
    ensures
        final(state).hots@ == old(state).hots@.push(ActiveHoT { amount, remaining_turns: duration }),
        final(state).statuses == old(state).statuses,
        final(state).buffs == old(state).buffs,
        final(state).debuffs == old(state).debuffs,
        final(state).barriers == old(state).barriers,
        final(state).immunity == old(state).immunity,
{
    state.hots.push(ActiveHoT { amount, remaining_turns: duration });
}

/// Healing of the effects with turns left, added up and capped at `u16::MAX`
/// at every step.
pub open spec fn hot_total(s: Seq<ActiveHoT>) -> int
    decreases s.len(),
{
    if s.len() == 0 {
        0
    } else {
        let sum = hot_total(s.drop_last()) + if s.last().remaining_turns > 0 {
            s.last().amount as int
        } else {
            0
        };
        if sum > 65535 {
            65535
        } else {
            sum
        }
    }
}

pub open spec fn hot_after_tick(h: ActiveHoT) -> ActiveHoT {
    ActiveHoT {
        amount: h.amount,
        remaining_turns: if h.remaining_turns > 0 { (h.remaining_turns - 1) as u8 } else { 0 },
    }
}

pub open spec fn tick_hot_fn() -> spec_fn(ActiveHoT) -> ActiveHoT {
    |h: ActiveHoT| hot_after_tick(h)
}

pub open spec fn hot_active() -> spec_fn(ActiveHoT) -> bool {
    |h: ActiveHoT| h.remaining_turns > 0
}

/// Heal from every effect with turns left, take a turn off each and drop those
/// that have run out; returns the healing.
pub fn tick_hots(hots: &mut Vec<ActiveHoT>) -> (r: u16)
    ensures
        r == hot_total(old(hots)@),
        final(hots)@ == old(hots)@.map_values(tick_hot_fn()).filter(hot_active()),
{
    let ghost before = hots@;
    let ghost ticked = before.map_values(tick_hot_fn());
    let mut total: u16 = 0;
    let mut kept: Vec<ActiveHoT> = Vec::new();
    let mut i: usize = 0;
    while i < hots.len()
        invariant
            hots@ == before,
            ticked == before.map_values(tick_hot_fn()),
            i <= before.len(),
            total == hot_total(before.take(i as int)),
            kept@ == ticked.take(i as int).filter(hot_active()),
        decreases before.len() - i,
    {
        let h = hots[i];
        proof {
            assert(before.take(i + 1).drop_last() =~= before.take(i as int));
            assert(ticked.take(i + 1) =~= ticked.take(i as int).push(ticked[i as int]));
            ticked.take(i as int).lemma_filter_push(ticked[i as int], hot_active());
        }
        if h.remaining_turns > 0 {
            total = total.saturating_add(h.amount);
            let left = h.remaining_turns - 1;
            if left > 0 {
                kept.push(ActiveHoT { amount: h.amount, remaining_turns: left });
            }
        }
        i += 1;
    }
    proof {
        assert(before.take(before.len() as int) =~= before);
        assert(ticked.take(before.len() as int) =~= ticked);
    }
    *hots = kept;
    total
}

// ── Cleansing ───────────────────────────────────────────────────────

/// Whether a cleanse of this kind removes a status of kind `t`.
pub open spec fn cleanses(c: CleanseType, t: StatusEffectType) -> bool {
    match c {
        CleanseType::All => true,
        CleanseType::Negative => true,
        CleanseType::ByType(types) => types@.contains(t),
    }
}

pub open spec fn removed_by(c: CleanseType) -> spec_fn(ActiveStatus) -> bool {
    |s: ActiveStatus| cleanses(c, s.effect_type)
}

pub open spec fn kept_by(c: CleanseType) -> spec_fn(ActiveStatus) -> bool {
    |s: ActiveStatus| !cleanses(c, s.effect_type)
}

/// Remove the statuses a cleanse covers (every status is harmful, so a
/// cleanse of negatives removes them all); returns their kinds in order.
pub fn cleanse(statuses: &mut Vec<ActiveStatus>, cleanse_type: &CleanseType) -> (r: Vec<
    StatusEffectType,
>)
    ensures
        final(statuses)@ == old(statuses)@.filter(kept_by(*cleanse_type)),
        r@ == old(statuses)@.filter(removed_by(*cleanse_type)).map_values(status_kind()),
{
    let ghost before = statuses@;
    let ghost c = *cleanse_type;
    let mut kept: Vec<ActiveStatus> = Vec::new();
    let mut removed: Vec<StatusEffectType> = Vec::new();
    let mut i: usize = 0;
    while i < statuses.len()
        invariant
            statuses@ == before,
            c == *cleanse_type,
            i <= before.len(),
            kept@ == before.take(i as int).filter(kept_by(c)),
            removed@ == before.take(i as int).filter(removed_by(c)).map_values(status_kind()),
        decreases before.len() - i,
    {
        let s = statuses[i];
        proof {
            assert(before.take(i + 1) =~= before.take(i as int).push(s));
            before.take(i as int).lemma_filter_push(s, kept_by(c));
            before.take(i as int).lemma_filter_push(s, removed_by(c));
        }
        let goes = match cleanse_type {
            CleanseType::All => true,
            CleanseType::Negative => true,
            CleanseType::ByType(types) => contains_type(types, s.effect_type),
        };
        if goes {
            proof {
                let f = before.take(i as int).filter(removed_by(c));
                assert(f.push(s).map_values(status_kind()) =~= f.map_values(status_kind()).push(
                    s.effect_type,
                ));
            }
            removed.push(s.effect_type);
        } else {
            kept.push(s);
        }
        i += 1;
    }
    proof {
        assert(before.take(before.len() as int) =~= before);
    }
    *statuses = kept;
    removed
}

// ── What a unit may do ──────────────────────────────────────────────

pub open spec fn has_any_of(statuses: Seq<ActiveStatus>, a: StatusEffectType, b: StatusEffectType, c: StatusEffectType) -> bool {
    exists|i: int|
        0 <= i < statuses.len() && {
            let t = (#[trigger] statuses[i]).effect_type;
            t == a || t == b || t == c
        }
}

fn any_of(statuses: &[ActiveStatus], a: StatusEffectType, b: StatusEffectType, c: StatusEffectType) -> (r: bool)
    ensures
        r == has_any_of(statuses@, a, b, c),
{
    let mut i: usize = 0;
    while i < statuses.len()
        invariant
            i <= statuses@.len(),
            forall|j: int|
                0 <= j < i ==> {
                    let t = (#[trigger] statuses@[j]).effect_type;
                    !(t == a || t == b || t == c)
                },
        decreases statuses@.len() - i,
    {
        let t = statuses[i].effect_type;
        if t == a || t == b || t == c {
            return true;
        }
        i += 1;
    }
    false
}

/// A stunned or frozen unit cannot act at all.
pub fn can_act(statuses: &[ActiveStatus]) -> (r: bool)
    ensures
        r == !has_any_of(statuses@, StatusEffectType::Stun, StatusEffectType::Freeze, StatusEffectType::Freeze),
{
    !any_of(statuses, StatusEffectType::Stun, StatusEffectType::Freeze, StatusEffectType::Freeze)
}

/// Stun, freeze and incapacitation prevent auto-attacks.
pub fn can_auto_attack(statuses: &[ActiveStatus]) -> (r: bool)
    ensures
        r == !has_any_of(statuses@, StatusEffectType::Stun, StatusEffectType::Freeze, StatusEffectType::Incapacitate),
{
    !any_of(statuses, StatusEffectType::Stun, StatusEffectType::Freeze, StatusEffectType::Incapacitate)
}

/// Stun, freeze and null prevent abilities.
pub fn can_use_ability(statuses: &[ActiveStatus]) -> (r: bool)
    ensures
        r == !has_any_of(statuses@, StatusEffectType::Stun, StatusEffectType::Freeze, StatusEffectType::Null),
{
    !any_of(statuses, StatusEffectType::Stun, StatusEffectType::Freeze, StatusEffectType::Null)
}

// ── Immunity in effect ──────────────────────────────────────────────

fn copy_types(types: &Vec<StatusEffectType>) -> (r: Vec<StatusEffectType>)
    ensures
        r@ == types@,
{
    let mut out: Vec<StatusEffectType> = Vec::new();
    let mut i: usize = 0;
    while i < types.len()
        invariant
            i <= types@.len(),
            out@ == types@.take(i as int),
        decreases types@.len() - i,
    {
        out.push(types[i]);
        assert(types@.take(i + 1) =~= types@.take(i as int).push(types@[i as int]));
        i += 1;
    }
    assert(types@.take(types@.len() as int) =~= types@);
    out
}

/// Set the unit's immunity, replacing any it had.
pub fn apply_immunity(state: &mut UnitStatusState, immunity: &Immunity)
    ensures
        final(state).immunity matches Some(imm) && imm.all == immunity.all && imm.types@
            == immunity.types@ && imm.remaining_turns == immunity.duration,
        final(state).statuses == old(state).statuses,
        final(state).buffs == old(state).buffs,
        final(state).debuffs == old(state).debuffs,
        final(state).barriers == old(state).barriers,
        final(state).hots == old(state).hots,
{
    state.immunity = Some(
        ActiveImmunity {
            all: immunity.all,
            types: copy_types(&immunity.types),
            remaining_turns: immunity.duration,
        },
    );
}

/// Take a turn off the immunity; one with no turns left is gone.
pub fn tick_immunity(immunity: &mut Option<ActiveImmunity>)
    ensures
        match *old(immunity) {
            Some(imm) => if imm.remaining_turns <= 1 {
                *final(immunity) is None
            } else {
                *final(immunity) matches Some(n) && n.all == imm.all && n.types == imm.types
                    && n.remaining_turns == imm.remaining_turns - 1
            },
            None => *final(immunity) is None,
        },
{
    match immunity {
        Some(imm) => {
            if imm.remaining_turns > 0 {
                imm.remaining_turns = imm.remaining_turns - 1;
            }
            if imm.remaining_turns == 0 {
                *immunity = None;
            }
        },
        None => {},
    }
}

/// The charges left on a unit's barriers.
pub open spec fn total_charges(bs: Seq<ActiveBarrier>) -> nat
    decreases bs.len(),
{
    if bs.len() == 0 {
        0
    } else {
        total_charges(bs.drop_last()) + bs.last().charges as nat
    }
}

proof fn lemma_total_charges_update(bs: Seq<ActiveBarrier>, k: int, b: ActiveBarrier)
    requires
        0 <= k < bs.len(),
    ensures
        total_charges(bs.update(k, b)) == total_charges(bs) - bs[k].charges + b.charges,
    decreases bs.len(),
{
    if k < bs.len() - 1 {
        assert(bs.update(k, b).drop_last() =~= bs.drop_last().update(k, b));
        lemma_total_charges_update(bs.drop_last(), k, b);
    } else {
        assert(bs.update(k, b).drop_last() =~= bs.drop_last());
    }
}

/// Barriers block as many hits as they hold charges: a hit is blocked exactly
/// while some charge is left, and each hit blocked uses up one charge.
pub proof fn lemma_barrier_blocks_one_hit_per_charge(bs: Seq<ActiveBarrier>, k: int)
    ensures
        (exists|i: int| 0 <= i < bs.len() && (#[trigger] bs[i]).charges > 0) <==> total_charges(bs) > 0,
        0 <= k < bs.len() && bs[k].charges > 0 ==> total_charges(
            bs.update(k, ActiveBarrier { charges: (bs[k].charges - 1) as u8, remaining_turns: bs[k].remaining_turns }),
        ) == total_charges(bs) - 1,
    decreases bs.len(),
{
    if 0 <= k < bs.len() && bs[k].charges > 0 {
        lemma_total_charges_update(
            bs,
            k,
            ActiveBarrier { charges: (bs[k].charges - 1) as u8, remaining_turns: bs[k].remaining_turns },
        );
    }
    if bs.len() > 0 {
        lemma_barrier_blocks_one_hit_per_charge(bs.drop_last(), k);
        if exists|i: int| 0 <= i < bs.len() && (#[trigger] bs[i]).charges > 0 {
            let i = choose|i: int| 0 <= i < bs.len() && (#[trigger] bs[i]).charges > 0;
            if i < bs.len() - 1 {
                assert(bs.drop_last()[i].charges > 0);
            }
        }
        if total_charges(bs) > 0 && bs.last().charges == 0 {
            let i = choose|i: int| 0 <= i < bs.drop_last().len() && (#[trigger] bs.drop_last()[i]).charges > 0;
            assert(bs[i].charges > 0);
        }
        if bs.last().charges > 0 {
            assert(bs[bs.len() - 1].charges > 0);
        }
    }
}

/// The modifiers of one buff alone, with no debuff, are exactly that buff's
/// modifiers, every statistic included; so are those of one debuff alone.
pub proof fn lemma_one_modifier(b: ActiveBuff)
    requires
        bonus_in_range(b.stat_modifiers),
    ensures
        sum_bonuses(sum_bonuses(zero_totals(), seq![b]), Seq::<ActiveBuff>::empty()) == totals_of(b.stat_modifiers),
        sum_bonuses(sum_bonuses(zero_totals(), Seq::<ActiveBuff>::empty()), seq![b]) == totals_of(b.stat_modifiers),
{
    let e = Seq::<ActiveBuff>::empty();
    assert(seq![b].drop_last() =~= e);
    assert(seq![b].last() == b);
    assert(sum_bonuses(zero_totals(), e) == zero_totals());
    assert(sum_bonuses(zero_totals(), seq![b]) == add_clamped(zero_totals(), b.stat_modifiers));
    let t = sum_bonuses(zero_totals(), seq![b]);
    assert(sum_bonuses(t, e) == t);
}

/// A buff and a debuff add up, statistic by statistic, every statistic
/// included, where each sum stays within `[-999, 999]`; so do two buffs, and
/// the order of the two does not matter.
pub proof fn lemma_two_modifiers(b: ActiveBuff, d: ActiveBuff)
    requires
        bonus_in_range(b.stat_modifiers),
        bonus_in_range(d.stat_modifiers),
        sum_in_range(b.stat_modifiers, d.stat_modifiers),
    ensures
        ({
            let total = BonusTotals {
                atk: b.stat_modifiers.atk@ + d.stat_modifiers.atk@,
                def: b.stat_modifiers.def@ + d.stat_modifiers.def@,
                mag: b.stat_modifiers.mag@ + d.stat_modifiers.mag@,
                spd: b.stat_modifiers.spd@ + d.stat_modifiers.spd@,
                hp: b.stat_modifiers.hp@ + d.stat_modifiers.hp@,
            };
            &&& sum_bonuses(sum_bonuses(zero_totals(), seq![b]), seq![d]) == total
            &&& sum_bonuses(sum_bonuses(zero_totals(), seq![d]), seq![b]) == total
            &&& sum_bonuses(sum_bonuses(zero_totals(), seq![b, d]), Seq::<ActiveBuff>::empty()) == total
        }),
{
    lemma_one_modifier(b);
    lemma_one_modifier(d);
    assert(seq![b].drop_last() =~= Seq::<ActiveBuff>::empty());
    assert(seq![d].drop_last() =~= Seq::<ActiveBuff>::empty());
    assert(seq![b, d].drop_last() =~= seq![b]);
    assert(seq![b].last() == b);
    assert(seq![d].last() == d);
    assert(seq![b, d].last() == d);
    let e = Seq::<ActiveBuff>::empty();
    let tb = sum_bonuses(zero_totals(), seq![b]);
    let td = sum_bonuses(zero_totals(), seq![d]);
    assert(sum_bonuses(tb, seq![d]) == add_clamped(sum_bonuses(tb, e), d.stat_modifiers));
    assert(sum_bonuses(td, seq![b]) == add_clamped(sum_bonuses(td, e), b.stat_modifiers));
    let tbd = sum_bonuses(zero_totals(), seq![b, d]);
    assert(tbd == add_clamped(sum_bonuses(zero_totals(), seq![b]), d.stat_modifiers));
    assert(sum_bonuses(tbd, e) == tbd);
}

/// One of the five statistics.
pub enum StatKind {
    Atk,
    Def,
    Mag,
    Spd,
    Hp,
}

/// The modifier of `b` to statistic `k`.
pub open spec fn modifier_of(b: StatBonus, k: StatKind) -> int {
    match k {
        StatKind::Atk => b.atk@ as int,
        StatKind::Def => b.def@ as int,
        StatKind::Mag => b.mag@ as int,
        StatKind::Spd => b.spd@ as int,
        StatKind::Hp => b.hp@ as int,
    }
}

/// The total of statistic `k` in `t`.
pub open spec fn total_of(t: BonusTotals, k: StatKind) -> int {
    match k {
        StatKind::Atk => t.atk,
        StatKind::Def => t.def,
        StatKind::Mag => t.mag,
        StatKind::Spd => t.spd,
        StatKind::Hp => t.hp,
    }
}

/// The plain sum of the modifiers to statistic `k` over `s`, nothing clamped.
pub open spec fn plain_total(s: Seq<ActiveBuff>, k: StatKind) -> int
    decreases s.len(),
{
    if s.len() == 0 {
        0
    } else {
        plain_total(s.drop_last(), k) + modifier_of(s.last().stat_modifiers, k)
    }
}

/// No running total of any statistic over `s` leaves `[-999, 999]`.
pub open spec fn never_clamped(s: Seq<ActiveBuff>) -> bool {
    forall|k: StatKind, n: int| 0 <= n <= s.len() ==> -999 <= #[trigger] plain_total(s.take(n), k) <= 999
}

proof fn lemma_sum_concat(t: BonusTotals, a: Seq<ActiveBuff>, b: Seq<ActiveBuff>)
    ensures
        sum_bonuses(sum_bonuses(t, a), b) == sum_bonuses(t, a + b),
    decreases b.len(),
{
    if b.len() == 0 {
        assert(a + b =~= a);
    } else {
        lemma_sum_concat(t, a, b.drop_last());
        assert((a + b).drop_last() =~= a + b.drop_last());
        assert((a + b).last() == b.last());
    }
}

proof fn lemma_sum_unclamped(s: Seq<ActiveBuff>)
    requires
        never_clamped(s),
    ensures
        forall|k: StatKind| #[trigger] total_of(sum_bonuses(zero_totals(), s), k) == plain_total(s, k),
    decreases s.len(),
{
    if s.len() > 0 {
        let p = s.drop_last();
        assert forall|k: StatKind, n: int| 0 <= n <= p.len() implies -999 <= #[trigger] plain_total(p.take(n), k) <= 999 by {
            assert(p.take(n) =~= s.take(n));
        }
        lemma_sum_unclamped(p);
        assert(s.take(s.len() as int) =~= s);
        assert forall|k: StatKind| #[trigger] total_of(sum_bonuses(zero_totals(), s), k) == plain_total(s, k) by {
            assert(-999 <= plain_total(s.take(s.len() as int), k) <= 999);
            assert(total_of(sum_bonuses(zero_totals(), p), k) == plain_total(p, k));
        }
    }
}

/// Modifier law: where no running total leaves `[-999, 999]`, the modifiers
/// of a unit are, for every statistic, SPD and HP included, the plain sum of
/// that statistic's modifiers over all its buffs and all its debuffs.
pub proof fn lemma_modifiers_sum(buffs: Seq<ActiveBuff>, debuffs: Seq<ActiveBuff>)
    requires
        never_clamped(buffs + debuffs),
    ensures
        forall|k: StatKind|
            #[trigger] total_of(sum_bonuses(sum_bonuses(zero_totals(), buffs), debuffs), k) == plain_total(buffs + debuffs, k),
{
    lemma_sum_concat(zero_totals(), buffs, debuffs);
    lemma_sum_unclamped(buffs + debuffs);
}

} // verus!

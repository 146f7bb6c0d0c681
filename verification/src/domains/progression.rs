//! Progression: experience, levelling, stat growth and ability unlocking.
use vstd::prelude::*;

use crate::shared::bounded_types::{BaseStat, Hp, Level};
use crate::shared::{AbilityId, AbilityProgression, GrowthRates, Stats, UnitDef, UnitId};

verus! {

/// The level cap.
pub const MAX_LEVEL: u8 = 20;

#[derive(Debug, Clone)]
pub struct UnitProgress {
    pub unit_id: UnitId,
    pub level: u8,
    pub current_xp: u32,
}

#[derive(Debug, Clone)]
pub struct LevelUpResult {
    pub levels_gained: Vec<u8>,
    pub new_stats: Stats,
    pub new_abilities: Vec<AbilityId>,
}

pub open spec fn spec_xp_for_level(level: u8) -> int {
    level * level * 100
}

/// Total XP needed to reach `level`: `level² × 100`.
pub fn xp_for_level(level: u8) -> (xp: u32)
    ensures
        xp == spec_xp_for_level(level),
{
    let l = level as u32;
    assert(l * l <= 255 * 255) by (nonlinear_arith)
        requires
            l <= 255,
    ;
    l * l * 100
}

/// XP still missing for the next level; 0 at the level cap.
pub fn xp_to_next_level(progress: &UnitProgress) -> (xp: u32)
    ensures
        progress.level >= MAX_LEVEL ==> xp == 0,
        progress.level < MAX_LEVEL ==> xp == (if spec_xp_for_level((progress.level + 1) as u8)
            > progress.current_xp {
            spec_xp_for_level((progress.level + 1) as u8) - progress.current_xp
        } else {
            0
        }),
{
    if progress.level >= MAX_LEVEL {
        return 0;
    }
    let needed = xp_for_level(progress.level + 1);
    needed.saturating_sub(progress.current_xp)
}

/// Level reached from `level` with `xp` in total: levels are gained one at a
/// time while the next level's threshold is met, up to the cap.
pub open spec fn level_after(level: u8, xp: u32) -> u8
    decreases MAX_LEVEL - level,
{
    if level >= MAX_LEVEL || xp < spec_xp_for_level((level + 1) as u8) {
        level
    } else {
        level_after((level + 1) as u8, xp)
    }
}

/// The levels `from + 1 ..= to`, in order.
pub open spec fn level_range(from: u8, to: u8) -> Seq<u8> {
    Seq::new((if to > from { to - from } else { 0 }) as nat, |i: int| (from + 1 + i) as u8)
}

/// XP gains never lower a level below where it was nor raise it past the cap.
pub proof fn lemma_level_after(level: u8, xp: u32)
    requires
        level < MAX_LEVEL,
    ensures
        level <= level_after(level, xp) <= MAX_LEVEL,
    decreases MAX_LEVEL - level,
{
    if !(level >= MAX_LEVEL || xp < spec_xp_for_level((level + 1) as u8)) {
        if level + 1 < MAX_LEVEL {
            lemma_level_after((level + 1) as u8, xp);
        }
    }
}

/// Add XP and level up as often as the new total allows, up to level 20.
/// Returns the levels gained, in order. At or above the cap nothing changes.
pub fn add_xp(progress: &mut UnitProgress, xp: u32) -> (levels: Vec<u8>)
    requires
        old(progress).level < MAX_LEVEL ==> old(progress).current_xp + xp <= u32::MAX,
    ensures
        final(progress).unit_id == old(progress).unit_id,
        old(progress).level >= MAX_LEVEL ==> *final(progress) == *old(progress) && levels@.len() == 0,
        old(progress).level < MAX_LEVEL ==> {
            &&& final(progress).current_xp == old(progress).current_xp + xp
            &&& final(progress).level == level_after(old(progress).level, final(progress).current_xp)
            &&& levels@ == level_range(old(progress).level, final(progress).level)
        },
{
    let mut levels_gained: Vec<u8> = Vec::new();
    if progress.level >= MAX_LEVEL {
        return levels_gained;
    }
    progress.current_xp = progress.current_xp + xp;
    let ghost start = progress.level;
    let total = progress.current_xp;
    while progress.level < MAX_LEVEL
        invariant_except_break
            start < MAX_LEVEL,
            start <= progress.level <= MAX_LEVEL,
            progress.current_xp == total,
            progress.unit_id == old(progress).unit_id,
            level_after(start, total) == level_after(progress.level, total),
            levels_gained@ == level_range(start, progress.level),
        ensures
            progress.current_xp == total,
            progress.unit_id == old(progress).unit_id,
            progress.level == level_after(start, total),
            levels_gained@ == level_range(start, progress.level),
        decreases MAX_LEVEL - progress.level,
    {
        let next_level_xp = xp_for_level(progress.level + 1);
        if progress.current_xp >= next_level_xp {
            progress.level = progress.level + 1;
            levels_gained.push(progress.level);
            assert(levels_gained@ =~= level_range(start, progress.level));
        } else {
            break;
        }
    }
    proof {
        lemma_level_after(start, total);
    }
    levels_gained
}

/// `base + growth × g`, saturating at `u16::MAX`, then capped at 9999.
pub open spec fn grown(base: u16, growth: u16, g: u16) -> u16 {
    let prod: int = if growth * g > 65535 { 65535 } else { growth * g };
    let sum: int = if base + prod > 65535 { 65535 } else { base + prod };
    (if sum > 9999 { 9999 } else { sum }) as u16
}

pub open spec fn growth_steps(level: u8) -> u16 {
    if level > 1 { (level - 1) as u16 } else { 0 }
}

fn grow(base: u16, growth: u16, g: u16) -> (r: u16)
    ensures
        r == grown(base, growth, g),
        r <= 9999,
        base <= 9999 ==> base <= r,
{
    let g64: u64 = growth as u64;
    let n64: u64 = g as u64;
    assert(g64 * n64 <= 65535 * 65535) by (nonlinear_arith)
        requires
            g64 <= 65535,
            n64 <= 65535,
    ;
    let p64: u64 = g64 * n64;
    let prod: u16 = if p64 > 65535 { 65535 } else { p64 as u16 };
    let s = base.saturating_add(prod);
    if s > 9999 {
        9999
    } else {
        s
    }
}

/// Stats at `level`: each stat is `base + growth × (level − 1)`, capped at 9999.
pub fn calculate_stats_at_level(base_stats: &Stats, growth_rates: &GrowthRates, level: u8) -> (s: Stats)
    ensures
        s.hp@ == grown(base_stats.hp@, growth_rates.hp@, growth_steps(level)),
        s.atk@ == grown(base_stats.atk@, growth_rates.atk@, growth_steps(level)),
        s.def@ == grown(base_stats.def@, growth_rates.def@, growth_steps(level)),
        s.mag@ == grown(base_stats.mag@, growth_rates.mag@, growth_steps(level)),
        s.spd@ == grown(base_stats.spd@, growth_rates.spd@, growth_steps(level)),
{
    let growth: u16 = if level > 1 { (level - 1) as u16 } else { 0 };
    let hp = base_stats.hp.get();
    Stats {
        hp: Hp::new_unchecked(grow(hp, growth_rates.hp.get(), growth)),
        atk: BaseStat::new_unchecked(grow(base_stats.atk.get(), growth_rates.atk.get(), growth)),
        def: BaseStat::new_unchecked(grow(base_stats.def.get(), growth_rates.def.get(), growth)),
        mag: BaseStat::new_unchecked(grow(base_stats.mag.get(), growth_rates.mag.get(), growth)),
        spd: BaseStat::new_unchecked(grow(base_stats.spd.get(), growth_rates.spd.get(), growth)),
    }
}

pub open spec fn clamp_level(level: u8) -> int {
    if level < 1 {
        1
    } else if level > 99 {
        99
    } else {
        level as int
    }
}

/// Ids of the first `n` abilities learned at or below level `lvl`, in order.
pub open spec fn unlocked_upto(abilities: Seq<AbilityProgression>, lvl: int, n: nat) -> Seq<AbilityId>
    decreases n,
{
    if n == 0 {
        seq![]
    } else {
        let prev = unlocked_upto(abilities, lvl, (n - 1) as nat);
        if abilities[n - 1].level@ <= lvl {
            prev.push(abilities[n - 1].ability_id)
        } else {
            prev
        }
    }
}

pub open spec fn spec_unlocked(abilities: Seq<AbilityProgression>, level: u8) -> Seq<AbilityId> {
    unlocked_upto(abilities, clamp_level(level), abilities.len())
}

/// Abilities learned at or below `level` (clamped into `[1, 99]`), in list order.
pub fn unlocked_abilities(abilities: &[AbilityProgression], level: u8) -> (r: Vec<AbilityId>)
    ensures
        r@ == spec_unlocked(abilities@, level),
{
    let lvl = Level::new(level).get();
    let mut r: Vec<AbilityId> = Vec::new();
    let mut i: usize = 0;
    while i < abilities.len()
        invariant
            i <= abilities.len(),
            lvl == clamp_level(level),
            r@ == unlocked_upto(abilities@, lvl as int, i as nat),
        decreases abilities.len() - i,
    {
        if abilities[i].level.get() <= lvl {
            r.push(abilities[i].ability_id.clone());
        }
        i = i + 1;
    }
    r
}

pub open spec fn id_in(ids: Seq<AbilityId>, id: AbilityId) -> bool {
    exists|j: int| 0 <= j < ids.len() && ids[j]@ == id@
}

/// The first `n` of `all` that do not occur in `known`.
pub open spec fn fresh_upto(all: Seq<AbilityId>, known: Seq<AbilityId>, n: nat) -> Seq<AbilityId>
    decreases n,
{
    if n == 0 {
        seq![]
    } else {
        let prev = fresh_upto(all, known, (n - 1) as nat);
        if id_in(known, all[n - 1]) {
            prev
        } else {
            prev.push(all[n - 1])
        }
    }
}

fn contains_id(ids: &Vec<AbilityId>, id: &AbilityId) -> (r: bool)
    ensures
        r == id_in(ids@, *id),
{
    let mut j: usize = 0;
    while j < ids.len()
        invariant
            j <= ids.len(),
            forall|k: int| 0 <= k < j ==> ids@[k]@ != id@,
        decreases ids.len() - j,
    {
        if ids[j].same_as(id) {
            return true;
        }
        j = j + 1;
    }
    false
}

/// Battle rewards: add XP, recompute stats at the new level and list the
/// abilities unlocked now that were not unlocked before.
pub fn apply_battle_rewards(progress: &mut UnitProgress, xp: u32, unit_def: &UnitDef) -> (r: LevelUpResult)
    requires
        old(progress).level < MAX_LEVEL ==> old(progress).current_xp + xp <= u32::MAX,
    ensures
        old(progress).level >= MAX_LEVEL ==> *final(progress) == *old(progress) && r.levels_gained@.len() == 0,
        old(progress).level < MAX_LEVEL ==> {
            &&& final(progress).current_xp == old(progress).current_xp + xp
            &&& final(progress).level == level_after(old(progress).level, final(progress).current_xp)
            &&& r.levels_gained@ == level_range(old(progress).level, final(progress).level)
        },
        final(progress).unit_id == old(progress).unit_id,
        r.new_stats.hp@ == grown(unit_def.base_stats.hp@, unit_def.growth_rates.hp@, growth_steps(final(progress).level)),
        r.new_stats.atk@ == grown(unit_def.base_stats.atk@, unit_def.growth_rates.atk@, growth_steps(final(progress).level)),
        r.new_stats.def@ == grown(unit_def.base_stats.def@, unit_def.growth_rates.def@, growth_steps(final(progress).level)),
        r.new_stats.mag@ == grown(unit_def.base_stats.mag@, unit_def.growth_rates.mag@, growth_steps(final(progress).level)),
        r.new_stats.spd@ == grown(unit_def.base_stats.spd@, unit_def.growth_rates.spd@, growth_steps(final(progress).level)),
        ({
            let all = spec_unlocked(unit_def.abilities@, final(progress).level);
            let before = spec_unlocked(unit_def.abilities@, old(progress).level);
            r.new_abilities@ == fresh_upto(all, before, all.len())
        }),
{
    let old_level = progress.level;
    let levels_gained = add_xp(progress, xp);
    let new_stats = calculate_stats_at_level(&unit_def.base_stats, &unit_def.growth_rates, progress.level);
    let old_abilities = unlocked_abilities(&unit_def.abilities, old_level);
    let all_abilities = unlocked_abilities(&unit_def.abilities, progress.level);
    let mut new_abilities: Vec<AbilityId> = Vec::new();
    let mut i: usize = 0;
    while i < all_abilities.len()
        invariant
            i <= all_abilities.len(),
            new_abilities@ == fresh_upto(all_abilities@, old_abilities@, i as nat),
        decreases all_abilities.len() - i,
    {
        if !contains_id(&old_abilities, &all_abilities[i]) {
            new_abilities.push(all_abilities[i].clone());
        }
        i = i + 1;
    }
    LevelUpResult { levels_gained, new_stats, new_abilities }
}

/// Each level needs strictly more total XP than the one below it.
pub proof fn lemma_xp_thresholds_increase(a: u8, b: u8)
    requires
        a < b,
    ensures
        spec_xp_for_level(a) < spec_xp_for_level(b),
{
    assert(a * a < b * b) by (nonlinear_arith)
        requires
            a < b,
            0 <= a,
    ;
}

/// Gaining XP in two steps reaches the level that gaining the total at once
/// does: from `level`, reaching the total `x1` and then the larger total `x2`
/// ends at the level that reaching `x2` directly gives.
pub proof fn lemma_xp_in_steps(level: u8, x1: u32, x2: u32)
    requires
        x1 <= x2,
    ensures
        level_after(level_after(level, x1), x2) == level_after(level, x2),
    decreases MAX_LEVEL - level,
{
    if level >= MAX_LEVEL || x1 < spec_xp_for_level((level + 1) as u8) {
    } else {
        lemma_xp_in_steps((level + 1) as u8, x1, x2);
    }
}

} // verus!

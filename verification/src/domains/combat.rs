//! Combat core: damage, healing, targeting, multi-hit with deterministic
//! critical hits, the team mana pool and the speed-based execution order.
use vstd::prelude::*;

use crate::shared::{
    BattleAction, BattlePhase, CombatConfig, DamageType, Side, Stats, TargetMode, TargetRef,
};

verus! {

// ── Hit result ──────────────────────────────────────────────────────

/// Outcome of one hit of a multi-hit sequence.
#[derive(Debug, Clone, Copy, PartialEq, Eq, Structural)]
pub struct HitResult {
    pub damage: u16,
    pub is_crit: bool,
    pub target_killed: bool,
    pub mana_generated: u8,
    pub crit_counter_after: u8,
}

// ── Battle unit ─────────────────────────────────────────────────────

#[derive(Debug, Clone)]
pub struct BattleUnit {
    pub id: String,
    pub stats: Stats,
    pub current_hp: u16,
    pub is_alive: bool,
    pub crit_counter: u8,
    pub equipment_speed_bonus: i16,
}

// ── Mana pool ───────────────────────────────────────────────────────

/// The team's shared mana.
#[derive(Debug, Clone)]
pub struct ManaPool {
    pub max_mana: u8,
    pub current_mana: u8,
    pub projected_mana: u8,
}

impl ManaPool {
    /// A full pool holding `max_mana`.
    pub fn new(max_mana: u8) -> (p: Self)
        ensures
            p.max_mana == max_mana,
            p.current_mana == max_mana,
            p.projected_mana == max_mana,
    {
        ManaPool { max_mana, current_mana: max_mana, projected_mana: max_mana }
    }

    /// Refill current and projected mana to the maximum (start of a round).
    pub fn reset_mana(&mut self)
        ensures
            final(self).max_mana == old(self).max_mana,
            final(self).current_mana == old(self).max_mana,
            final(self).projected_mana == old(self).max_mana,
    {
        self.current_mana = self.max_mana;
        self.projected_mana = self.max_mana;
    }

    /// Spend `cost` mana when affordable; returns whether it was spent.
    pub fn spend_mana(&mut self, cost: u8) -> (ok: bool)
        ensures
            ok == (old(self).current_mana >= cost),
            ok ==> final(self).current_mana == old(self).current_mana - cost,
            !ok ==> final(self).current_mana == old(self).current_mana,
            final(self).max_mana == old(self).max_mana,
            final(self).projected_mana == old(self).projected_mana,
    {
        if self.current_mana >= cost {
            self.current_mana = self.current_mana - cost;
            true
        } else {
            false
        }
    }

    /// Gain `amount` mana, never rising above the maximum.
    pub fn generate_mana(&mut self, amount: u8)
        ensures
            final(self).current_mana == min_int(
                min_int(old(self).current_mana + amount, 255),
                old(self).max_mana as int,
            ),
            final(self).max_mana == old(self).max_mana,
            final(self).projected_mana == old(self).projected_mana,
    {
        let sum = self.current_mana.saturating_add(amount);
        self.current_mana = if sum < self.max_mana { sum } else { self.max_mana };
    }
}

pub open spec fn min_int(a: int, b: int) -> int {
    if a <= b { a } else { b }
}

// ── Battle state and execution order ────────────────────────────────

#[derive(Debug, Clone)]
pub struct BattleState {
    pub phase: BattlePhase,
    pub round: u32,
    pub player_units: Vec<BattleUnit>,
    pub enemies: Vec<BattleUnit>,
    pub planned_actions: Vec<(TargetRef, BattleAction)>,
    pub mana_pool: ManaPool,
    pub execution_order: Vec<TargetRef>,
}

/// One living actor in the speed ordering: its ref, effective SPD and base SPD.
pub type SpeedEntry = (TargetRef, i32, u16);

/// `a` acts strictly before `b`: higher effective SPD, then higher base SPD.
pub open spec fn acts_before(a: SpeedEntry, b: SpeedEntry) -> bool {
    a.1 > b.1 || (a.1 == b.1 && a.2 > b.2)
}

/// The living units of one side, in index order, as speed entries.
pub open spec fn side_entries(units: Seq<BattleUnit>, side: Side) -> Seq<SpeedEntry>
    decreases units.len(),
{
    if units.len() == 0 {
        seq![]
    } else {
        let prev = side_entries(units.drop_last(), side);
        let u = units.last();
        if u.is_alive {
            prev.push(
                (
                    TargetRef { side, index: (units.len() - 1) as u8 },
                    (u.stats.spd@ + u.equipment_speed_bonus) as i32,
                    u.stats.spd@,
                ),
            )
        } else {
            prev
        }
    }
}

/// All living actors: players in index order, then enemies in index order.
pub open spec fn all_entries(players: Seq<BattleUnit>, enemies: Seq<BattleUnit>) -> Seq<SpeedEntry> {
    side_entries(players, Side::Player) + side_entries(enemies, Side::Enemy)
}

/// Insert `x` into `s` before the first entry that `x` acts before.
pub open spec fn insert_by_speed(s: Seq<SpeedEntry>, x: SpeedEntry) -> Seq<SpeedEntry>
    decreases s.len(),
{
    if s.len() == 0 {
        seq![x]
    } else if acts_before(x, s[0]) {
        seq![x] + s
    } else {
        seq![s[0]] + insert_by_speed(s.drop_first(), x)
    }
}

/// Stable sort by speed, descending: among equal keys the earlier entry stays first.
pub open spec fn sort_by_speed(s: Seq<SpeedEntry>) -> Seq<SpeedEntry>
    decreases s.len(),
{
    if s.len() == 0 {
        seq![]
    } else {
        insert_by_speed(sort_by_speed(s.drop_last()), s.last())
    }
}

/// No entry acts before an entry that precedes it.
pub open spec fn speed_sorted(s: Seq<SpeedEntry>) -> bool {
    forall|i: int, j: int| 0 <= i < j < s.len() ==> !acts_before(#[trigger] s[j], #[trigger] s[i])
}

pub open spec fn spec_execution_order(players: Seq<BattleUnit>, enemies: Seq<BattleUnit>) -> Seq<TargetRef> {
    sort_by_speed(all_entries(players, enemies)).map_values(|e: SpeedEntry| e.0)
}

/// First position of `s` holding an entry that `x` acts before, or `s.len()`.
proof fn lemma_insert_split(s: Seq<SpeedEntry>, x: SpeedEntry, k: int)
    requires
        0 <= k <= s.len(),
        forall|i: int| 0 <= i < k ==> !acts_before(x, #[trigger] s[i]),
        k < s.len() ==> acts_before(x, s[k]),
    ensures
        insert_by_speed(s, x) == s.take(k) + seq![x] + s.skip(k),
    decreases s.len(),
{
    if s.len() == 0 {
        assert(s.take(k) + seq![x] + s.skip(k) =~= seq![x]);
    } else if k == 0 {
        assert(s.take(k) + seq![x] + s.skip(k) =~= seq![x] + s);
    } else {
        let t = s.drop_first();
        assert forall|i: int| 0 <= i < k - 1 implies !acts_before(x, #[trigger] t[i]) by {
            assert(t[i] == s[i + 1]);
        }
        lemma_insert_split(t, x, k - 1);
        assert(s.take(k) + seq![x] + s.skip(k) =~= seq![s[0]] + (t.take(k - 1) + seq![x] + t.skip(k - 1)));
    }
}

proof fn lemma_insert_keeps_sorted(s: Seq<SpeedEntry>, x: SpeedEntry)
    requires
        speed_sorted(s),
    ensures
        speed_sorted(insert_by_speed(s, x)),
        insert_by_speed(s, x).to_multiset() == s.to_multiset().insert(x),
        insert_by_speed(s, x).len() == s.len() + 1,
    decreases s.len(),
{
    broadcast use vstd::seq_lib::group_to_multiset_ensures;

    if s.len() == 0 {
        assert(insert_by_speed(s, x) =~= seq![x]);
        assert(seq![x] =~= Seq::<SpeedEntry>::empty().push(x));
    } else if acts_before(x, s[0]) {
        let r = seq![x] + s;
        assert forall|i: int, j: int| 0 <= i < j < r.len() implies !acts_before(#[trigger] r[j], #[trigger] r[i]) by {
            if i == 0 {
                assert(r[j] == s[j - 1]);
                if j - 1 > 0 {
                    assert(!acts_before(s[j - 1], s[0]));
                }
            } else {
                assert(r[i] == s[i - 1]);
                assert(r[j] == s[j - 1]);
            }
        }
        vstd::seq_lib::lemma_multiset_commutative(seq![x], s);
        assert(seq![x] =~= Seq::<SpeedEntry>::empty().push(x));
    } else {
        let t = s.drop_first();
        assert forall|i: int, j: int| 0 <= i < j < t.len() implies !acts_before(#[trigger] t[j], #[trigger] t[i]) by {
            assert(t[i] == s[i + 1]);
            assert(t[j] == s[j + 1]);
        }
        lemma_insert_keeps_sorted(t, x);
        let it = insert_by_speed(t, x);
        let r = seq![s[0]] + it;
        assert(r == insert_by_speed(s, x));
        assert forall|m: int| 0 <= m < it.len() implies !acts_before(#[trigger] it[m], s[0]) by {
            assert(it.to_multiset().count(it[m]) > 0);
            assert(t.to_multiset().insert(x).count(it[m]) > 0);
            if it[m] != x {
                assert(t.to_multiset().count(it[m]) > 0);
                assert(t.contains(it[m]));
                let q = choose|q: int| 0 <= q < t.len() && t[q] == it[m];
                assert(s[q + 1] == t[q]);
            }
        }
        assert forall|i: int, j: int| 0 <= i < j < r.len() implies !acts_before(#[trigger] r[j], #[trigger] r[i]) by {
            if i == 0 {
                assert(r[j] == it[j - 1]);
            } else {
                assert(r[i] == it[i - 1]);
                assert(r[j] == it[j - 1]);
            }
        }
        vstd::seq_lib::lemma_multiset_commutative(seq![s[0]], it);
        vstd::seq_lib::lemma_multiset_commutative(seq![s[0]], t);
        assert(s =~= seq![s[0]] + t);
        assert(seq![s[0]] =~= Seq::<SpeedEntry>::empty().push(s[0]));
    }
}

/// Speed ordering law: the execution order is sorted by speed and holds
/// every living actor exactly once.
pub proof fn lemma_sort_by_speed(s: Seq<SpeedEntry>)
    ensures
        speed_sorted(sort_by_speed(s)),
        sort_by_speed(s).to_multiset() == s.to_multiset(),
        sort_by_speed(s).len() == s.len(),
    decreases s.len(),
{
    broadcast use vstd::seq_lib::group_to_multiset_ensures;

    if s.len() > 0 {
        lemma_sort_by_speed(s.drop_last());
        lemma_insert_keeps_sorted(sort_by_speed(s.drop_last()), s.last());
        assert(s =~= s.drop_last().push(s.last()));
    }
}

/// Append the speed entries of the living units of `units` to `entries`.
fn push_side_entries(units: &Vec<BattleUnit>, side: Side, entries: &mut Vec<SpeedEntry>)
    ensures
        final(entries)@ == old(entries)@ + side_entries(units@, side),
{
    let mut i: usize = 0;
    while i < units.len()
        invariant
            i <= units.len(),
            entries@ == old(entries)@ + side_entries(units@.take(i as int), side),
        decreases units.len() - i,
    {
        let unit = &units[i];
        assert(units@.take(i + 1).drop_last() =~= units@.take(i as int));
        if unit.is_alive {
            let spd = unit.stats.spd.get();
            let effective: i32 = spd as i32 + unit.equipment_speed_bonus as i32;
            entries.push((TargetRef { side, index: i as u8 }, effective, spd));
        }
        i = i + 1;
        assert(entries@ =~= old(entries)@ + side_entries(units@.take(i as int), side));
    }
    assert(units@.take(i as int) =~= units@);
}

impl BattleState {
    /// Order all living actors by effective SPD (base SPD plus equipment
    /// bonus) descending, then by base SPD descending; ties keep players
    /// before enemies and lower indices first. Dead units are left out.
    pub fn compute_execution_order(&mut self)
        ensures
            final(self).execution_order@ == spec_execution_order(
                old(self).player_units@,
                old(self).enemies@,
            ),
            final(self).player_units == old(self).player_units,
            final(self).enemies == old(self).enemies,
            final(self).phase == old(self).phase,
            final(self).round == old(self).round,
            final(self).planned_actions == old(self).planned_actions,
            final(self).mana_pool == old(self).mana_pool,
    {
        let mut actors: Vec<SpeedEntry> = Vec::new();
        push_side_entries(&self.player_units, Side::Player, &mut actors);
        push_side_entries(&self.enemies, Side::Enemy, &mut actors);
        assert(actors@ =~= all_entries(self.player_units@, self.enemies@));

        let mut sorted: Vec<SpeedEntry> = Vec::new();
        let mut n: usize = 0;
        while n < actors.len()
            invariant
                n <= actors.len(),
                sorted@ == sort_by_speed(actors@.take(n as int)),
            decreases actors.len() - n,
        {
            let x = actors[n];
            proof {
                lemma_sort_by_speed(actors@.take(n as int));
            }
            let mut k: usize = 0;
            while k < sorted.len()
                invariant
                    k <= sorted.len(),
                    forall|i: int| 0 <= i < k ==> !acts_before(x, #[trigger] sorted@[i]),
                ensures
                    k <= sorted.len(),
                    forall|i: int| 0 <= i < k ==> !acts_before(x, #[trigger] sorted@[i]),
                    k < sorted.len() ==> acts_before(x, sorted@[k as int]),
                decreases sorted.len() - k,
            {
                let e = sorted[k];
                if x.1 > e.1 || (x.1 == e.1 && x.2 > e.2) {
                    break;
                }
                k = k + 1;
            }
            proof {
                lemma_insert_split(sorted@, x, k as int);
                assert(actors@.take(n + 1).drop_last() =~= actors@.take(n as int));
                assert(actors@.take(n + 1).last() == x);
            }
            sorted.insert(k, x);
            assert(sorted@ =~= sort_by_speed(actors@.take(n + 1)));
            n = n + 1;
        }
        assert(actors@.take(n as int) =~= actors@);

        let mut order: Vec<TargetRef> = Vec::new();
        let mut m: usize = 0;
        while m < sorted.len()
            invariant
                m <= sorted.len(),
                order@ == sorted@.take(m as int).map_values(|e: SpeedEntry| e.0),
            decreases sorted.len() - m,
        {
            order.push(sorted[m].0);
            m = m + 1;
            assert(order@ =~= sorted@.take(m as int).map_values(|e: SpeedEntry| e.0));
        }
        assert(sorted@.take(m as int) =~= sorted@);
        self.execution_order = order;
    }
}

// ── Damage and healing ──────────────────────────────────────────────

/// Damage of one hit: `base_power + offense - defense * mult_pct / 100`,
/// at least 1 and at most `u16::MAX`, rounded down.
pub open spec fn damage_formula(base_power: int, offense: int, defense: int, mult_pct: int) -> int {
    let scaled = (base_power + offense) * 100 - defense * mult_pct;
    if scaled < 100 {
        1
    } else if scaled / 100 > 65535 {
        65535
    } else {
        scaled / 100
    }
}

pub open spec fn spec_damage(
    base_power: u16,
    damage_type: DamageType,
    attacker_stats: Stats,
    defender_stats: Stats,
    config: CombatConfig,
) -> int {
    match damage_type {
        DamageType::Physical => damage_formula(
            base_power as int,
            attacker_stats.atk@ as int,
            defender_stats.def@ as int,
            config.physical_def_multiplier_pct as int,
        ),
        DamageType::Psynergy => damage_formula(
            base_power as int,
            attacker_stats.mag@ as int,
            defender_stats.def@ as int,
            config.psynergy_def_multiplier_pct as int,
        ),
    }
}

/// Damage of an attack or ability. Physical damage uses ATK against
/// `physical_def_multiplier_pct` of DEF, psynergy uses MAG against
/// `psynergy_def_multiplier_pct` of DEF; the result is never below 1.
pub fn calculate_damage(
    base_power: u16,
    damage_type: DamageType,
    attacker_stats: &Stats,
    defender_stats: &Stats,
    config: &CombatConfig,
) -> (d: u16)
    ensures
        d == spec_damage(base_power, damage_type, *attacker_stats, *defender_stats, *config),
        d >= 1,
{
    let (offense_stat, pct) = match damage_type {
        DamageType::Physical => (attacker_stats.atk.get(), config.physical_def_multiplier_pct),
        DamageType::Psynergy => (attacker_stats.mag.get(), config.psynergy_def_multiplier_pct),
    };
    let def = defender_stats.def.get();
    let offense: u64 = base_power as u64 + offense_stat as u64;
    let off_scaled: u64 = offense * 100;
    let def64: u64 = def as u64;
    let pct64: u64 = pct as u64;
    assert(def64 * pct64 <= 9999 * 65535) by (nonlinear_arith)
        requires
            def64 <= 9999,
            pct64 <= 65535,
    ;
    let def_scaled: u64 = def64 * pct64;
    if off_scaled < def_scaled + 100 {
        1
    } else {
        let q: u64 = (off_scaled - def_scaled) / 100;
        if q > 65535 {
            65535
        } else {
            q as u16
        }
    }
}

/// Healing: `base_power + MAG`, at least 1.
pub fn calculate_healing(base_power: u16, healer_stats: &Stats) -> (h: u16)
    requires
        base_power + healer_stats.mag@ <= u16::MAX,
    ensures
        h == (if base_power + healer_stats.mag@ < 1 { 1 } else { base_power + healer_stats.mag@ }),
{
    let sum = base_power + healer_stats.mag.get();
    if sum < 1 {
        1
    } else {
        sum
    }
}

// ── Targeting ───────────────────────────────────────────────────────

/// The refs `0..count` of one side, in index order.
pub open spec fn side_refs(side: Side, count: u8) -> Seq<TargetRef> {
    Seq::new(count as nat, |i: int| TargetRef { side, index: i as u8 })
}

pub open spec fn spec_resolve_targets(
    mode: TargetMode,
    source: TargetRef,
    chosen_target: Option<TargetRef>,
    party_size: u8,
    enemy_count: u8,
) -> Seq<TargetRef> {
    match mode {
        TargetMode::SingleEnemy | TargetMode::SingleAlly => match chosen_target {
            Some(t) => seq![t],
            None => seq![],
        },
        TargetMode::AllEnemies => {
            let side = source.side.spec_opposite();
            side_refs(side, if side == Side::Enemy { enemy_count } else { party_size })
        },
        TargetMode::AllAllies => side_refs(
            source.side,
            if source.side == Side::Player { party_size } else { enemy_count },
        ),
        TargetMode::SelfOnly => seq![source],
    }
}

/// Build the refs `0..count` of `side`.
fn refs_of_side(side: Side, count: u8) -> (v: Vec<TargetRef>)
    ensures
        v@ == side_refs(side, count),
{
    let mut v: Vec<TargetRef> = Vec::new();
    let mut i: u8 = 0;
    while i < count
        invariant
            i <= count,
            v@ == side_refs(side, i),
        decreases count - i,
    {
        v.push(TargetRef { side, index: i });
        i = i + 1;
        assert(v@ =~= side_refs(side, i));
    }
    v
}

/// Resolve the targets of an action from its targeting mode.
pub fn resolve_targets(
    mode: TargetMode,
    source: TargetRef,
    chosen_target: Option<TargetRef>,
    party_size: u8,
    enemy_count: u8,
) -> (v: Vec<TargetRef>)
    ensures
        v@ == spec_resolve_targets(mode, source, chosen_target, party_size, enemy_count),
{
    match mode {
        TargetMode::SingleEnemy | TargetMode::SingleAlly => match chosen_target {
            Some(t) => vec![t],
            None => Vec::new(),
        },
        TargetMode::AllEnemies => {
            let side = source.side.opposite();
            let count = match side {
                Side::Enemy => enemy_count,
                Side::Player => party_size,
            };
            refs_of_side(side, count)
        },
        TargetMode::AllAllies => {
            let count = match source.side {
                Side::Player => party_size,
                Side::Enemy => enemy_count,
            };
            refs_of_side(source.side, count)
        },
        TargetMode::SelfOnly => vec![source],
    }
}

// ── Multi-hit with deterministic crit ───────────────────────────────

/// Damage of a critical hit: `damage * crit_multiplier_pct / 100`, capped at `u16::MAX`.
pub open spec fn crit_damage(damage: u16, config: CombatConfig) -> int {
    let c = damage * config.crit_multiplier_pct / 100;
    if c > 65535 { 65535 } else { c }
}

/// The hits of a sequence of at most `hits_left` hits of `dmg` each against a
/// target with `hp` remaining, starting from crit counter `counter`.
pub open spec fn multi_hit_seq(
    hits_left: nat,
    dmg: u16,
    hp: u16,
    counter: u8,
    is_auto_attack: bool,
    config: CombatConfig,
) -> Seq<HitResult>
    decreases hits_left,
{
    if hits_left == 0 || hp == 0 {
        seq![]
    } else {
        let c1: int = if is_auto_attack { counter + 1 } else { counter as int };
        let crit = is_auto_attack && c1 >= config.crit_threshold;
        let c2: u8 = if crit { 0 } else { c1 as u8 };
        let d: int = if crit { crit_damage(dmg, config) } else { dmg as int };
        let actual: u16 = if d < hp { d as u16 } else { hp };
        let hp2: u16 = (hp - actual) as u16;
        let hit = HitResult {
            damage: actual,
            is_crit: crit,
            target_killed: hp2 == 0,
            mana_generated: if is_auto_attack { config.mana_gain_per_hit@ } else { 0 },
            crit_counter_after: c2,
        };
        seq![hit] + multi_hit_seq((hits_left - 1) as nat, dmg, hp2, c2, is_auto_attack, config)
    }
}

/// Resolve a sequence of hits against one target. Auto-attacks advance the
/// crit counter and generate mana on every hit; the hit that brings the
/// counter to `crit_threshold` is critical and resets it. Abilities do neither.
/// The sequence stops as soon as the target reaches 0 HP.
pub fn resolve_multi_hit(
    hit_count: u8,
    base_damage_per_hit: u16,
    target_hp: u16,
    crit_counter: u8,
    is_auto_attack: bool,
    config: &CombatConfig,
) -> (results: Vec<HitResult>)
    requires
        is_auto_attack ==> crit_counter < 255,
    ensures
        results@ == multi_hit_seq(
            hit_count as nat,
            base_damage_per_hit,
            target_hp,
            crit_counter,
            is_auto_attack,
            *config,
        ),
{
    let mut results: Vec<HitResult> = Vec::new();
    let mut remaining_hp = target_hp;
    let mut counter = crit_counter;
    let mut hit: u8 = 0;
    let ghost total = multi_hit_seq(
        hit_count as nat,
        base_damage_per_hit,
        target_hp,
        crit_counter,
        is_auto_attack,
        *config,
    );
    while hit < hit_count && remaining_hp > 0
        invariant
            hit <= hit_count,
            is_auto_attack ==> counter < 255,
            total == multi_hit_seq(
                hit_count as nat,
                base_damage_per_hit,
                target_hp,
                crit_counter,
                is_auto_attack,
                *config,
            ),
            results@ + multi_hit_seq(
                (hit_count - hit) as nat,
                base_damage_per_hit,
                remaining_hp,
                counter,
                is_auto_attack,
                *config,
            ) == total,
        decreases hit_count - hit,
    {
        let ghost before = results@;
        let ghost rest = multi_hit_seq(
            (hit_count - hit) as nat,
            base_damage_per_hit,
            remaining_hp,
            counter,
            is_auto_attack,
            *config,
        );
        let mut is_crit = false;
        let mut mana_generated: u8 = 0;
        if is_auto_attack {
            counter = counter + 1;
            mana_generated = config.mana_gain_per_hit.get();
            if counter >= config.crit_threshold {
                is_crit = true;
                counter = 0;
            }
        }
        let damage: u16 = if is_crit {
            let b64: u64 = base_damage_per_hit as u64;
            let p64: u64 = config.crit_multiplier_pct as u64;
            assert(b64 * p64 <= 65535 * 65535) by (nonlinear_arith)
                requires
                    b64 <= 65535,
                    p64 <= 65535,
            ;
            let m: u64 = b64 * p64;
            let c: u64 = m / 100;
            if c > 65535 {
                65535
            } else {
                c as u16
            }
        } else {
            base_damage_per_hit
        };
        let actual_damage = if damage < remaining_hp { damage } else { remaining_hp };
        remaining_hp = remaining_hp - actual_damage;
        let target_killed = remaining_hp == 0;
        results.push(
            HitResult {
                damage: actual_damage,
                is_crit,
                target_killed,
                mana_generated,
                crit_counter_after: counter,
            },
        );
        hit = hit + 1;
        assert(is_auto_attack ==> counter < 255) by {
            if is_auto_attack && !is_crit {
                assert(counter < config.crit_threshold);
            }
        }
        assert(rest == seq![results@.last()] + multi_hit_seq(
            (hit_count - hit) as nat,
            base_damage_per_hit,
            remaining_hp,
            counter,
            is_auto_attack,
            *config,
        ));
        assert(results@ == before.push(results@.last()));
        assert(results@ + multi_hit_seq(
            (hit_count - hit) as nat,
            base_damage_per_hit,
            remaining_hp,
            counter,
            is_auto_attack,
            *config,
        ) =~= before + rest);
    }
    assert(multi_hit_seq(
        (hit_count - hit) as nat,
        base_damage_per_hit,
        remaining_hp,
        counter,
        is_auto_attack,
        *config,
    ) == Seq::<HitResult>::empty());
    assert(results@ =~= total);
    results
}

/// Generating the mana that was just spent gives back what the pool held:
/// from `current` mana out of `max`, spending `cost` and then generating
/// `cost` ends at `current` again.
pub proof fn lemma_generate_undoes_spend(current: u8, max: u8, cost: u8)
    requires
        current <= max,
        cost <= current,
    ensures
        min_int(min_int((current - cost) + cost, 255), max as int) == current,
{
}

/// The unit that `r` names among `players` and `enemies`.
pub open spec fn named_unit(players: Seq<BattleUnit>, enemies: Seq<BattleUnit>, r: TargetRef) -> BattleUnit {
    match r.side {
        Side::Player => players[r.index as int],
        Side::Enemy => enemies[r.index as int],
    }
}

/// `r` names a living unit among `players` and `enemies`.
pub open spec fn names_living(players: Seq<BattleUnit>, enemies: Seq<BattleUnit>, r: TargetRef) -> bool {
    &&& r.index < (match r.side {
        Side::Player => players.len(),
        Side::Enemy => enemies.len(),
    })
    &&& named_unit(players, enemies, r).is_alive
}

proof fn lemma_side_entry(units: Seq<BattleUnit>, side: Side, k: int)
    requires
        units.len() <= 255,
        0 <= k < units.len(),
        units[k].is_alive,
    ensures
        side_entries(units, side).contains(
            (
                TargetRef { side, index: k as u8 },
                (units[k].stats.spd@ + units[k].equipment_speed_bonus) as i32,
                units[k].stats.spd@,
            ),
        ),
    decreases units.len(),
{
    let e = (
        TargetRef { side, index: k as u8 },
        (units[k].stats.spd@ + units[k].equipment_speed_bonus) as i32,
        units[k].stats.spd@,
    );
    if k < units.len() - 1 {
        lemma_side_entry(units.drop_last(), side, k);
        assert(units.drop_last()[k] == units[k]);
        let prev = side_entries(units.drop_last(), side);
        let i = choose|i: int| 0 <= i < prev.len() && prev[i] == e;
        if units.last().is_alive {
            assert(side_entries(units, side)[i] == e);
        } else {
            assert(side_entries(units, side)[i] == e);
        }
    } else {
        let prev = side_entries(units.drop_last(), side);
        assert(side_entries(units, side) == prev.push(e));
        assert(side_entries(units, side)[prev.len() as int] == e);
    }
}

proof fn lemma_entry_of(players: Seq<BattleUnit>, enemies: Seq<BattleUnit>, r: TargetRef)
    requires
        players.len() <= 255,
        enemies.len() <= 255,
        names_living(players, enemies, r),
    ensures
        all_entries(players, enemies).contains(
            (
                r,
                (named_unit(players, enemies, r).stats.spd@ + named_unit(players, enemies, r).equipment_speed_bonus) as i32,
                named_unit(players, enemies, r).stats.spd@,
            ),
        ),
{
    let u = named_unit(players, enemies, r);
    let e = (r, (u.stats.spd@ + u.equipment_speed_bonus) as i32, u.stats.spd@);
    let a = side_entries(players, Side::Player);
    let b = side_entries(enemies, Side::Enemy);
    match r.side {
        Side::Player => {
            lemma_side_entry(players, Side::Player, r.index as int);
            assert(r == TargetRef { side: Side::Player, index: r.index as int as u8 });
            let i = choose|i: int| 0 <= i < a.len() && a[i] == e;
            assert((a + b)[i] == e);
        },
        Side::Enemy => {
            lemma_side_entry(enemies, Side::Enemy, r.index as int);
            assert(r == TargetRef { side: Side::Enemy, index: r.index as int as u8 });
            let i = choose|i: int| 0 <= i < b.len() && b[i] == e;
            assert((a + b)[a.len() + i] == e);
        },
    }
}

/// Turn order law: of two living units, one whose effective speed (base SPD
/// plus equipment speed bonus) is higher acts first; at equal effective
/// speed, one of higher base SPD acts first. Both appear in the order.
pub proof fn lemma_faster_acts_first(players: Seq<BattleUnit>, enemies: Seq<BattleUnit>, ra: TargetRef, rb: TargetRef)
    requires
        players.len() <= 255,
        enemies.len() <= 255,
        names_living(players, enemies, ra),
        names_living(players, enemies, rb),
        ({
            let a = named_unit(players, enemies, ra);
            let b = named_unit(players, enemies, rb);
            ||| a.stats.spd@ + a.equipment_speed_bonus > b.stats.spd@ + b.equipment_speed_bonus
            ||| a.stats.spd@ + a.equipment_speed_bonus == b.stats.spd@ + b.equipment_speed_bonus && a.stats.spd@
                > b.stats.spd@
        }),
    ensures
        exists|i: int, j: int|
            0 <= i < j < spec_execution_order(players, enemies).len() && spec_execution_order(players, enemies)[i] == ra
                && spec_execution_order(players, enemies)[j] == rb,
{
    broadcast use vstd::seq_lib::group_to_multiset_ensures;

    let all = all_entries(players, enemies);
    let sorted = sort_by_speed(all);
    let order = spec_execution_order(players, enemies);
    let a = named_unit(players, enemies, ra);
    let b = named_unit(players, enemies, rb);
    let ea = (ra, (a.stats.spd@ + a.equipment_speed_bonus) as i32, a.stats.spd@);
    let eb = (rb, (b.stats.spd@ + b.equipment_speed_bonus) as i32, b.stats.spd@);
    lemma_entry_of(players, enemies, ra);
    lemma_entry_of(players, enemies, rb);
    lemma_sort_by_speed(all);
    assert(all.to_multiset().count(ea) > 0);
    assert(all.to_multiset().count(eb) > 0);
    assert(sorted.contains(ea));
    assert(sorted.contains(eb));
    let pa = choose|i: int| 0 <= i < sorted.len() && sorted[i] == ea;
    let pb = choose|i: int| 0 <= i < sorted.len() && sorted[i] == eb;
    assert(acts_before(ea, eb));
    if pb < pa {
        assert(!acts_before(sorted[pa], sorted[pb]));
    }
    assert(pa != pb);
    assert(order[pa] == ra);
    assert(order[pb] == rb);
}

proof fn lemma_side_entries_living(units: Seq<BattleUnit>, side: Side)
    requires
        units.len() <= 255,
    ensures
        forall|i: int|
            0 <= i < side_entries(units, side).len() ==> (#[trigger] side_entries(units, side)[i]).0.side == side
                && side_entries(units, side)[i].0.index < units.len() && units[side_entries(units, side)[i].0.index as int].is_alive,
    decreases units.len(),
{
    if units.len() > 0 {
        let p = units.drop_last();
        lemma_side_entries_living(p, side);
        assert forall|i: int| 0 <= i < side_entries(units, side).len() implies (#[trigger] side_entries(units, side)[i]).0.side == side
            && side_entries(units, side)[i].0.index < units.len() && units[side_entries(units, side)[i].0.index as int].is_alive by {
            if i < side_entries(p, side).len() {
                assert(side_entries(units, side)[i] == side_entries(p, side)[i]);
                assert(units[side_entries(p, side)[i].0.index as int] == p[side_entries(p, side)[i].0.index as int]);
            }
        }
    }
}

/// Only living units act: every ref in the execution order names a living
/// unit.
pub proof fn lemma_order_only_living(players: Seq<BattleUnit>, enemies: Seq<BattleUnit>)
    requires
        players.len() <= 255,
        enemies.len() <= 255,
    ensures
        forall|i: int|
            0 <= i < spec_execution_order(players, enemies).len() ==> names_living(
                players,
                enemies,
                #[trigger] spec_execution_order(players, enemies)[i],
            ),
{
    broadcast use vstd::seq_lib::group_to_multiset_ensures;

    let all = all_entries(players, enemies);
    let a = side_entries(players, Side::Player);
    let b = side_entries(enemies, Side::Enemy);
    let sorted = sort_by_speed(all);
    lemma_side_entries_living(players, Side::Player);
    lemma_side_entries_living(enemies, Side::Enemy);
    lemma_sort_by_speed(all);
    assert forall|i: int|
        0 <= i < spec_execution_order(players, enemies).len() implies names_living(
        players,
        enemies,
        #[trigger] spec_execution_order(players, enemies)[i],
    ) by {
        let e = sorted[i];
        assert(sorted.to_multiset().count(e) > 0);
        assert(all.contains(e));
        let k = choose|k: int| 0 <= k < all.len() && all[k] == e;
        if k < a.len() {
            assert(all[k] == a[k]);
        } else {
            assert(all[k] == b[k - a.len()]);
        }
    }
}

} // verus!

//! Damage modifiers: defense penetration, splash damage and chain targets.
//! Percentages are whole percent.
use vstd::prelude::*;

use crate::shared::{DamageType, Side, Stats, TargetRef};

verus! {

/// Defense left after ignoring `ignore_percent` percent of it, rounded down.
pub open spec fn penetrated_def(target_def: u16, ignore_percent: u8) -> int {
    if ignore_percent >= 100 {
        0
    } else {
        target_def * (100 - ignore_percent) / 100
    }
}

/// Effective defense after penetration; ignoring all of it or more leaves 0.
pub fn apply_defense_penetration(target_def: u16, ignore_percent: u8) -> (r: u16)
    ensures
        r == penetrated_def(target_def, ignore_percent),
{
    if ignore_percent >= 100 {
        return 0;
    }
    let keep: u32 = 100 - ignore_percent as u32;
    assert((target_def as u32) * keep <= 65535u32 * 100u32) by (nonlinear_arith)
        requires
            keep <= 100,
    ;
    let scaled: u32 = (target_def as u32) * keep / 100;
    assert(scaled <= target_def) by (nonlinear_arith)
        requires
            keep <= 100,
            scaled == (target_def as u32) * keep / 100,
    ;
    scaled as u16
}

/// Targets that a splash reaches: on the primary target's side, not the
/// primary target's slot.
pub open spec fn splashed(primary: TargetRef) -> spec_fn(TargetRef) -> bool {
    |t: TargetRef| t.side == primary.side && t.index != primary.index
}

pub open spec fn with_pct(pct: u8) -> spec_fn(TargetRef) -> (TargetRef, u8) {
    |t: TargetRef| (t, pct)
}

/// Every other target on the primary target's side, in the given order, each
/// paired with the splash percentage.
pub fn calculate_splash_targets(
    primary_target: TargetRef,
    splash_pct: u8,
    all_enemies: &[TargetRef],
) -> (r: Vec<(TargetRef, u8)>)
    ensures
        r@ == all_enemies@.filter(splashed(primary_target)).map_values(with_pct(splash_pct)),
{
    let mut out: Vec<(TargetRef, u8)> = Vec::new();
    let mut i: usize = 0;
    while i < all_enemies.len()
        invariant
            i <= all_enemies@.len(),
            out@ == all_enemies@.take(i as int).filter(splashed(primary_target)).map_values(
                with_pct(splash_pct),
            ),
        decreases all_enemies@.len() - i,
    {
        let t = all_enemies[i];
        proof {
            assert(all_enemies@.take(i + 1) =~= all_enemies@.take(i as int).push(t));
            all_enemies@.take(i as int).lemma_filter_push(t, splashed(primary_target));
        }
        if t.side == primary_target.side && t.index != primary_target.index {
            proof {
                let f = all_enemies@.take(i as int).filter(splashed(primary_target));
                assert(f.push(t).map_values(with_pct(splash_pct)) =~= f.map_values(
                    with_pct(splash_pct),
                ).push((t, splash_pct)));
            }
            out.push((t, splash_pct));
        }
        i += 1;
    }
    proof {
        assert(all_enemies@.take(all_enemies@.len() as int) =~= all_enemies@);
    }
    out
}

/// Splash damage: `splash_percent` percent of the primary damage, rounded
/// down but at least 1; no splash at all for 0 percent.
pub open spec fn splash_damage(primary_damage: u16, splash_percent: u8) -> int {
    if splash_percent == 0 {
        0
    } else {
        let raw = primary_damage * splash_percent / 100;
        if raw < 1 {
            1
        } else if raw > 65535 {
            65535
        } else {
            raw
        }
    }
}

pub fn apply_splash_damage(primary_damage: u16, splash_percent: u8) -> (r: u16)
    ensures
        r == splash_damage(primary_damage, splash_percent),
{
    if splash_percent == 0 {
        return 0;
    }
    assert((primary_damage as u32) * (splash_percent as u32) <= 65535u32 * 255u32) by (nonlinear_arith);
    let raw: u32 = (primary_damage as u32) * (splash_percent as u32) / 100;
    if raw < 1 {
        1
    } else if raw > 65535 {
        65535
    } else {
        raw as u16
    }
}

pub open spec fn opposing_side(side: Side) -> Side {
    match side {
        Side::Player => Side::Enemy,
        Side::Enemy => Side::Player,
    }
}

pub open spec fn on_side(side: Side) -> spec_fn(TargetRef) -> bool {
    |t: TargetRef| t.side == side
}

/// Insert `x` before the first target with a higher index.
pub open spec fn insert_by_index(s: Seq<TargetRef>, x: TargetRef) -> Seq<TargetRef>
    decreases s.len(),
{
    if s.len() == 0 {
        seq![x]
    } else if x.index < s[0].index {
        seq![x] + s
    } else {
        seq![s[0]] + insert_by_index(s.drop_first(), x)
    }
}

/// Stable sort by index, ascending: equal indices keep their order.
pub open spec fn sort_by_index(s: Seq<TargetRef>) -> Seq<TargetRef>
    decreases s.len(),
{
    if s.len() == 0 {
        seq![]
    } else {
        insert_by_index(sort_by_index(s.drop_last()), s.last())
    }
}

pub open spec fn index_sorted(s: Seq<TargetRef>) -> bool {
    forall|i: int, j: int| 0 <= i < j < s.len() ==> (#[trigger] s[i]).index <= (#[trigger] s[j]).index
}

proof fn lemma_insert_split(s: Seq<TargetRef>, x: TargetRef, k: int)
    requires
        0 <= k <= s.len(),
        forall|i: int| 0 <= i < k ==> !(x.index < (#[trigger] s[i]).index),
        k < s.len() ==> x.index < s[k].index,
    ensures
        insert_by_index(s, x) == s.take(k) + seq![x] + s.skip(k),
    decreases s.len(),
{
    if s.len() == 0 {
        assert(s.take(k) + seq![x] + s.skip(k) =~= seq![x]);
    } else if k == 0 {
        assert(s.take(k) + seq![x] + s.skip(k) =~= seq![x] + s);
    } else {
        let t = s.drop_first();
        assert forall|i: int| 0 <= i < k - 1 implies !(x.index < (#[trigger] t[i]).index) by {
            assert(t[i] == s[i + 1]);
        }
        lemma_insert_split(t, x, k - 1);
        assert(s.take(k) + seq![x] + s.skip(k) =~= seq![s[0]] + (t.take(k - 1) + seq![x] + t.skip(
            k - 1,
        )));
    }
}

proof fn lemma_insert_keeps_sorted(s: Seq<TargetRef>, x: TargetRef)
    requires
        index_sorted(s),
    ensures
        index_sorted(insert_by_index(s, x)),
        insert_by_index(s, x).to_multiset() == s.to_multiset().insert(x),
    decreases s.len(),
{
    broadcast use vstd::seq_lib::group_to_multiset_ensures;

    if s.len() == 0 {
        assert(insert_by_index(s, x) =~= seq![x]);
        assert(seq![x] =~= Seq::<TargetRef>::empty().push(x));
    } else if x.index < s[0].index {
        let r = seq![x] + s;
        assert forall|i: int, j: int| 0 <= i < j < r.len() implies (#[trigger] r[i]).index <= (
        #[trigger] r[j]).index by {
            if i == 0 {
                assert(r[j] == s[j - 1]);
                assert(s[0].index <= s[j - 1].index);
            } else {
                assert(r[i] == s[i - 1]);
                assert(r[j] == s[j - 1]);
            }
        }
        vstd::seq_lib::lemma_multiset_commutative(seq![x], s);
        assert(seq![x] =~= Seq::<TargetRef>::empty().push(x));
    } else {
        let t = s.drop_first();
        assert forall|i: int, j: int| 0 <= i < j < t.len() implies (#[trigger] t[i]).index <= (
        #[trigger] t[j]).index by {
            assert(t[i] == s[i + 1]);
            assert(t[j] == s[j + 1]);
        }
        lemma_insert_keeps_sorted(t, x);
        let it = insert_by_index(t, x);
        let r = seq![s[0]] + it;
        assert(r == insert_by_index(s, x));
        assert forall|m: int| 0 <= m < it.len() implies s[0].index <= (#[trigger] it[m]).index by {
            assert(it.to_multiset().count(it[m]) > 0);
            assert(t.to_multiset().insert(x).count(it[m]) > 0);
            if it[m] != x {
                assert(t.to_multiset().count(it[m]) > 0);
                assert(t.contains(it[m]));
                let q = choose|q: int| 0 <= q < t.len() && t[q] == it[m];
                assert(s[q + 1] == t[q]);
            }
        }
        assert forall|i: int, j: int| 0 <= i < j < r.len() implies (#[trigger] r[i]).index <= (
        #[trigger] r[j]).index by {
            if i == 0 {
                assert(r[j] == it[j - 1]);
            } else {
                assert(r[i] == it[i - 1]);
                assert(r[j] == it[j - 1]);
            }
        }
        vstd::seq_lib::lemma_multiset_commutative(seq![s[0]], it);
        vstd::seq_lib::lemma_multiset_commutative(seq![s[0]], t);
        assert(s =~= seq![s[0]] + t);
        assert(seq![s[0]] =~= Seq::<TargetRef>::empty().push(s[0]));
    }
}

/// Sorting targets already ordered by index leaves them as they are.
pub proof fn lemma_sort_sorted(s: Seq<TargetRef>)
    requires
        index_sorted(s),
    ensures
        sort_by_index(s) == s,
    decreases s.len(),
{
    if s.len() > 0 {
        let t = s.drop_last();
        assert forall|i: int, j: int| 0 <= i < j < t.len() implies (#[trigger] t[i]).index <= (#[trigger] t[j]).index by {
            assert(t[i] == s[i]);
            assert(t[j] == s[j]);
        }
        lemma_sort_sorted(t);
        assert forall|i: int| 0 <= i < t.len() implies !(s.last().index < (#[trigger] t[i]).index) by {
            assert(t[i] == s[i]);
        }
        lemma_insert_split(t, s.last(), t.len() as int);
        assert(t.take(t.len() as int) + seq![s.last()] + t.skip(t.len() as int) =~= s);
    }
}

/// Chain targets are ordered by index and are exactly the targets of the
/// opposing side, each as often as it was listed.
pub proof fn lemma_chain_targets_sorted(source: TargetRef, all_targets: Seq<TargetRef>)
    ensures
        index_sorted(sort_by_index(all_targets.filter(on_side(opposing_side(source.side))))),
        sort_by_index(all_targets.filter(on_side(opposing_side(source.side)))).to_multiset()
            == all_targets.filter(on_side(opposing_side(source.side))).to_multiset(),
{
    lemma_sort_by_index(all_targets.filter(on_side(opposing_side(source.side))));
}

proof fn lemma_sort_by_index(s: Seq<TargetRef>)
    ensures
        index_sorted(sort_by_index(s)),
        sort_by_index(s).to_multiset() == s.to_multiset(),
    decreases s.len(),
{
    broadcast use vstd::seq_lib::group_to_multiset_ensures;

    if s.len() > 0 {
        lemma_sort_by_index(s.drop_last());
        lemma_insert_keeps_sorted(sort_by_index(s.drop_last()), s.last());
        assert(s =~= s.drop_last().push(s.last()));
    }
}

/// Every target on the side opposing `source`, ordered by index; targets
/// with equal indices keep their order.
pub fn calculate_chain_targets(source: TargetRef, all_targets: &[TargetRef]) -> (r: Vec<TargetRef>)
    ensures
        r@ == sort_by_index(all_targets@.filter(on_side(opposing_side(source.side)))),
{
    let opposing = match source.side {
        Side::Player => Side::Enemy,
        Side::Enemy => Side::Player,
    };
    let ghost wanted = all_targets@.filter(on_side(opposing));
    let mut sorted: Vec<TargetRef> = Vec::new();
    let mut n: usize = 0;
    while n < all_targets.len()
        invariant
            n <= all_targets@.len(),
            wanted == all_targets@.filter(on_side(opposing)),
            sorted@ == sort_by_index(all_targets@.take(n as int).filter(on_side(opposing))),
        decreases all_targets@.len() - n,
    {
        let x = all_targets[n];
        proof {
            assert(all_targets@.take(n + 1) =~= all_targets@.take(n as int).push(x));
            all_targets@.take(n as int).lemma_filter_push(x, on_side(opposing));
        }
        if x.side == opposing {
            let ghost prev = all_targets@.take(n as int).filter(on_side(opposing));
            let mut k: usize = 0;
            while k < sorted.len()
                invariant
                    k <= sorted.len(),
                    forall|i: int| 0 <= i < k ==> !(x.index < (#[trigger] sorted@[i]).index),
                ensures
                    k <= sorted.len(),
                    forall|i: int| 0 <= i < k ==> !(x.index < (#[trigger] sorted@[i]).index),
                    k < sorted.len() ==> x.index < sorted@[k as int].index,
                decreases sorted.len() - k,
            {
                if x.index < sorted[k].index {
                    break;
                }
                k = k + 1;
            }
            proof {
                lemma_insert_split(sorted@, x, k as int);
                assert(prev.push(x).drop_last() =~= prev);
            }
            sorted.insert(k, x);
            assert(sorted@ =~= sort_by_index(prev.push(x)));
        }
        n = n + 1;
    }
    proof {
        assert(all_targets@.take(all_targets@.len() as int) =~= all_targets@);
    }
    sorted
}

/// Damage after all modifiers: `base + offense - defense * mult_pct / 100`
/// (ATK for physical, MAG for psynergy; the defense penetrated first when a
/// percentage is given), rounded down, at least 1.
pub open spec fn modified_damage(
    base_damage: u16,
    target_def: u16,
    ignore_def_pct: Option<u8>,
    damage_type: DamageType,
    attacker_stats: Stats,
    config_def_mult_pct: u16,
) -> int {
    let def = match ignore_def_pct {
        Some(p) => penetrated_def(target_def, p),
        None => target_def as int,
    };
    let offense = match damage_type {
        DamageType::Physical => attacker_stats.atk@ as int,
        DamageType::Psynergy => attacker_stats.mag@ as int,
    };
    let scaled = (base_damage + offense) * 100 - def * config_def_mult_pct;
    if scaled < 100 {
        1
    } else if scaled / 100 > 65535 {
        65535
    } else {
        scaled / 100
    }
}

pub fn apply_all_modifiers(
    base_damage: u16,
    target_def: u16,
    ignore_def_pct: Option<u8>,
    damage_type: DamageType,
    attacker_stats: &Stats,
    config_def_mult_pct: u16,
) -> (r: u16)
    ensures
        r == modified_damage(
            base_damage,
            target_def,
            ignore_def_pct,
            damage_type,
            *attacker_stats,
            config_def_mult_pct,
        ),
        r >= 1,
{
    let effective_def = match ignore_def_pct {
        Some(pct) => apply_defense_penetration(target_def, pct),
        None => target_def,
    };
    let offense: u64 = match damage_type {
        DamageType::Physical => attacker_stats.atk.get() as u64,
        DamageType::Psynergy => attacker_stats.mag.get() as u64,
    };
    let off_scaled: u64 = (base_damage as u64 + offense) * 100;
    let def64: u64 = effective_def as u64;
    let pct64: u64 = config_def_mult_pct as u64;
    assert(def64 * pct64 <= 65535 * 65535) by (nonlinear_arith)
        requires
            def64 <= 65535,
            pct64 <= 65535,
    ;
    let def_scaled: u64 = def64 * pct64;
    if off_scaled < def_scaled + 100 {
        1
    } else {
        let q: u64 = (off_scaled - def_scaled) / 100;
        if q > 65535 {
            65535
        } else {
            q as u16
        }
    }
}

} // verus!

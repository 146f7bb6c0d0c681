//! Equipment: loadout management, stat bonuses, ability unlocks and set bonuses.
use vstd::prelude::*;

use crate::shared::{
    add_clamped, totals_of, zero_totals, AbilityId, BonusTotals, Element, EquipmentDef,
    EquipmentId, EquipmentSlot, SetId, StatBonus,
};

verus! {

/// One unit's equipment, one optional item per slot.
#[derive(Debug, Clone, PartialEq, Eq)]
pub struct EquipmentLoadout {
    pub weapon: Option<EquipmentId>,
    pub helm: Option<EquipmentId>,
    pub armor: Option<EquipmentId>,
    pub boots: Option<EquipmentId>,
    pub accessory: Option<EquipmentId>,
}

impl Default for EquipmentLoadout {
    fn default() -> (r: Self)
        ensures
            r.weapon is None,
            r.helm is None,
            r.armor is None,
            r.boots is None,
            r.accessory is None,
    {
        EquipmentLoadout { weapon: None, helm: None, armor: None, boots: None, accessory: None }
    }
}

/// Aggregate effects of a loadout.
#[derive(Debug, Clone)]
pub struct EquipmentEffects {
    pub total_stat_bonus: StatBonus,
    pub unlocked_abilities: Vec<AbilityId>,
    pub total_mana_bonus: u8,
    pub total_hit_count_bonus: u8,
    pub always_first_turn: bool,
    pub active_set_bonuses: Vec<SetId>,
}

impl Default for EquipmentEffects {
    /// No bonus of any kind.
    fn default() -> (r: Self)
        ensures
            r.total_stat_bonus.is_zero(),
            r.unlocked_abilities@.len() == 0,
            r.total_mana_bonus == 0,
            r.total_hit_count_bonus == 0,
            !r.always_first_turn,
            r.active_set_bonuses@.len() == 0,
    {
        EquipmentEffects {
            total_stat_bonus: StatBonus::default(),
            unlocked_abilities: Vec::new(),
            total_mana_bonus: 0,
            total_hit_count_bonus: 0,
            always_first_turn: false,
            active_set_bonuses: Vec::new(),
        }
    }
}

#[derive(Debug, Clone, PartialEq, Eq, Structural)]
pub enum EquipError {
    /// The item does not go into the requested slot.
    WrongSlot,
    /// The unit's element may not use the item.
    WrongElement,
}

/// The item of `slot` in `loadout`.
pub open spec fn slot_item(loadout: EquipmentLoadout, slot: EquipmentSlot) -> Option<EquipmentId> {
    match slot {
        EquipmentSlot::Weapon => loadout.weapon,
        EquipmentSlot::Helm => loadout.helm,
        EquipmentSlot::Armor => loadout.armor,
        EquipmentSlot::Boots => loadout.boots,
        EquipmentSlot::Accessory => loadout.accessory,
    }
}

/// `b` equals `a` except in `slot`, where it holds `item`.
pub open spec fn with_slot(a: EquipmentLoadout, slot: EquipmentSlot, item: Option<EquipmentId>) -> EquipmentLoadout {
    match slot {
        EquipmentSlot::Weapon => EquipmentLoadout { weapon: item, ..a },
        EquipmentSlot::Helm => EquipmentLoadout { helm: item, ..a },
        EquipmentSlot::Armor => EquipmentLoadout { armor: item, ..a },
        EquipmentSlot::Boots => EquipmentLoadout { boots: item, ..a },
        EquipmentSlot::Accessory => EquipmentLoadout { accessory: item, ..a },
    }
}

/// `unit_element` is among the item's allowed elements.
pub fn can_equip(equipment_def: &EquipmentDef, unit_element: Element) -> (r: bool)
    ensures
        r == equipment_def.allowed_elements@.contains(unit_element),
{
    let mut i: usize = 0;
    while i < equipment_def.allowed_elements.len()
        invariant
            i <= equipment_def.allowed_elements.len(),
            forall|k: int| 0 <= k < i ==> equipment_def.allowed_elements@[k] != unit_element,
        decreases equipment_def.allowed_elements.len() - i,
    {
        if equipment_def.allowed_elements[i] == unit_element {
            return true;
        }
        i = i + 1;
    }
    false
}

/// Put `equipment_id` into `slot`. Fails with `WrongSlot` when the item
/// belongs to another slot, then with `WrongElement` when the unit's element
/// is not allowed; on failure the loadout is unchanged.
pub fn equip(
    loadout: &mut EquipmentLoadout,
    slot: EquipmentSlot,
    equipment_id: EquipmentId,
    equipment_def: &EquipmentDef,
    unit_element: Element,
) -> (r: Result<(), EquipError>)
    ensures
        equipment_def.slot != slot ==> r == Err::<(), EquipError>(EquipError::WrongSlot),
        equipment_def.slot == slot && !equipment_def.allowed_elements@.contains(unit_element) ==> r
            == Err::<(), EquipError>(EquipError::WrongElement),
        r is Ok <==> equipment_def.slot == slot && equipment_def.allowed_elements@.contains(unit_element),
        r is Ok ==> *final(loadout) == with_slot(*old(loadout), slot, Some(equipment_id)),
        r is Err ==> *final(loadout) == *old(loadout),
{
    if equipment_def.slot != slot {
        return Err(EquipError::WrongSlot);
    }
    if !can_equip(equipment_def, unit_element) {
        return Err(EquipError::WrongElement);
    }
    match slot {
        EquipmentSlot::Weapon => loadout.weapon = Some(equipment_id),
        EquipmentSlot::Helm => loadout.helm = Some(equipment_id),
        EquipmentSlot::Armor => loadout.armor = Some(equipment_id),
        EquipmentSlot::Boots => loadout.boots = Some(equipment_id),
        EquipmentSlot::Accessory => loadout.accessory = Some(equipment_id),
    }
    Ok(())
}

/// Empty `slot`, returning what it held.
pub fn unequip(loadout: &mut EquipmentLoadout, slot: EquipmentSlot) -> (r: Option<EquipmentId>)
    ensures
        r == slot_item(*old(loadout), slot),
        *final(loadout) == with_slot(*old(loadout), slot, None),
{
    match slot {
        EquipmentSlot::Weapon => loadout.weapon.take(),
        EquipmentSlot::Helm => loadout.helm.take(),
        EquipmentSlot::Armor => loadout.armor.take(),
        EquipmentSlot::Boots => loadout.boots.take(),
        EquipmentSlot::Accessory => loadout.accessory.take(),
    }
}

/// The item in `slot`, left in place.
pub fn get_equipped_in_slot(loadout: &EquipmentLoadout, slot: EquipmentSlot) -> (r: Option<&EquipmentId>)
    ensures
        match slot_item(*loadout, slot) {
            Some(id) => r == Some(&id),
            None => r is None,
        },
{
    match slot {
        EquipmentSlot::Weapon => loadout.weapon.as_ref(),
        EquipmentSlot::Helm => loadout.helm.as_ref(),
        EquipmentSlot::Armor => loadout.armor.as_ref(),
        EquipmentSlot::Boots => loadout.boots.as_ref(),
        EquipmentSlot::Accessory => loadout.accessory.as_ref(),
    }
}

// ── Aggregate effects ───────────────────────────────────────────────

pub open spec fn opt_seq(o: Option<EquipmentId>) -> Seq<EquipmentId> {
    match o {
        Some(id) => seq![id],
        None => seq![],
    }
}

/// Equipped ids in slot order: weapon, helm, armor, boots, accessory.
pub open spec fn equipped_ids(l: EquipmentLoadout) -> Seq<EquipmentId> {
    opt_seq(l.weapon) + opt_seq(l.helm) + opt_seq(l.armor) + opt_seq(l.boots) + opt_seq(l.accessory)
}

/// Position of the first definition with id `id` among the first `n`.
pub open spec fn find_equipment_def(defs: Seq<EquipmentDef>, id: Seq<char>, n: nat) -> Option<int>
    decreases n,
{
    if n == 0 {
        None
    } else {
        match find_equipment_def(defs, id, (n - 1) as nat) {
            Some(p) => Some(p),
            None => if defs[n - 1].id@ == id { Some(n - 1) } else { None },
        }
    }
}

/// Definitions of the first `n` ids that have one, in order.
pub open spec fn found_defs(ids: Seq<EquipmentId>, defs: Seq<EquipmentDef>, n: nat) -> Seq<EquipmentDef>
    decreases n,
{
    if n == 0 {
        seq![]
    } else {
        let prev = found_defs(ids, defs, (n - 1) as nat);
        match find_equipment_def(defs, ids[n - 1]@, defs.len()) {
            Some(p) => prev.push(defs[p]),
            None => prev,
        }
    }
}

pub open spec fn stat_totals(ds: Seq<EquipmentDef>, n: nat) -> BonusTotals
    decreases n,
{
    if n == 0 {
        zero_totals()
    } else {
        add_clamped(stat_totals(ds, (n - 1) as nat), ds[n - 1].stat_bonus)
    }
}

pub open spec fn unlock_list(ds: Seq<EquipmentDef>, n: nat) -> Seq<AbilityId>
    decreases n,
{
    if n == 0 {
        seq![]
    } else {
        let prev = unlock_list(ds, (n - 1) as nat);
        match ds[n - 1].unlocks_ability {
            Some(a) => prev.push(a),
            None => prev,
        }
    }
}

pub open spec fn sat_u8(x: int) -> int {
    if x > 255 { 255 } else { x }
}

pub open spec fn mana_total(ds: Seq<EquipmentDef>, n: nat) -> int
    decreases n,
{
    if n == 0 {
        0
    } else {
        let prev = mana_total(ds, (n - 1) as nat);
        match ds[n - 1].mana_bonus {
            Some(m) => sat_u8(prev + m),
            None => prev,
        }
    }
}

pub open spec fn hit_total(ds: Seq<EquipmentDef>, n: nat) -> int
    decreases n,
{
    if n == 0 {
        0
    } else {
        let prev = hit_total(ds, (n - 1) as nat);
        match ds[n - 1].hit_count_bonus {
            Some(h) => sat_u8(prev + h),
            None => prev,
        }
    }
}

pub open spec fn any_first_turn(ds: Seq<EquipmentDef>) -> bool {
    exists|i: int| 0 <= i < ds.len() && ds[i].always_first_turn
}

pub open spec fn set_list(ds: Seq<EquipmentDef>, n: nat) -> Seq<SetId>
    decreases n,
{
    if n == 0 {
        seq![]
    } else {
        let prev = set_list(ds, (n - 1) as nat);
        match ds[n - 1].set_id {
            Some(s) => prev.push(s),
            None => prev,
        }
    }
}

/// How many of the first `n` set ids equal `x`.
pub open spec fn set_count(s: Seq<SetId>, x: SetId, n: nat) -> nat
    decreases n,
{
    if n == 0 {
        0
    } else {
        set_count(s, x, (n - 1) as nat) + if s[n - 1]@ == x@ { 1nat } else { 0nat }
    }
}

/// Set ids occurring at least twice, each once, in order of first occurrence.
pub open spec fn active_sets(s: Seq<SetId>, n: nat) -> Seq<SetId>
    decreases n,
{
    if n == 0 {
        seq![]
    } else {
        let prev = active_sets(s, (n - 1) as nat);
        let x = s[n - 1];
        let first = forall|j: int| 0 <= j < n - 1 ==> s[j]@ != x@;
        if first && set_count(s, x, s.len()) >= 2 {
            prev.push(x)
        } else {
            prev
        }
    }
}

proof fn lemma_find_equipment_def(defs: Seq<EquipmentDef>, id: Seq<char>, n: nat)
    requires
        n <= defs.len(),
    ensures
        find_equipment_def(defs, id, n) matches Some(p) ==> 0 <= p < n && defs[p].id@ == id,
    decreases n,
{
    if n > 0 {
        lemma_find_equipment_def(defs, id, (n - 1) as nat);
    }
}

proof fn lemma_find_stays(defs: Seq<EquipmentDef>, id: Seq<char>, n: nat, m: nat)
    requires
        n <= m,
        find_equipment_def(defs, id, n) is Some,
    ensures
        find_equipment_def(defs, id, m) == find_equipment_def(defs, id, n),
    decreases m - n,
{
    if m > n {
        lemma_find_stays(defs, id, n, (m - 1) as nat);
    }
}

fn find_def<'a>(defs: &'a [EquipmentDef], id: &EquipmentId) -> (r: Option<&'a EquipmentDef>)
    ensures
        match find_equipment_def(defs@, id@, defs@.len()) {
            Some(p) => r == Some(&defs@[p]),
            None => r is None,
        },
{
    let mut i: usize = 0;
    while i < defs.len()
        invariant
            i <= defs.len(),
            find_equipment_def(defs@, id@, i as nat) is None,
        decreases defs.len() - i,
    {
        if defs[i].id.same_as(id) {
            proof {
                lemma_find_stays(defs@, id@, (i + 1) as nat, defs@.len());
            }
            return Some(&defs[i]);
        }
        i = i + 1;
    }
    None
}

fn push_opt(v: &mut Vec<EquipmentId>, o: &Option<EquipmentId>)
    ensures
        final(v)@ == old(v)@ + opt_seq(*o),
{
    if let Some(id) = o {
        v.push(id.clone());
    }
    assert(final(v)@ =~= old(v)@ + opt_seq(*o));
}

fn count_set(sets: &Vec<SetId>, x: &SetId) -> (c: usize)
    ensures
        c == set_count(sets@, *x, sets@.len()),
{
    let mut c: usize = 0;
    let mut i: usize = 0;
    while i < sets.len()
        invariant
            i <= sets.len(),
            c == set_count(sets@, *x, i as nat),
            c <= i,
        decreases sets.len() - i,
    {
        if sets[i].same_as(x) {
            c = c + 1;
        }
        i = i + 1;
    }
    c
}

/// The effects of the items of `loadout` that `defs` defines: their summed
/// and clamped stat bonuses, unlocked abilities, mana and hit bonuses, whether
/// any grants the first turn, and the set bonuses that are active.
pub open spec fn effects_of(e: EquipmentEffects, loadout: EquipmentLoadout, defs: Seq<EquipmentDef>) -> bool {
    let ids = equipped_ids(loadout);
    let ds = found_defs(ids, defs, ids.len());
    let sets = set_list(ds, ds.len());
    &&& totals_of(e.total_stat_bonus) == stat_totals(ds, ds.len())
    &&& e.unlocked_abilities@ == unlock_list(ds, ds.len())
    &&& e.total_mana_bonus == mana_total(ds, ds.len())
    &&& e.total_hit_count_bonus == hit_total(ds, ds.len())
    &&& e.always_first_turn == any_first_turn(ds)
    &&& e.active_set_bonuses@ == active_sets(sets, sets.len())
}

/// Aggregate effects of everything equipped, in slot order: stat bonuses are
/// summed (each sum clamped into `[-999, 999]`), unlocked abilities collected,
/// mana and hit-count bonuses summed (saturating), `always_first_turn` is set
/// when any item has it, and every set with 2 or more equipped items is
/// listed once, in order of first appearance. An equipped id without a
/// definition in `defs` contributes nothing; the first definition of an id counts.
pub fn compute_equipment_effects(loadout: &EquipmentLoadout, defs: &[EquipmentDef]) -> (e: EquipmentEffects)
    ensures
        effects_of(e, *loadout, defs@),
{
    let mut ids: Vec<EquipmentId> = Vec::new();
    push_opt(&mut ids, &loadout.weapon);
    push_opt(&mut ids, &loadout.helm);
    push_opt(&mut ids, &loadout.armor);
    push_opt(&mut ids, &loadout.boots);
    push_opt(&mut ids, &loadout.accessory);
    assert(ids@ =~= equipped_ids(*loadout));

    let mut ds: Vec<&EquipmentDef> = Vec::new();
    let mut i: usize = 0;
    while i < ids.len()
        invariant
            i <= ids.len(),
            ds@.len() == found_defs(ids@, defs@, i as nat).len(),
            forall|k: int| 0 <= k < ds@.len() ==> *#[trigger] ds@[k] == found_defs(ids@, defs@, i as nat)[k],
        decreases ids.len() - i,
    {
        proof {
            lemma_find_equipment_def(defs@, ids@[i as int]@, defs@.len());
        }
        if let Some(d) = find_def(defs, &ids[i]) {
            ds.push(d);
        }
        i = i + 1;
    }
    let ghost sds = found_defs(ids@, defs@, ids@.len());

    let mut total = StatBonus::default();
    let mut unlocked: Vec<AbilityId> = Vec::new();
    let mut mana: u8 = 0;
    let mut hits: u8 = 0;
    let mut first_turn = false;
    let mut sets: Vec<SetId> = Vec::new();
    let mut k: usize = 0;
    while k < ds.len()
        invariant
            k <= ds.len(),
            ds@.len() == sds.len(),
            forall|m: int| 0 <= m < ds@.len() ==> *#[trigger] ds@[m] == sds[m],
            totals_of(total) == stat_totals(sds, k as nat),
            unlocked@ == unlock_list(sds, k as nat),
            mana == mana_total(sds, k as nat),
            hits == hit_total(sds, k as nat),
            first_turn == (exists|m: int| 0 <= m < k && sds[m].always_first_turn),
            sets@ == set_list(sds, k as nat),
        decreases ds.len() - k,
    {
        let d: &EquipmentDef = ds[k];
        assert(*d == sds[k as int]);
        total = total.add_clamped(&d.stat_bonus);
        if let Some(a) = &d.unlocks_ability {
            unlocked.push(a.clone());
        }
        if let Some(m) = d.mana_bonus {
            mana = mana.saturating_add(m);
        }
        if let Some(h) = d.hit_count_bonus {
            hits = hits.saturating_add(h);
        }
        if d.always_first_turn {
            first_turn = true;
        }
        if let Some(s) = &d.set_id {
            sets.push(s.clone());
        }
        k = k + 1;
        assert(first_turn == (exists|m: int| 0 <= m < k && sds[m].always_first_turn)) by {
            if d.always_first_turn {
                assert(sds[k - 1].always_first_turn);
            }
        }
    }

    let mut active: Vec<SetId> = Vec::new();
    let mut n: usize = 0;
    while n < sets.len()
        invariant
            n <= sets.len(),
            active@ == active_sets(sets@, n as nat),
        decreases sets.len() - n,
    {
        let mut first = true;
        let mut j: usize = 0;
        while j < n
            invariant
                j <= n,
                n < sets.len(),
                first == (forall|q: int| 0 <= q < j ==> sets@[q]@ != sets@[n as int]@),
            decreases n - j,
        {
            if sets[j].same_as(&sets[n]) {
                first = false;
            }
            j = j + 1;
        }
        if first && count_set(&sets, &sets[n]) >= 2 {
            active.push(sets[n].clone());
        }
        n = n + 1;
    }

    EquipmentEffects {
        total_stat_bonus: total,
        unlocked_abilities: unlocked,
        total_mana_bonus: mana,
        total_hit_count_bonus: hits,
        always_first_turn: first_turn,
        active_set_bonuses: active,
    }
}

/// Unequipping a slot gives back what equipping it put there, and leaves the
/// slot empty with every other slot as it was; where the slot was empty
/// before, the loadout is as it was before both.
pub proof fn lemma_unequip_undoes_equip(l: EquipmentLoadout, slot: EquipmentSlot, id: EquipmentId)
    ensures
        slot_item(with_slot(l, slot, Some(id)), slot) == Some(id),
        with_slot(with_slot(l, slot, Some(id)), slot, None) == with_slot(l, slot, None),
        slot_item(l, slot) is None ==> with_slot(with_slot(l, slot, Some(id)), slot, None) == l,
{
}

/// Item `d` belongs to the set `x`.
pub open spec fn carries(d: EquipmentDef, x: SetId) -> bool {
    d.set_id matches Some(a) && a@ == x@
}

/// How many of the first `n` items belong to the set `x`.
spec fn carry_count(ds: Seq<EquipmentDef>, x: SetId, n: nat) -> nat
    decreases n,
{
    if n == 0 {
        0
    } else {
        carry_count(ds, x, (n - 1) as nat) + if carries(ds[n - 1], x) { 1nat } else { 0nat }
    }
}

proof fn lemma_set_count_view(s: Seq<SetId>, x: SetId, y: SetId, n: nat)
    ensures
        x@ == y@ ==> set_count(s, x, n) == set_count(s, y, n),
    decreases n,
{
    if n > 0 {
        lemma_set_count_view(s, x, y, (n - 1) as nat);
    }
}

proof fn lemma_set_count_prefix(s: Seq<SetId>, y: SetId, x: SetId, m: nat)
    requires
        m <= s.len(),
    ensures
        set_count(s.push(y), x, m) == set_count(s, x, m),
    decreases m,
{
    if m > 0 {
        lemma_set_count_prefix(s, y, x, (m - 1) as nat);
        assert(s.push(y)[m - 1] == s[m - 1]);
    }
}

/// The set ids of the items hold `x` as often as the items belong to `x`.
proof fn lemma_set_list_count(ds: Seq<EquipmentDef>, x: SetId, n: nat)
    requires
        n <= ds.len(),
    ensures
        set_count(set_list(ds, n), x, set_list(ds, n).len()) == carry_count(ds, x, n),
    decreases n,
{
    if n > 0 {
        lemma_set_list_count(ds, x, (n - 1) as nat);
        let prev = set_list(ds, (n - 1) as nat);
        match ds[n - 1].set_id {
            Some(y) => {
                lemma_set_count_prefix(prev, y, x, prev.len());
                assert(prev.push(y)[prev.len() as int] == y);
            },
            None => {},
        }
    }
}

/// At least `k` (1 or 2) of the first `n` set ids equal `x` exactly when that
/// many positions hold it.
proof fn lemma_set_count_positions(s: Seq<SetId>, x: SetId, n: nat)
    requires
        n <= s.len(),
    ensures
        set_count(s, x, n) >= 1 <==> exists|i: int| 0 <= i < n && s[i]@ == x@,
        set_count(s, x, n) >= 2 <==> exists|i: int, j: int| 0 <= i < j < n && s[i]@ == x@ && s[j]@ == x@,
    decreases n,
{
    if n > 0 {
        lemma_set_count_positions(s, x, (n - 1) as nat);
        if set_count(s, x, n) >= 2 && s[n - 1]@ == x@ && set_count(s, x, (n - 1) as nat) >= 1 {
            let i = choose|i: int| 0 <= i < n - 1 && s[i]@ == x@;
            assert(0 <= i < n - 1 && s[i]@ == x@ && s[n - 1]@ == x@);
        }
        if exists|i: int, j: int| 0 <= i < j < n && s[i]@ == x@ && s[j]@ == x@ {
            let (i, j) = choose|i: int, j: int| 0 <= i < j < n && s[i]@ == x@ && s[j]@ == x@;
            if j < n - 1 {
                assert(0 <= i < j < n - 1 && s[i]@ == x@ && s[j]@ == x@);
            } else {
                assert(0 <= i < n - 1 && s[i]@ == x@);
            }
        }
        if exists|i: int| 0 <= i < n && s[i]@ == x@ {
            let i = choose|i: int| 0 <= i < n && s[i]@ == x@;
            if i < n - 1 {
                assert(0 <= i < n - 1 && s[i]@ == x@);
            }
        }
    }
}

proof fn lemma_carry_count_positions(ds: Seq<EquipmentDef>, x: SetId, n: nat)
    requires
        n <= ds.len(),
    ensures
        carry_count(ds, x, n) >= 1 <==> exists|i: int| 0 <= i < n && carries(ds[i], x),
        carry_count(ds, x, n) >= 2 <==> exists|i: int, j: int| 0 <= i < j < n && carries(ds[i], x) && carries(ds[j], x),
    decreases n,
{
    if n > 0 {
        lemma_carry_count_positions(ds, x, (n - 1) as nat);
        if carry_count(ds, x, n) >= 2 && carries(ds[n - 1], x) && carry_count(ds, x, (n - 1) as nat) >= 1 {
            let i = choose|i: int| 0 <= i < n - 1 && carries(ds[i], x);
            assert(0 <= i < n - 1 && carries(ds[i], x) && carries(ds[n - 1], x));
        }
        if exists|i: int, j: int| 0 <= i < j < n && carries(ds[i], x) && carries(ds[j], x) {
            let (i, j) = choose|i: int, j: int| 0 <= i < j < n && carries(ds[i], x) && carries(ds[j], x);
            if j < n - 1 {
                assert(0 <= i < j < n - 1 && carries(ds[i], x) && carries(ds[j], x));
            } else {
                assert(0 <= i < n - 1 && carries(ds[i], x));
            }
        }
        if exists|i: int| 0 <= i < n && carries(ds[i], x) {
            let i = choose|i: int| 0 <= i < n && carries(ds[i], x);
            if i < n - 1 {
                assert(0 <= i < n - 1 && carries(ds[i], x));
            }
        }
    }
}

/// `x` is listed among the first `n` entries' active sets exactly when it
/// occurs among them and at least twice in all of `s`.
proof fn lemma_active_member(s: Seq<SetId>, x: SetId, n: nat)
    requires
        n <= s.len(),
    ensures
        (exists|m: int| 0 <= m < active_sets(s, n).len() && (#[trigger] active_sets(s, n)[m])@ == x@) <==> ((exists|k: int|
            0 <= k < n && s[k]@ == x@) && set_count(s, x, s.len()) >= 2),
    decreases n,
{
    if n > 0 {
        lemma_active_member(s, x, (n - 1) as nat);
        let prev = active_sets(s, (n - 1) as nat);
        let y = s[n - 1];
        let first = forall|j: int| 0 <= j < n - 1 ==> s[j]@ != y@;
        lemma_set_count_view(s, x, y, s.len());
        if first && set_count(s, y, s.len()) >= 2 {
            assert(active_sets(s, n) == prev.push(y));
            if exists|m: int| 0 <= m < active_sets(s, n).len() && (#[trigger] active_sets(s, n)[m])@ == x@ {
                let m = choose|m: int| 0 <= m < active_sets(s, n).len() && (#[trigger] active_sets(s, n)[m])@ == x@;
                if m < prev.len() {
                    assert(prev[m] == active_sets(s, n)[m]);
                } else {
                    assert(0 <= n - 1 < n && s[n - 1]@ == x@);
                }
            }
            if (exists|k: int| 0 <= k < n && s[k]@ == x@) && set_count(s, x, s.len()) >= 2 {
                let k = choose|k: int| 0 <= k < n && s[k]@ == x@;
                if k < n - 1 {
                    let m = choose|m: int| 0 <= m < prev.len() && (#[trigger] prev[m])@ == x@;
                    assert(active_sets(s, n)[m] == prev[m]);
                } else {
                    assert(active_sets(s, n)[prev.len() as int] == y);
                }
            }
        } else {
            assert(active_sets(s, n) == prev);
            if (exists|k: int| 0 <= k < n && s[k]@ == x@) && set_count(s, x, s.len()) >= 2 {
                let k = choose|k: int| 0 <= k < n && s[k]@ == x@;
                if k == n - 1 {
                    if !first {
                        let j = choose|j: int| 0 <= j < n - 1 && s[j]@ == y@;
                        assert(0 <= j < n - 1 && s[j]@ == x@);
                    }
                } else {
                    assert(0 <= k < n - 1 && s[k]@ == x@);
                }
            }
        }
    }
}

/// No set is listed twice among the active sets.
proof fn lemma_active_distinct(s: Seq<SetId>, n: nat)
    requires
        n <= s.len(),
    ensures
        forall|a: int, b: int|
            0 <= a < b < active_sets(s, n).len() ==> (#[trigger] active_sets(s, n)[a])@ != (#[trigger] active_sets(s, n)[b])@,
    decreases n,
{
    if n > 0 {
        lemma_active_distinct(s, (n - 1) as nat);
        let prev = active_sets(s, (n - 1) as nat);
        let y = s[n - 1];
        let first = forall|j: int| 0 <= j < n - 1 ==> s[j]@ != y@;
        if first && set_count(s, y, s.len()) >= 2 {
            let cur = active_sets(s, n);
            assert(cur == prev.push(y));
            assert forall|a: int, b: int| 0 <= a < b < cur.len() implies (#[trigger] cur[a])@ != (#[trigger] cur[b])@ by {
                if b == prev.len() {
                    if cur[a]@ == y@ {
                        assert(prev[a] == cur[a]);
                        lemma_active_member(s, y, (n - 1) as nat);
                        assert(0 <= a < prev.len() && prev[a]@ == y@);
                    }
                } else {
                    assert(prev[a] == cur[a] && prev[b] == cur[b]);
                }
            }
        }
    }
}

/// Set bonus law: a set is listed among the active set bonuses exactly when
/// at least two of the equipped items that have a definition belong to it,
/// however many more do; and no set is listed twice.
pub proof fn lemma_set_bonus_active(e: EquipmentEffects, loadout: EquipmentLoadout, defs: Seq<EquipmentDef>, x: SetId)
    requires
        effects_of(e, loadout, defs),
    ensures
        ({
            let ids = equipped_ids(loadout);
            let ds = found_defs(ids, defs, ids.len());
            (exists|m: int| 0 <= m < e.active_set_bonuses@.len() && (#[trigger] e.active_set_bonuses@[m])@ == x@) <==> exists|
                i: int,
                j: int,
            | 0 <= i < j < ds.len() && carries(ds[i], x) && carries(ds[j], x)
        }),
        forall|a: int, b: int|
            0 <= a < b < e.active_set_bonuses@.len() ==> (#[trigger] e.active_set_bonuses@[a])@ != (
            #[trigger] e.active_set_bonuses@[b])@,
{
    let ids = equipped_ids(loadout);
    let ds = found_defs(ids, defs, ids.len());
    let sets = set_list(ds, ds.len());
    lemma_active_member(sets, x, sets.len());
    lemma_set_count_positions(sets, x, sets.len());
    lemma_set_list_count(ds, x, ds.len());
    lemma_carry_count_positions(ds, x, ds.len());
    if set_count(sets, x, sets.len()) >= 2 {
        let (i, j) = choose|i: int, j: int| 0 <= i < j < sets.len() && sets[i]@ == x@ && sets[j]@ == x@;
        assert(0 <= i < sets.len() && sets[i]@ == x@);
    }
    assert(e.active_set_bonuses@ == active_sets(sets, sets.len()));
    lemma_active_distinct(sets, sets.len());
}

} // verus!

//! Djinn state machine: Good/Recovery states, ability oscillation, summons
//! and staggered recovery (one djinn per turn, oldest activation first).
use vstd::prelude::*;

use crate::shared::{
    add_clamped, bonus_in_range, clamp999, sum_in_range, totals_of, zero_totals, AbilityId, BonusTotals, DjinnCompatibility, DjinnDef, DjinnId, DjinnState, DjinnStateChanged, Element,
    StatBonus, SummonEffect, TargetRef,
};

verus! {

// ── Structs ─────────────────────────────────────────────────────────

/// Runtime state of one equipped djinn.
#[derive(Debug)]
pub struct DjinnInstance {
    pub djinn_id: DjinnId,
    pub state: DjinnState,
    pub recovery_turns_remaining: u8,
    pub activation_order: u32,
}

/// Djinn equipped by one unit (at most 3).
#[derive(Debug)]
pub struct DjinnSlots {
    pub slots: Vec<DjinnInstance>,
    pub next_activation_order: u32,
}

impl Clone for DjinnInstance {
    fn clone(&self) -> (r: Self)
        ensures
            r == *self,
    {
        DjinnInstance {
            djinn_id: self.djinn_id.clone(),
            state: self.state,
            recovery_turns_remaining: self.recovery_turns_remaining,
            activation_order: self.activation_order,
        }
    }
}

impl Clone for DjinnSlots {
    fn clone(&self) -> (r: Self)
        ensures
            r.slots@ == self.slots@,
            r.next_activation_order == self.next_activation_order,
    {
        let slots = self.slots.clone();
        assert(slots@ =~= self.slots@);
        DjinnSlots { slots, next_activation_order: self.next_activation_order }
    }
}

/// Number of Good djinn among the first `n` instances.
pub open spec fn good_in(s: Seq<DjinnInstance>, n: nat) -> nat
    decreases n,
{
    if n == 0 {
        0
    } else {
        good_in(s, (n - 1) as nat) + if s[n - 1].state == DjinnState::Good { 1nat } else { 0nat }
    }
}

pub open spec fn good_total(s: Seq<DjinnInstance>) -> nat {
    good_in(s, s.len())
}

impl DjinnSlots {
    /// No djinn equipped.
    pub fn new() -> (r: Self)
        ensures
            r.slots@.len() == 0,
            r.next_activation_order == 0,
    {
        DjinnSlots { slots: Vec::new(), next_activation_order: 0 }
    }

    /// Equip a djinn in Good state. Refused (false, nothing changes) when 3 are already equipped.
    pub fn add(&mut self, djinn_id: DjinnId) -> (added: bool)
        ensures
            added == (old(self).slots@.len() < 3),
            added ==> final(self).slots@ == old(self).slots@.push(
                DjinnInstance {
                    djinn_id,
                    state: DjinnState::Good,
                    recovery_turns_remaining: 0,
                    activation_order: 0,
                },
            ),
            !added ==> final(self).slots@ == old(self).slots@,
            final(self).next_activation_order == old(self).next_activation_order,
    {
        if self.slots.len() >= 3 {
            return false;
        }
        self.slots.push(
            DjinnInstance {
                djinn_id,
                state: DjinnState::Good,
                recovery_turns_remaining: 0,
                activation_order: 0,
            },
        );
        true
    }

    /// Number of djinn in Good state.
    pub fn good_count(&self) -> (n: usize)
        ensures
            n == good_total(self.slots@),
    {
        let mut n: usize = 0;
        let mut i: usize = 0;
        while i < self.slots.len()
            invariant
                i <= self.slots.len(),
                n == good_in(self.slots@, i as nat),
                n <= i,
            decreases self.slots.len() - i,
        {
            if is_good(self.slots[i].state) {
                n = n + 1;
            }
            i = i + 1;
        }
        n
    }
}

fn is_good(s: DjinnState) -> (r: bool)
    ensures
        r == (s == DjinnState::Good),
{
    match s {
        DjinnState::Good => true,
        DjinnState::Recovery => false,
    }
}

/// A summon tier and the number of Good djinn it needs.
#[derive(Debug, Clone, PartialEq, Eq, Structural)]
pub struct SummonTier {
    pub tier: u8,
    pub required_good: u8,
}

/// Kind of immediate effect of a djinn activation.
#[derive(Debug, Clone, Copy, PartialEq, Eq, Structural)]
pub enum DjinnActivationEffectType {
    Damage,
    Buff,
    Heal,
    Status,
}

#[derive(Debug, Clone, Copy, PartialEq, Eq)]
pub struct DjinnActivationEvent {
    pub element: Element,
    pub base_damage: u16,
    pub effect_type: Option<DjinnActivationEffectType>,
}

// ── Compatibility and abilities ─────────────────────────────────────

pub open spec fn spec_compatibility(djinn_element: Element, unit_element: Element) -> DjinnCompatibility {
    if djinn_element == unit_element {
        DjinnCompatibility::Same
    } else if djinn_element == unit_element.spec_counter() {
        DjinnCompatibility::Counter
    } else {
        DjinnCompatibility::Neutral
    }
}

/// Same element, counter element, or neutral.
pub fn determine_compatibility(djinn_element: Element, unit_element: Element) -> (c: DjinnCompatibility)
    ensures
        c == spec_compatibility(djinn_element, unit_element),
{
    if djinn_element == unit_element {
        DjinnCompatibility::Same
    } else if djinn_element == unit_element.counter() {
        DjinnCompatibility::Counter
    } else {
        DjinnCompatibility::Neutral
    }
}

pub open spec fn spec_granted_abilities(
    djinn_def: DjinnDef,
    compatibility: DjinnCompatibility,
    state: DjinnState,
) -> Seq<AbilityId> {
    match compatibility {
        DjinnCompatibility::Same => match state {
            DjinnState::Good => djinn_def.ability_pairs.same.good_abilities@,
            DjinnState::Recovery => djinn_def.ability_pairs.same.recovery_abilities@,
        },
        DjinnCompatibility::Counter => match state {
            DjinnState::Good => djinn_def.ability_pairs.counter.good_abilities@,
            DjinnState::Recovery => djinn_def.ability_pairs.counter.recovery_abilities@,
        },
        DjinnCompatibility::Neutral => djinn_def.ability_pairs.neutral.good_abilities@,
    }
}

fn copy_ids(v: &Vec<AbilityId>) -> (r: Vec<AbilityId>)
    ensures
        r@ == v@,
{
    let r = v.clone();
    assert(r@ =~= v@);
    r
}

/// Abilities granted by a djinn: the Good or Recovery set matching its
/// compatibility; a neutral djinn always grants its Good set.
pub fn get_granted_abilities(
    djinn_def: &DjinnDef,
    compatibility: DjinnCompatibility,
    state: DjinnState,
) -> (r: Vec<AbilityId>)
    ensures
        r@ == spec_granted_abilities(*djinn_def, compatibility, state),
{
    match compatibility {
        DjinnCompatibility::Same => match state {
            DjinnState::Good => copy_ids(&djinn_def.ability_pairs.same.good_abilities),
            DjinnState::Recovery => copy_ids(&djinn_def.ability_pairs.same.recovery_abilities),
        },
        DjinnCompatibility::Counter => match state {
            DjinnState::Good => copy_ids(&djinn_def.ability_pairs.counter.good_abilities),
            DjinnState::Recovery => copy_ids(&djinn_def.ability_pairs.counter.recovery_abilities),
        },
        DjinnCompatibility::Neutral => copy_ids(&djinn_def.ability_pairs.neutral.good_abilities),
    }
}

// ── Activation ──────────────────────────────────────────────────────

pub open spec fn spec_effect_type(effect: SummonEffect) -> Option<DjinnActivationEffectType> {
    if effect.damage > 0 {
        Some(DjinnActivationEffectType::Damage)
    } else if effect.buff is Some {
        Some(DjinnActivationEffectType::Buff)
    } else if effect.heal is Some {
        Some(DjinnActivationEffectType::Heal)
    } else if effect.status is Some {
        Some(DjinnActivationEffectType::Status)
    } else {
        None
    }
}

impl DjinnActivationEffectType {
    /// Damage first, then buff, heal, status; `None` for an empty effect.
    fn from_summon_effect(effect: &SummonEffect) -> (r: Option<Self>)
        ensures
            r == spec_effect_type(*effect),
    {
        if effect.damage > 0 {
            Some(Self::Damage)
        } else if effect.buff.is_some() {
            Some(Self::Buff)
        } else if effect.heal.is_some() {
            Some(Self::Heal)
        } else if effect.status.is_some() {
            Some(Self::Status)
        } else {
            None
        }
    }
}

/// `slots` can activate the djinn at `index` described by `djinn_def`.
pub open spec fn can_activate(slots: DjinnSlots, index: usize, djinn_def: DjinnDef) -> bool {
    &&& index < slots.slots@.len()
    &&& slots.slots@[index as int].state == DjinnState::Good
    &&& slots.slots@[index as int].djinn_id@ == djinn_def.id@
}

/// The instance after it is activated with activation order `order`.
pub open spec fn activated(d: DjinnInstance, recovery_turns: u8, order: u32) -> DjinnInstance {
    DjinnInstance {
        djinn_id: d.djinn_id,
        state: DjinnState::Recovery,
        recovery_turns_remaining: recovery_turns,
        activation_order: order,
    }
}

pub open spec fn to_recovery_event(d: DjinnInstance, unit: TargetRef, recovery_turns: u8) -> DjinnStateChanged {
    DjinnStateChanged {
        djinn_id: d.djinn_id,
        unit,
        old_state: d.state,
        new_state: DjinnState::Recovery,
        recovery_turns: Some(recovery_turns),
    }
}

pub open spec fn activation_event(djinn_def: DjinnDef) -> DjinnActivationEvent {
    DjinnActivationEvent {
        element: djinn_def.element,
        base_damage: match djinn_def.summon_effect {
            Some(e) => e.damage,
            None => 0,
        },
        effect_type: match djinn_def.summon_effect {
            Some(e) => spec_effect_type(e),
            None => None,
        },
    }
}

/// Activate the Good djinn at `index` (it must match `djinn_def`): it moves to
/// Recovery with `recovery_turns` remaining and takes the next activation order.
/// `None`, with nothing changed, when the index is out of range, the djinn is
/// not Good, or its id differs from `djinn_def.id`.
pub fn activate_djinn(
    slots: &mut DjinnSlots,
    index: usize,
    unit_ref: TargetRef,
    recovery_turns: u8,
    djinn_def: &DjinnDef,
) -> (r: Option<(DjinnStateChanged, DjinnActivationEvent)>)
    requires
        can_activate(*old(slots), index, *djinn_def) ==> old(slots).next_activation_order < u32::MAX,
    ensures
        r is Some <==> can_activate(*old(slots), index, *djinn_def),
        r is None ==> *final(slots) == *old(slots),
        r matches Some((ev, act)) ==> {
            let d = old(slots).slots@[index as int];
            &&& final(slots).slots@ == old(slots).slots@.update(
                index as int,
                activated(d, recovery_turns, old(slots).next_activation_order),
            )
            &&& final(slots).next_activation_order == old(slots).next_activation_order + 1
            &&& ev == to_recovery_event(d, unit_ref, recovery_turns)
            &&& act == activation_event(*djinn_def)
        },
{
    if index >= slots.slots.len() {
        return None;
    }
    if !is_good(slots.slots[index].state) {
        return None;
    }
    if !slots.slots[index].djinn_id.same_as(&djinn_def.id) {
        return None;
    }
    let id = slots.slots[index].djinn_id.clone();
    let order = slots.next_activation_order;
    slots.slots.set(
        index,
        DjinnInstance {
            djinn_id: id.clone(),
            state: DjinnState::Recovery,
            recovery_turns_remaining: recovery_turns,
            activation_order: order,
        },
    );
    slots.next_activation_order = order + 1;
    let (base_damage, effect_type) = match &djinn_def.summon_effect {
        Some(effect) => (effect.damage, DjinnActivationEffectType::from_summon_effect(effect)),
        None => (0, None),
    };
    Some(
        (
            DjinnStateChanged {
                djinn_id: id,
                unit: unit_ref,
                old_state: DjinnState::Good,
                new_state: DjinnState::Recovery,
                recovery_turns: Some(recovery_turns),
            },
            DjinnActivationEvent { element: djinn_def.element, base_damage, effect_type },
        ),
    )
}

// ── Stat bonus ──────────────────────────────────────────────────────

/// Position of the first definition with id `id` among the first `n`.
pub open spec fn find_djinn_def(defs: Seq<DjinnDef>, id: Seq<char>, n: nat) -> Option<int>
    decreases n,
{
    if n == 0 {
        None
    } else {
        match find_djinn_def(defs, id, (n - 1) as nat) {
            Some(p) => Some(p),
            None => if defs[n - 1].id@ == id { Some(n - 1) } else { None },
        }
    }
}

/// Bonus of the Good djinn among the first `n` instances.
pub open spec fn djinn_bonus(slots: Seq<DjinnInstance>, defs: Seq<DjinnDef>, n: nat) -> BonusTotals
    decreases n,
{
    if n == 0 {
        zero_totals()
    } else {
        let prev = djinn_bonus(slots, defs, (n - 1) as nat);
        let inst = slots[n - 1];
        if inst.state != DjinnState::Good {
            prev
        } else {
            match find_djinn_def(defs, inst.djinn_id@, defs.len()) {
                None => prev,
                Some(p) => add_clamped(prev, defs[p].stat_bonus),
            }
        }
    }
}

proof fn lemma_find_djinn_def(defs: Seq<DjinnDef>, id: Seq<char>, n: nat)
    requires
        n <= defs.len(),
    ensures
        find_djinn_def(defs, id, n) matches Some(p) ==> 0 <= p < n && defs[p].id@ == id,
        find_djinn_def(defs, id, n) is None ==> forall|i: int| 0 <= i < n ==> defs[i].id@ != id,
    decreases n,
{
    if n > 0 {
        lemma_find_djinn_def(defs, id, (n - 1) as nat);
    }
}

fn find_def_index(defs: &[DjinnDef], id: &DjinnId) -> (r: Option<usize>)
    ensures
        match find_djinn_def(defs@, id@, defs@.len()) {
            Some(p) => r == Some(p as usize),
            None => r is None,
        },
{
    let mut i: usize = 0;
    while i < defs.len()
        invariant
            i <= defs.len(),
            find_djinn_def(defs@, id@, i as nat) is None,
        decreases defs.len() - i,
    {
        if defs[i].id.same_as(id) {
            proof {
                lemma_find_first_stays(defs@, id@, (i + 1) as nat, defs@.len());
            }
            return Some(i);
        }
        i = i + 1;
    }
    None
}

proof fn lemma_find_first_stays(defs: Seq<DjinnDef>, id: Seq<char>, n: nat, m: nat)
    requires
        n <= m,
        find_djinn_def(defs, id, n) is Some,
    ensures
        find_djinn_def(defs, id, m) == find_djinn_def(defs, id, n),
    decreases m - n,
{
    if m > n {
        lemma_find_first_stays(defs, id, n, (m - 1) as nat);
    }
}

/// Sum of the stat bonuses of all Good djinn (Recovery djinn give nothing),
/// each running sum clamped into `[-999, 999]`. A djinn whose id has no
/// definition in `djinn_defs` contributes nothing.
pub fn compute_djinn_stat_bonus(slots: &DjinnSlots, djinn_defs: &[DjinnDef]) -> (bonus: StatBonus)
    ensures
        totals_of(bonus) == djinn_bonus(slots.slots@, djinn_defs@, slots.slots@.len()),
{
    let mut bonus = StatBonus::default();
    let mut i: usize = 0;
    while i < slots.slots.len()
        invariant
            i <= slots.slots.len(),
            totals_of(bonus) == djinn_bonus(slots.slots@, djinn_defs@, i as nat),
        decreases slots.slots.len() - i,
    {
        let inst = &slots.slots[i];
        if is_good(inst.state) {
            proof {
                lemma_find_djinn_def(djinn_defs@, inst.djinn_id@, djinn_defs@.len());
            }
            if let Some(p) = find_def_index(djinn_defs, &inst.djinn_id) {
                bonus = bonus.add_clamped(&djinn_defs[p].stat_bonus);
            }
        }
        i = i + 1;
    }
    bonus
}

// ── Summons ─────────────────────────────────────────────────────────

pub open spec fn tier_entry(t: int) -> SummonTier {
    SummonTier { tier: t as u8, required_good: t as u8 }
}

/// Tiers `1..=min(good_count, 3)`; tier `t` needs `t` Good djinn.
pub fn get_available_summons(good_count: usize) -> (tiers: Vec<SummonTier>)
    ensures
        tiers@.len() == (if good_count < 3 { good_count as int } else { 3 }),
        forall|i: int| 0 <= i < tiers@.len() ==> #[trigger] tiers@[i] == tier_entry(i + 1),
{
    let mut tiers: Vec<SummonTier> = Vec::new();
    if good_count >= 1 {
        tiers.push(SummonTier { tier: 1, required_good: 1 });
    }
    if good_count >= 2 {
        tiers.push(SummonTier { tier: 2, required_good: 2 });
    }
    if good_count >= 3 {
        tiers.push(SummonTier { tier: 3, required_good: 3 });
    }
    tiers
}

/// Every index is in range and names a Good djinn.
pub open spec fn summon_valid(s: Seq<DjinnInstance>, indices: Seq<usize>) -> bool {
    forall|k: int| 0 <= k < indices.len() ==> {
        &&& #[trigger] indices[k] < s.len()
        &&& s[indices[k] as int].state == DjinnState::Good
    }
}

/// State, next activation order and events after moving the djinn at the
/// first `k` indices to Recovery, one after the other.
pub ghost struct SummonTrace {
    pub slots: Seq<DjinnInstance>,
    pub next: int,
    pub events: Seq<DjinnStateChanged>,
}

pub open spec fn summon_trace(
    s: Seq<DjinnInstance>,
    next: u32,
    indices: Seq<usize>,
    unit: TargetRef,
    recovery_turns: u8,
    k: nat,
) -> SummonTrace
    decreases k,
{
    if k == 0 {
        SummonTrace { slots: s, next: next as int, events: seq![] }
    } else {
        let prev = summon_trace(s, next, indices, unit, recovery_turns, (k - 1) as nat);
        let idx = indices[k - 1] as int;
        let d = prev.slots[idx];
        SummonTrace {
            slots: prev.slots.update(idx, activated(d, recovery_turns, prev.next as u32)),
            next: prev.next + 1,
            events: prev.events.push(to_recovery_event(d, unit, recovery_turns)),
        }
    }
}

proof fn lemma_summon_trace_len(
    s: Seq<DjinnInstance>,
    next: u32,
    indices: Seq<usize>,
    unit: TargetRef,
    recovery_turns: u8,
    k: nat,
)
    requires
        summon_valid(s, indices),
        k <= indices.len(),
    ensures
        summon_trace(s, next, indices, unit, recovery_turns, k).slots.len() == s.len(),
        summon_trace(s, next, indices, unit, recovery_turns, k).next == next + k,
        summon_trace(s, next, indices, unit, recovery_turns, k).events.len() == k,
    decreases k,
{
    if k > 0 {
        lemma_summon_trace_len(s, next, indices, unit, recovery_turns, (k - 1) as nat);
    }
}

/// Summon with the djinn at `djinn_indices`: all must be in range and Good,
/// else `None` and nothing changes. Each one in turn moves to Recovery with
/// `recovery_turns` remaining and takes the next activation order.
pub fn execute_summon(
    slots: &mut DjinnSlots,
    djinn_indices: &[usize],
    unit_ref: TargetRef,
    recovery_turns: u8,
) -> (r: Option<Vec<DjinnStateChanged>>)
    requires
        summon_valid(old(slots).slots@, djinn_indices@) ==> old(slots).next_activation_order
            + djinn_indices@.len() <= u32::MAX,
    ensures
        r is Some <==> summon_valid(old(slots).slots@, djinn_indices@),
        r is None ==> *final(slots) == *old(slots),
        r matches Some(events) ==> {
            let t = summon_trace(
                old(slots).slots@,
                old(slots).next_activation_order,
                djinn_indices@,
                unit_ref,
                recovery_turns,
                djinn_indices@.len(),
            );
            &&& final(slots).slots@ == t.slots
            &&& final(slots).next_activation_order == t.next
            &&& events@ == t.events
        },
{
    let mut k: usize = 0;
    while k < djinn_indices.len()
        invariant
            k <= djinn_indices.len(),
            summon_valid(slots.slots@, djinn_indices@.take(k as int)),
        decreases djinn_indices.len() - k,
    {
        let idx = djinn_indices[k];
        if idx >= slots.slots.len() {
            return None;
        }
        if !is_good(slots.slots[idx].state) {
            return None;
        }
        k = k + 1;
        assert(summon_valid(slots.slots@, djinn_indices@.take(k as int))) by {
            assert forall|j: int| 0 <= j < k implies #[trigger] djinn_indices@.take(k as int)[j]
                < slots.slots@.len() && slots.slots@[djinn_indices@.take(k as int)[j] as int].state
                == DjinnState::Good by {
                if j < k - 1 {
                    assert(djinn_indices@.take(k - 1)[j] == djinn_indices@.take(k as int)[j]);
                }
            }
        }
    }
    assert(djinn_indices@.take(k as int) =~= djinn_indices@);

    let ghost s0 = slots.slots@;
    let ghost n0 = slots.next_activation_order;
    let mut events: Vec<DjinnStateChanged> = Vec::new();
    let mut k: usize = 0;
    while k < djinn_indices.len()
        invariant
            k <= djinn_indices.len(),
            summon_valid(s0, djinn_indices@),
            n0 + djinn_indices@.len() <= u32::MAX,
            ({
                let t = summon_trace(s0, n0, djinn_indices@, unit_ref, recovery_turns, k as nat);
                &&& slots.slots@ == t.slots
                &&& slots.next_activation_order == t.next
                &&& events@ == t.events
            }),
        decreases djinn_indices.len() - k,
    {
        proof {
            lemma_summon_trace_len(s0, n0, djinn_indices@, unit_ref, recovery_turns, k as nat);
        }
        let idx = djinn_indices[k];
        assert(idx < s0.len());
        let id = slots.slots[idx].djinn_id.clone();
        let old_state = slots.slots[idx].state;
        let order = slots.next_activation_order;
        slots.slots.set(
            idx,
            DjinnInstance {
                djinn_id: id.clone(),
                state: DjinnState::Recovery,
                recovery_turns_remaining: recovery_turns,
                activation_order: order,
            },
        );
        slots.next_activation_order = order + 1;
        events.push(
            DjinnStateChanged {
                djinn_id: id,
                unit: unit_ref,
                old_state,
                new_state: DjinnState::Recovery,
                recovery_turns: Some(recovery_turns),
            },
        );
        k = k + 1;
    }
    Some(events)
}

// ── Recovery ────────────────────────────────────────────────────────

/// The djinn can recover this tick: Recovery with no turns left.
pub open spec fn ready(d: DjinnInstance) -> bool {
    d.state == DjinnState::Recovery && d.recovery_turns_remaining == 0
}

/// Among the first `n`, the first ready djinn of lowest activation order.
pub open spec fn recovery_candidate(s: Seq<DjinnInstance>, n: nat) -> Option<int>
    decreases n,
{
    if n == 0 {
        None
    } else {
        let prev = recovery_candidate(s, (n - 1) as nat);
        if !ready(s[n - 1]) {
            prev
        } else {
            match prev {
                None => Some(n - 1),
                Some(p) => if s[n - 1].activation_order < s[p].activation_order { Some(n - 1) } else { prev },
            }
        }
    }
}

pub open spec fn recovered(d: DjinnInstance) -> DjinnInstance {
    DjinnInstance {
        djinn_id: d.djinn_id,
        state: DjinnState::Good,
        recovery_turns_remaining: d.recovery_turns_remaining,
        activation_order: 0,
    }
}

/// One turn less for a djinn still waiting in Recovery.
pub open spec fn count_down(d: DjinnInstance) -> DjinnInstance {
    if d.state == DjinnState::Recovery && d.recovery_turns_remaining > 0 {
        DjinnInstance { recovery_turns_remaining: (d.recovery_turns_remaining - 1) as u8, ..d }
    } else {
        d
    }
}

pub open spec fn after_recovery(s: Seq<DjinnInstance>) -> Seq<DjinnInstance> {
    match recovery_candidate(s, s.len()) {
        Some(c) => s.update(c, recovered(s[c])),
        None => s,
    }
}

/// The djinn after one recovery tick.
pub open spec fn tick_slots(s: Seq<DjinnInstance>) -> Seq<DjinnInstance> {
    after_recovery(s).map_values(|d: DjinnInstance| count_down(d))
}

proof fn lemma_recovery_candidate(s: Seq<DjinnInstance>, n: nat)
    requires
        n <= s.len(),
    ensures
        recovery_candidate(s, n) matches Some(p) ==> 0 <= p < n && ready(s[p]),
    decreases n,
{
    if n > 0 {
        lemma_recovery_candidate(s, (n - 1) as nat);
    }
}

/// End-of-turn recovery tick. First, of the djinn that were already ready
/// (Recovery with 0 turns left), the one activated earliest returns to Good
/// (at most one per tick). Then every djinn still in Recovery with turns
/// left counts down by one.
pub fn tick_recovery(slots: &mut DjinnSlots, unit_ref: TargetRef) -> (events: Vec<DjinnStateChanged>)
    ensures
        final(slots).slots@ == tick_slots(old(slots).slots@),
        final(slots).next_activation_order == old(slots).next_activation_order,
        match recovery_candidate(old(slots).slots@, old(slots).slots@.len()) {
            Some(c) => events@ == seq![
                DjinnStateChanged {
                    djinn_id: old(slots).slots@[c].djinn_id,
                    unit: unit_ref,
                    old_state: DjinnState::Recovery,
                    new_state: DjinnState::Good,
                    recovery_turns: None,
                },
            ],
            None => events@.len() == 0,
        },
{
    let mut events: Vec<DjinnStateChanged> = Vec::new();
    let ghost s0 = slots.slots@;
    let mut cand: Option<usize> = None;
    let mut i: usize = 0;
    while i < slots.slots.len()
        invariant
            i <= slots.slots.len(),
            slots.slots@ == s0,
            slots.next_activation_order == old(slots).next_activation_order,
            match recovery_candidate(s0, i as nat) {
                Some(p) => cand == Some(p as usize),
                None => cand is None,
            },
        decreases slots.slots.len() - i,
    {
        proof {
            lemma_recovery_candidate(s0, i as nat);
        }
        let d = &slots.slots[i];
        let is_ready = match d.state {
            DjinnState::Recovery => d.recovery_turns_remaining == 0,
            DjinnState::Good => false,
        };
        if is_ready {
            match cand {
                None => {
                    cand = Some(i);
                },
                Some(c) => {
                    if d.activation_order < slots.slots[c].activation_order {
                        cand = Some(i);
                    }
                },
            }
        }
        i = i + 1;
    }
    proof {
        lemma_recovery_candidate(s0, s0.len());
    }
    if let Some(c) = cand {
        let id = slots.slots[c].djinn_id.clone();
        let turns = slots.slots[c].recovery_turns_remaining;
        slots.slots.set(
            c,
            DjinnInstance {
                djinn_id: id.clone(),
                state: DjinnState::Good,
                recovery_turns_remaining: turns,
                activation_order: 0,
            },
        );
        events.push(
            DjinnStateChanged {
                djinn_id: id,
                unit: unit_ref,
                old_state: DjinnState::Recovery,
                new_state: DjinnState::Good,
                recovery_turns: None,
            },
        );
        assert(events@ =~= seq![
            DjinnStateChanged {
                djinn_id: s0[c as int].djinn_id,
                unit: unit_ref,
                old_state: DjinnState::Recovery,
                new_state: DjinnState::Good,
                recovery_turns: None,
            },
        ]);
    }
    let ghost s1 = slots.slots@;
    assert(s1 == after_recovery(s0));
    let mut j: usize = 0;
    while j < slots.slots.len()
        invariant
            j <= slots.slots.len(),
            slots.slots@.len() == s1.len(),
            slots.next_activation_order == old(slots).next_activation_order,
            forall|m: int| 0 <= m < j ==> #[trigger] slots.slots@[m] == count_down(s1[m]),
            forall|m: int| j <= m < s1.len() ==> #[trigger] slots.slots@[m] == s1[m],
        decreases slots.slots.len() - j,
    {
        let d = &slots.slots[j];
        let waiting = match d.state {
            DjinnState::Recovery => d.recovery_turns_remaining > 0,
            DjinnState::Good => false,
        };
        if waiting {
            let id = d.djinn_id.clone();
            let st = d.state;
            let turns = d.recovery_turns_remaining - 1;
            let order = d.activation_order;
            slots.slots.set(
                j,
                DjinnInstance { djinn_id: id, state: st, recovery_turns_remaining: turns, activation_order: order },
            );
        }
        j = j + 1;
    }
    assert(slots.slots@ =~= s1.map_values(|d: DjinnInstance| count_down(d)));
    events
}

/// Countering is mutual: each element counters the one that counters it, and
/// no element counters itself.
pub proof fn lemma_counter_is_mutual(e: Element)
    ensures
        e.spec_counter().spec_counter() == e,
        e.spec_counter() != e,
{
}

/// A djinn's compatibility with a unit does not depend on which of the two
/// elements is the djinn's.
pub proof fn lemma_compatibility_symmetric(a: Element, b: Element)
    ensures
        spec_compatibility(a, b) == spec_compatibility(b, a),
{
}

/// The djinn after `k` recovery ticks.
pub open spec fn ticks(s: Seq<DjinnInstance>, k: nat) -> Seq<DjinnInstance>
    decreases k,
{
    if k == 0 {
        s
    } else {
        ticks(tick_slots(s), (k - 1) as nat)
    }
}

/// What a djinn still has to go through before it is Good: its turns left
/// and the tick that returns it, for a djinn in Recovery.
pub open spec fn recovery_weight(d: DjinnInstance) -> nat {
    if d.state == DjinnState::Recovery {
        d.recovery_turns_remaining as nat + 1
    } else {
        0
    }
}

/// The recovery still ahead of all the djinn.
pub open spec fn recovery_load(s: Seq<DjinnInstance>) -> nat
    decreases s.len(),
{
    if s.len() == 0 {
        0
    } else {
        recovery_load(s.drop_last()) + recovery_weight(s.last())
    }
}

/// Some djinn is in Recovery.
pub open spec fn any_recovering(s: Seq<DjinnInstance>) -> bool {
    exists|i: int| 0 <= i < s.len() && (#[trigger] s[i]).state == DjinnState::Recovery
}

proof fn lemma_load_zero(s: Seq<DjinnInstance>)
    ensures
        recovery_load(s) == 0 <==> !any_recovering(s),
    decreases s.len(),
{
    if s.len() > 0 {
        lemma_load_zero(s.drop_last());
        if any_recovering(s) {
            let i = choose|i: int| 0 <= i < s.len() && (#[trigger] s[i]).state == DjinnState::Recovery;
            if i < s.len() - 1 {
                assert(s.drop_last()[i].state == DjinnState::Recovery);
            }
        }
        if any_recovering(s.drop_last()) {
            let i = choose|i: int| 0 <= i < s.drop_last().len() && (#[trigger] s.drop_last()[i]).state == DjinnState::Recovery;
            assert(s[i].state == DjinnState::Recovery);
        }
        if s.last().state == DjinnState::Recovery {
            assert(s[s.len() - 1].state == DjinnState::Recovery);
        }
    }
}

proof fn lemma_load_update(s: Seq<DjinnInstance>, k: int, d: DjinnInstance)
    requires
        0 <= k < s.len(),
    ensures
        recovery_load(s.update(k, d)) + recovery_weight(s[k]) == recovery_load(s) + recovery_weight(d),
    decreases s.len(),
{
    if k < s.len() - 1 {
        assert(s.update(k, d).drop_last() =~= s.drop_last().update(k, d));
        lemma_load_update(s.drop_last(), k, d);
    } else {
        assert(s.update(k, d).drop_last() =~= s.drop_last());
    }
}

proof fn lemma_load_count_down(s: Seq<DjinnInstance>)
    ensures
        recovery_load(s.map_values(|d: DjinnInstance| count_down(d))) <= recovery_load(s),
        (exists|i: int| 0 <= i < s.len() && (#[trigger] s[i]).state == DjinnState::Recovery && s[i].recovery_turns_remaining > 0)
            ==> recovery_load(s.map_values(|d: DjinnInstance| count_down(d))) < recovery_load(s),
    decreases s.len(),
{
    if s.len() > 0 {
        let m = s.map_values(|d: DjinnInstance| count_down(d));
        assert(m.drop_last() =~= s.drop_last().map_values(|d: DjinnInstance| count_down(d)));
        lemma_load_count_down(s.drop_last());
        if exists|i: int| 0 <= i < s.len() && (#[trigger] s[i]).state == DjinnState::Recovery && s[i].recovery_turns_remaining > 0 {
            let i = choose|i: int| 0 <= i < s.len() && (#[trigger] s[i]).state == DjinnState::Recovery && s[i].recovery_turns_remaining > 0;
            if i < s.len() - 1 {
                assert(s.drop_last()[i].state == DjinnState::Recovery && s.drop_last()[i].recovery_turns_remaining > 0);
            }
        }
    }
}

proof fn lemma_candidate_exists(s: Seq<DjinnInstance>, n: nat, i: int)
    requires
        n <= s.len(),
        0 <= i < n,
        ready(s[i]),
    ensures
        recovery_candidate(s, n) is Some,
    decreases n,
{
    if i < n - 1 {
        lemma_candidate_exists(s, (n - 1) as nat, i);
    }
}

proof fn lemma_tick_lowers_load(s: Seq<DjinnInstance>)
    requires
        any_recovering(s),
    ensures
        recovery_load(tick_slots(s)) < recovery_load(s),
{
    let r = after_recovery(s);
    lemma_recovery_candidate(s, s.len());
    match recovery_candidate(s, s.len()) {
        Some(c) => {
            lemma_load_update(s, c, recovered(s[c]));
            lemma_load_count_down(r);
        },
        None => {
            let i = choose|i: int| 0 <= i < s.len() && (#[trigger] s[i]).state == DjinnState::Recovery;
            if s[i].recovery_turns_remaining == 0 {
                lemma_candidate_exists(s, s.len(), i);
            }
            assert(r[i].state == DjinnState::Recovery && r[i].recovery_turns_remaining > 0);
            lemma_load_count_down(r);
        },
    }
}

proof fn lemma_tick_settled(s: Seq<DjinnInstance>)
    requires
        !any_recovering(s),
    ensures
        tick_slots(s) == s,
{
    lemma_recovery_candidate(s, s.len());
    if recovery_candidate(s, s.len()) is Some {
        let c = recovery_candidate(s, s.len())->0;
        assert(s[c].state == DjinnState::Recovery);
    }
    assert(tick_slots(s) =~= s);
}

/// Staggered recovery ends: however the djinn stand, once as many ticks have
/// passed as their recovery load (for each djinn in Recovery, its turns left
/// plus one), every djinn is Good again, and stays so.
pub proof fn lemma_recovery_completes(s: Seq<DjinnInstance>, k: nat)
    requires
        k >= recovery_load(s),
    ensures
        !any_recovering(ticks(s, k)),
    decreases k,
{
    lemma_load_zero(s);
    if !any_recovering(s) {
        if k > 0 {
            lemma_tick_settled(s);
            lemma_recovery_completes(s, (k - 1) as nat);
        }
    } else {
        lemma_tick_lowers_load(s);
        lemma_recovery_completes(tick_slots(s), (k - 1) as nat);
    }
}

proof fn lemma_first_djinn_def(defs: Seq<DjinnDef>, id: Seq<char>, p: int, n: nat)
    requires
        0 <= p < defs.len(),
        n <= defs.len(),
        defs[p].id@ == id,
        forall|q: int| 0 <= q < p ==> defs[q].id@ != id,
    ensures
        find_djinn_def(defs, id, n) == if n > p { Some(p) } else { None::<int> },
    decreases n,
{
    if n > 0 {
        lemma_first_djinn_def(defs, id, p, (n - 1) as nat);
    }
}

/// One Good djinn whose first definition in `defs` is `defs[p]` gives
/// exactly that definition's stat bonus, HP included.
pub proof fn lemma_one_djinn_bonus(inst: DjinnInstance, defs: Seq<DjinnDef>, p: int)
    requires
        inst.state == DjinnState::Good,
        0 <= p < defs.len(),
        defs[p].id@ == inst.djinn_id@,
        forall|q: int| 0 <= q < p ==> defs[q].id@ != inst.djinn_id@,
        bonus_in_range(defs[p].stat_bonus),
    ensures
        djinn_bonus(seq![inst], defs, 1) == totals_of(defs[p].stat_bonus),
{
    lemma_first_djinn_def(defs, inst.djinn_id@, p, defs.len());
    let s = seq![inst];
    assert(s[0] == inst);
    assert(djinn_bonus(s, defs, 0) == zero_totals());
}

/// Two Good djinn, with first definitions `defs[p]` and `defs[q]`, give the
/// sum of the two definitions' stat bonuses, statistic by statistic, HP
/// included, where the sums stay within `[-999, 999]`; a djinn `r` in
/// recovery between them changes nothing.
pub proof fn lemma_two_djinn_bonus(a: DjinnInstance, b: DjinnInstance, r: DjinnInstance, defs: Seq<DjinnDef>, p: int, q: int)
    requires
        r.state != DjinnState::Good,
        a.state == DjinnState::Good,
        b.state == DjinnState::Good,
        0 <= p < defs.len(),
        0 <= q < defs.len(),
        defs[p].id@ == a.djinn_id@,
        defs[q].id@ == b.djinn_id@,
        forall|k: int| 0 <= k < p ==> defs[k].id@ != a.djinn_id@,
        forall|k: int| 0 <= k < q ==> defs[k].id@ != b.djinn_id@,
        bonus_in_range(defs[p].stat_bonus),
        bonus_in_range(defs[q].stat_bonus),
        sum_in_range(defs[p].stat_bonus, defs[q].stat_bonus),
    ensures
        djinn_bonus(seq![a, b], defs, 2) == (BonusTotals {
            atk: defs[p].stat_bonus.atk@ + defs[q].stat_bonus.atk@,
            def: defs[p].stat_bonus.def@ + defs[q].stat_bonus.def@,
            mag: defs[p].stat_bonus.mag@ + defs[q].stat_bonus.mag@,
            spd: defs[p].stat_bonus.spd@ + defs[q].stat_bonus.spd@,
            hp: defs[p].stat_bonus.hp@ + defs[q].stat_bonus.hp@,
        }),
        djinn_bonus(seq![a, r, b], defs, 3) == djinn_bonus(seq![a, b], defs, 2),
{
    lemma_first_djinn_def(defs, a.djinn_id@, p, defs.len());
    lemma_first_djinn_def(defs, b.djinn_id@, q, defs.len());
    let s = seq![a, b];
    assert(s[0] == a && s[1] == b);
    assert(djinn_bonus(s, defs, 0) == zero_totals());
    assert(djinn_bonus(s, defs, 1) == totals_of(defs[p].stat_bonus));
    let t = seq![a, r, b];
    assert(t[0] == a && t[1] == r && t[2] == b);
    assert(djinn_bonus(t, defs, 0) == zero_totals());
    assert(djinn_bonus(t, defs, 1) == totals_of(defs[p].stat_bonus));
    assert(djinn_bonus(t, defs, 2) == totals_of(defs[p].stat_bonus));
}

proof fn lemma_djinn_bonus_prefix(s: Seq<DjinnInstance>, r: DjinnInstance, defs: Seq<DjinnDef>, k: nat)
    requires
        k <= s.len(),
    ensures
        djinn_bonus(s.push(r), defs, k) == djinn_bonus(s, defs, k),
    decreases k,
{
    if k > 0 {
        lemma_djinn_bonus_prefix(s, r, defs, (k - 1) as nat);
        assert(s.push(r)[k - 1] == s[k - 1]);
    }
}

/// One more djinn in the slots: one in recovery, or without a definition in
/// `defs`, leaves the bonus as it was; a Good one with a definition adds that
/// definition's bonus to every statistic, HP included, each sum clamped into
/// `[-999, 999]`.
pub proof fn lemma_djinn_bonus_append(s: Seq<DjinnInstance>, r: DjinnInstance, defs: Seq<DjinnDef>)
    ensures
        ({
            let before = djinn_bonus(s, defs, s.len());
            let after = djinn_bonus(s.push(r), defs, s.len() + 1);
            &&& (r.state != DjinnState::Good || (forall|q: int| 0 <= q < defs.len() ==> defs[q].id@ != r.djinn_id@))
                ==> after == before
            &&& forall|p: int|
                #![trigger defs[p]]
                0 <= p < defs.len() && defs[p].id@ == r.djinn_id@ && (forall|q: int| 0 <= q < p ==> defs[q].id@ != r.djinn_id@)
                    && r.state == DjinnState::Good ==> after == (BonusTotals {
                    atk: clamp999(before.atk + defs[p].stat_bonus.atk@),
                    def: clamp999(before.def + defs[p].stat_bonus.def@),
                    mag: clamp999(before.mag + defs[p].stat_bonus.mag@),
                    spd: clamp999(before.spd + defs[p].stat_bonus.spd@),
                    hp: clamp999(before.hp + defs[p].stat_bonus.hp@),
                })
        }),
{
    lemma_djinn_bonus_prefix(s, r, defs, s.len());
    assert(s.push(r)[s.len() as int] == r);
    lemma_find_djinn_def(defs, r.djinn_id@, defs.len());
    assert forall|p: int|
        #![trigger defs[p]]
        0 <= p < defs.len() && defs[p].id@ == r.djinn_id@ && (forall|q: int| 0 <= q < p ==> defs[q].id@ != r.djinn_id@)
            && r.state == DjinnState::Good implies djinn_bonus(s.push(r), defs, s.len() + 1) == (BonusTotals {
            atk: clamp999(djinn_bonus(s, defs, s.len()).atk + defs[p].stat_bonus.atk@),
            def: clamp999(djinn_bonus(s, defs, s.len()).def + defs[p].stat_bonus.def@),
            mag: clamp999(djinn_bonus(s, defs, s.len()).mag + defs[p].stat_bonus.mag@),
            spd: clamp999(djinn_bonus(s, defs, s.len()).spd + defs[p].stat_bonus.spd@),
            hp: clamp999(djinn_bonus(s, defs, s.len()).hp + defs[p].stat_bonus.hp@),
        }) by {
        lemma_first_djinn_def(defs, r.djinn_id@, p, defs.len());
    }
}

} // verus!

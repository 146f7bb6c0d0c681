//! Random encounters: step threshold, deterministic weighted selection,
//! trigger limits, and boss preparation.
use vstd::prelude::*;

use crate::shared::{BossEncounter, DialogueTreeId, EncounterDef, EncounterSlot, EncounterTable, MapNodeId};

verus! {

/// An encounter check fires once `steps_since_last` reaches the table's base rate.
pub fn should_encounter(table: &EncounterTable, steps_since_last: u16) -> (r: bool)
    ensures
        r == (steps_since_last >= table.base_rate@),
{
    steps_since_last >= table.base_rate.get() as u16
}

/// A slot takes part in selection unless its trigger limit is exhausted (`Some(0)`).
pub open spec fn slot_active(slot: EncounterSlot) -> bool {
    slot.max_triggers != Some(0u8)
}

/// Sum of the weights of the active slots among the first `n`.
pub open spec fn active_weight(entries: Seq<EncounterSlot>, n: nat) -> nat
    decreases n,
{
    if n == 0 {
        0
    } else {
        active_weight(entries, (n - 1) as nat) + if slot_active(entries[n - 1]) {
            entries[n - 1].weight as nat
        } else {
            0nat
        }
    }
}

/// Position of the last active slot among the first `n`.
pub open spec fn last_active(entries: Seq<EncounterSlot>, n: nat) -> Option<int>
    decreases n,
{
    if n == 0 {
        None
    } else if slot_active(entries[n - 1]) {
        Some(n - 1)
    } else {
        last_active(entries, (n - 1) as nat)
    }
}

/// Walk the slots from position `i`, subtracting active weights from `pick`
/// until it falls within one.
pub open spec fn walk(entries: Seq<EncounterSlot>, i: int, pick: int) -> Option<int>
    decreases entries.len() - i,
{
    if i >= entries.len() || i < 0 {
        None
    } else if !slot_active(entries[i]) {
        walk(entries, i + 1, pick)
    } else if pick < entries[i].weight {
        Some(i)
    } else {
        walk(entries, i + 1, pick - entries[i].weight)
    }
}

/// Position of the selected slot.
pub open spec fn selected_pos(entries: Seq<EncounterSlot>, step_count: u16) -> Option<int> {
    let total = active_weight(entries, entries.len());
    if last_active(entries, entries.len()) is None || total == 0 {
        None
    } else {
        match walk(entries, 0, step_count as int % total as int) {
            Some(i) => Some(i),
            None => last_active(entries, entries.len()),
        }
    }
}

proof fn lemma_walk_bounds(entries: Seq<EncounterSlot>, i: int, pick: int)
    ensures
        walk(entries, i, pick) matches Some(p) ==> 0 <= p < entries.len(),
    decreases entries.len() - i,
{
    if 0 <= i < entries.len() {
        lemma_walk_bounds(entries, i + 1, pick);
        lemma_walk_bounds(entries, i + 1, pick - entries[i].weight);
    }
}

proof fn lemma_weight_monotone(entries: Seq<EncounterSlot>, n: nat, m: nat)
    requires
        n <= m,
    ensures
        active_weight(entries, n) <= active_weight(entries, m),
    decreases m - n,
{
    if m > n {
        lemma_weight_monotone(entries, n, (m - 1) as nat);
    }
}

proof fn lemma_last_active(entries: Seq<EncounterSlot>, n: nat)
    requires
        n <= entries.len(),
    ensures
        last_active(entries, n) matches Some(p) ==> 0 <= p < n,
    decreases n,
{
    if n > 0 {
        lemma_last_active(entries, (n - 1) as nat);
    }
}

/// Choose an encounter deterministically from `step_count`: among the active
/// slots (those whose trigger limit is not `Some(0)`), in table order, the one
/// on which `step_count % total_weight` falls. `None` when there is no active
/// slot or the active weights sum to 0.
pub fn select_encounter(table: &EncounterTable, step_count: u16) -> (r: Option<&EncounterDef>)
    requires
        active_weight(table.entries@, table.entries@.len()) <= u32::MAX,
    ensures
        match selected_pos(table.entries@, step_count) {
            Some(p) => r == Some(&table.entries@[p].encounter),
            None => r is None,
        },
{
    let entries = &table.entries;
    let mut total: u32 = 0;
    let mut last: Option<usize> = None;
    let mut i: usize = 0;
    while i < entries.len()
        invariant
            i <= entries.len(),
            entries@ == table.entries@,
            total == active_weight(entries@, i as nat),
            active_weight(entries@, entries@.len()) <= u32::MAX,
            match last_active(entries@, i as nat) {
                Some(p) => last == Some(p as usize),
                None => last is None,
            },
        decreases entries.len() - i,
    {
        proof {
            lemma_last_active(entries@, i as nat);
            lemma_weight_monotone(entries@, (i + 1) as nat, entries@.len());
        }
        let active = match entries[i].max_triggers {
            Some(t) => t != 0,
            None => true,
        };
        if active {
            total = total + entries[i].weight as u32;
            last = Some(i);
        }
        i = i + 1;
    }
    proof {
        lemma_last_active(entries@, entries@.len());
    }
    if last.is_none() || total == 0 {
        return None;
    }
    let mut pick: u32 = (step_count as u32) % total;
    let mut j: usize = 0;
    while j < entries.len()
        invariant
            j <= entries.len(),
            entries@ == table.entries@,
            total == active_weight(entries@, entries@.len()),
            total > 0,
            last_active(entries@, entries@.len()) is Some,
            walk(entries@, j as int, pick as int) == walk(entries@, 0, step_count as int % total as int),
        decreases entries.len() - j,
    {
        let slot = &entries[j];
        let active = match slot.max_triggers {
            Some(t) => t != 0,
            None => true,
        };
        if active {
            let w = slot.weight as u32;
            if pick < w {
                assert(walk(entries@, j as int, pick as int) == Some(j as int));
                assert(selected_pos(table.entries@, step_count) == Some(j as int));
                assert(table.entries@[j as int] == *slot);
                proof {
                    lemma_walk_bounds(entries@, 0, step_count as int % total as int);
                }
                return Some(&slot.encounter);
            }
            pick = pick - w;
        }
        j = j + 1;
    }
    match last {
        Some(l) => Some(&entries[l].encounter),
        None => None,
    }
}

/// Lower the remaining triggers of slot `encounter_idx` by one when it has a
/// positive finite limit; otherwise nothing changes.
pub fn decrement_slot(table: &mut EncounterTable, encounter_idx: usize)
    ensures
        final(table).region_id == old(table).region_id,
        final(table).base_rate == old(table).base_rate,
        final(table).entries@.len() == old(table).entries@.len(),
        forall|i: int| 0 <= i < old(table).entries@.len() && i != encounter_idx ==> #[trigger] final(table).entries@[i]
            == old(table).entries@[i],
        encounter_idx < old(table).entries@.len() ==> {
            let o = old(table).entries@[encounter_idx as int];
            let n = final(table).entries@[encounter_idx as int];
            &&& n.encounter == o.encounter
            &&& n.weight == o.weight
            &&& n.max_triggers == match o.max_triggers {
                Some(t) => Some(if t > 0 { (t - 1) as u8 } else { t }),
                None => None,
            }
        },
{
    if encounter_idx < table.entries.len() {
        let current = table.entries[encounter_idx].max_triggers;
        if let Some(t) = current {
            if t > 0 {
                table.entries[encounter_idx].max_triggers = Some(t - 1);
            }
        }
    }
}

/// Pre-battle dialogue, the encounter, and the map nodes its defeat unlocks.
pub fn prepare_boss(boss: &BossEncounter) -> (r: (Option<DialogueTreeId>, EncounterDef, Vec<MapNodeId>))
    ensures
        r.0 == boss.pre_dialogue,
        r.1@ == boss.encounter@,
        r.2@ == boss.unlock_on_defeat@,
{
    let nodes = boss.unlock_on_defeat.clone();
    assert(nodes@ =~= boss.unlock_on_defeat@);
    (boss.pre_dialogue, boss.encounter.clone(), nodes)
}

/// A slot's remaining triggers after `k` decrements.
pub open spec fn triggers_after(t: Option<u8>, k: nat) -> Option<u8>
    decreases k,
{
    if k == 0 {
        t
    } else {
        match triggers_after(t, (k - 1) as nat) {
            Some(r) => Some(if r > 0 { (r - 1) as u8 } else { r }),
            None => None,
        }
    }
}

/// A slot limited to `t` triggers takes part in selection for exactly `t`
/// triggers: it stays active while fewer than `t` were counted, and is
/// inactive from then on. A slot without a limit is always active.
pub proof fn lemma_trigger_limit(slot: EncounterSlot, k: nat)
    ensures
        slot.max_triggers matches Some(t) ==> (k < t ==> slot_active(EncounterSlot { max_triggers: triggers_after(slot.max_triggers, k), ..slot }))
            && (k >= t ==> !slot_active(EncounterSlot { max_triggers: triggers_after(slot.max_triggers, k), ..slot })),
        slot.max_triggers is None ==> slot_active(EncounterSlot { max_triggers: triggers_after(slot.max_triggers, k), ..slot }),
{
    match slot.max_triggers {
        Some(t) => {
            lemma_triggers_count(t, k);
        },
        None => {
            lemma_triggers_unlimited(k);
        },
    }
}

proof fn lemma_triggers_count(t: u8, k: nat)
    ensures
        triggers_after(Some(t), k) == Some((if k < t { t - k } else { 0 }) as u8),
    decreases k,
{
    if k > 0 {
        lemma_triggers_count(t, (k - 1) as nat);
    }
}

proof fn lemma_triggers_unlimited(k: nat)
    ensures
        triggers_after(None, k) is None,
    decreases k,
{
    if k > 0 {
        lemma_triggers_unlimited((k - 1) as nat);
    }
}

} // verus!

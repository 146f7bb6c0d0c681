//! Quests: the quest manager, stage queries, reward checking and availability.
//! Quest stages only move forward.
use vstd::prelude::*;

use crate::shared::{advanced, 
    clone_effects, effect_views, DialogueCondition, DialogueSideEffect, QuestDef, QuestFlagId,
    QuestStage, QuestState, SideEffectView,
};

verus! {

/// Quest progress together with the catalogue of quest definitions.
#[derive(Debug, Clone)]
pub struct QuestManager {
    pub state: QuestState,
    pub defs: Vec<QuestDef>,
}

/// Which quests a listing keeps.
#[derive(Debug, Clone, Copy, PartialEq, Eq, Structural)]
pub enum QuestListing {
    /// At least Active and not yet Rewarded.
    Active,
    /// Rewarded.
    Completed,
    /// Not yet discovered and unlockable.
    Available,
}

pub open spec fn reached(state: QuestState, id: QuestFlagId, stage: QuestStage) -> bool {
    state.stage(id).spec_rank() >= stage.spec_rank()
}

/// A condition as far as quest state can judge it: quest-stage conditions
/// are checked, all others count as met.
pub open spec fn quest_condition_holds(cond: DialogueCondition, state: QuestState) -> bool {
    match cond {
        DialogueCondition::QuestAtStage(id, stage) => reached(state, id, stage),
        _ => true,
    }
}

pub open spec fn spec_available(def: QuestDef, state: QuestState) -> bool {
    if reached(state, def.id, QuestStage::Discovered) {
        false
    } else if def.stages@.len() == 0 {
        true
    } else {
        match def.stages@[0].unlock_condition {
            None => true,
            Some(c) => quest_condition_holds(c, state),
        }
    }
}

pub open spec fn listed(def: QuestDef, state: QuestState, which: QuestListing) -> bool {
    match which {
        QuestListing::Active => reached(state, def.id, QuestStage::Active) && !reached(
            state,
            def.id,
            QuestStage::Rewarded,
        ),
        QuestListing::Completed => reached(state, def.id, QuestStage::Rewarded),
        QuestListing::Available => spec_available(def, state),
    }
}

/// The first `n` definitions kept by `which`, in order.
pub open spec fn listing(state: QuestState, defs: Seq<QuestDef>, which: QuestListing, n: nat) -> Seq<QuestDef>
    decreases n,
{
    if n == 0 {
        seq![]
    } else {
        let prev = listing(state, defs, which, (n - 1) as nat);
        if listed(defs[n - 1], state, which) {
            prev.push(defs[n - 1])
        } else {
            prev
        }
    }
}

/// `r` lists exactly `expected`.
pub open spec fn lists(r: Seq<&QuestDef>, expected: Seq<QuestDef>) -> bool {
    &&& r.len() == expected.len()
    &&& forall|i: int| 0 <= i < r.len() ==> *#[trigger] r[i] == expected[i]
}

fn evaluate_condition(cond: &DialogueCondition, state: &QuestState) -> (r: bool)
    ensures
        r == quest_condition_holds(*cond, *state),
{
    match cond {
        DialogueCondition::QuestAtStage(id, stage) => state.at_least(*id, *stage),
        _ => true,
    }
}

/// Not yet discovered, and the first stage's unlock condition (if any) holds.
pub fn is_quest_available(def: &QuestDef, state: &QuestState) -> (r: bool)
    ensures
        r == spec_available(*def, *state),
{
    if state.at_least(def.id, QuestStage::Discovered) {
        return false;
    }
    if def.stages.len() == 0 {
        return true;
    }
    match &def.stages[0].unlock_condition {
        None => true,
        Some(cond) => evaluate_condition(cond, state),
    }
}

fn is_listed(def: &QuestDef, state: &QuestState, which: QuestListing) -> (r: bool)
    ensures
        r == listed(*def, *state, which),
{
    match which {
        QuestListing::Active => state.at_least(def.id, QuestStage::Active) && !state.at_least(
            def.id,
            QuestStage::Rewarded,
        ),
        QuestListing::Completed => state.at_least(def.id, QuestStage::Rewarded),
        QuestListing::Available => is_quest_available(def, state),
    }
}

fn list_quests<'a>(state: &QuestState, defs: &'a [QuestDef], which: QuestListing) -> (r: Vec<&'a QuestDef>)
    ensures
        lists(r@, listing(*state, defs@, which, defs@.len())),
{
    let mut r: Vec<&'a QuestDef> = Vec::new();
    let mut i: usize = 0;
    while i < defs.len()
        invariant
            i <= defs.len(),
            lists(r@, listing(*state, defs@, which, i as nat)),
        decreases defs.len() - i,
    {
        if is_listed(&defs[i], state, which) {
            r.push(&defs[i]);
        }
        i = i + 1;
    }
    r
}

/// Advance quest `quest_id` to `stage` when that is strictly forward.
pub fn advance_quest(state: &mut QuestState, quest_id: QuestFlagId, stage: QuestStage)
    ensures
        forall|q: QuestFlagId| #[trigger] final(state).stage(q) == if q == quest_id && stage.spec_rank()
            > old(state).stage(quest_id).spec_rank() {
            stage
        } else {
            old(state).stage(q)
        },
        forall|q: QuestFlagId| #[trigger] final(state).stage(q).spec_rank() >= old(state).stage(q).spec_rank(),
        final(state).stage(quest_id).spec_rank() >= stage.spec_rank(),
        final(state).stage(quest_id) == advanced(old(state).stage(quest_id), stage),
{
    state.advance(quest_id, stage);
}

/// Stage of `quest_id` (`Unknown` when never advanced).
pub fn get_quest_stage(state: &QuestState, quest_id: QuestFlagId) -> (r: QuestStage)
    ensures
        r == state.stage(quest_id),
{
    state.get(quest_id)
}

/// Definitions whose quest is at least Active but not Rewarded, in order.
pub fn get_active_quests<'a>(state: &QuestState, defs: &'a [QuestDef]) -> (r: Vec<&'a QuestDef>)
    ensures
        lists(r@, listing(*state, defs@, QuestListing::Active, defs@.len())),
{
    list_quests(state, defs, QuestListing::Active)
}

/// Definitions whose quest is Rewarded, in order.
pub fn get_completed_quests<'a>(state: &QuestState, defs: &'a [QuestDef]) -> (r: Vec<&'a QuestDef>)
    ensures
        lists(r@, listing(*state, defs@, QuestListing::Completed, defs@.len())),
{
    list_quests(state, defs, QuestListing::Completed)
}

/// The rewards of `def` when its quest is Complete (not yet Rewarded), else `None`.
pub fn check_rewards(state: &QuestState, def: &QuestDef) -> (r: Option<Vec<DialogueSideEffect>>)
    ensures
        r is Some <==> state.stage(def.id) == QuestStage::Complete,
        r matches Some(v) ==> effect_views(v@) == effect_views(def.rewards@),
{
    let stage = get_quest_stage(state, def.id);
    match stage {
        QuestStage::Complete => Some(clone_effects(&def.rewards)),
        _ => None,
    }
}

impl QuestManager {
    /// No quest progress yet.
    pub fn new(defs: Vec<QuestDef>) -> (m: Self)
        ensures
            m.defs@ == defs@,
            forall|q: QuestFlagId| #[trigger] m.state.stage(q) == QuestStage::Unknown,
    {
        QuestManager { state: QuestState::default(), defs }
    }

    /// Advance a quest when strictly forward.
    pub fn advance(&mut self, quest_id: QuestFlagId, to: QuestStage)
        ensures
            final(self).defs == old(self).defs,
            forall|q: QuestFlagId| #[trigger] final(self).state.stage(q) == if q == quest_id && to.spec_rank()
                > old(self).state.stage(quest_id).spec_rank() {
                to
            } else {
                old(self).state.stage(q)
            },
    {
        self.state.advance(quest_id, to);
    }

    /// Stage of a quest (`Unknown` when never advanced).
    pub fn stage(&self, quest_id: QuestFlagId) -> (r: QuestStage)
        ensures
            r == self.state.stage(quest_id),
    {
        self.state.get(quest_id)
    }

    /// Definitions of quests at least Active and not Rewarded.
    pub fn active_quests(&self) -> (r: Vec<&QuestDef>)
        ensures
            lists(r@, listing(self.state, self.defs@, QuestListing::Active, self.defs@.len())),
    {
        get_active_quests(&self.state, self.defs.as_slice())
    }

    /// Definitions of Rewarded quests.
    pub fn completed_quests(&self) -> (r: Vec<&QuestDef>)
        ensures
            lists(r@, listing(self.state, self.defs@, QuestListing::Completed, self.defs@.len())),
    {
        get_completed_quests(&self.state, self.defs.as_slice())
    }

    /// Rewards of `def` when its quest is Complete.
    pub fn check_rewards(&self, def: &QuestDef) -> (r: Option<Vec<DialogueSideEffect>>)
        ensures
            r is Some <==> self.state.stage(def.id) == QuestStage::Complete,
            r matches Some(v) ==> effect_views(v@) == effect_views(def.rewards@),
    {
        check_rewards(&self.state, def)
    }

    /// Definitions of the quests the player can discover now.
    pub fn available_quests(&self) -> (r: Vec<&QuestDef>)
        ensures
            lists(r@, listing(self.state, self.defs@, QuestListing::Available, self.defs@.len())),
    {
        list_quests(&self.state, self.defs.as_slice(), QuestListing::Available)
    }

    /// Mark a Complete quest as Rewarded; false (nothing changes) otherwise.
    pub fn claim_rewards(&mut self, quest_id: QuestFlagId) -> (ok: bool)
        ensures
            ok == (old(self).state.stage(quest_id) == QuestStage::Complete),
            final(self).defs == old(self).defs,
            forall|q: QuestFlagId| #[trigger] final(self).state.stage(q) == if ok && q == quest_id {
                QuestStage::Rewarded
            } else {
                old(self).state.stage(q)
            },
    {
        let current = self.stage(quest_id);
        match current {
            QuestStage::Complete => {},
            _ => {
                return false;
            },
        }
        self.state.advance(quest_id, QuestStage::Rewarded);
        true
    }
}

/// Advancing never moves a quest back: the stage reached is at least the one
/// it was at and at least the one asked for.
pub proof fn lemma_advance_never_goes_back(current: QuestStage, to: QuestStage)
    ensures
        advanced(current, to).spec_rank() >= current.spec_rank(),
        advanced(current, to).spec_rank() >= to.spec_rank(),
{
}

/// Advancing a quest twice to one stage is advancing it once.
pub proof fn lemma_advance_idempotent(current: QuestStage, to: QuestStage)
    ensures
        advanced(advanced(current, to), to) == advanced(current, to),
{
}

/// The order in which a quest is advanced to two stages does not matter: it
/// ends at the further of the two (or where it was, if further still).
pub proof fn lemma_advance_order_free(current: QuestStage, a: QuestStage, b: QuestStage)
    ensures
        advanced(advanced(current, a), b) == advanced(advanced(current, b), a),
{
}

} // verus!

//! Towns: the town being visited, its NPCs, shops and exits, and the djinn
//! found there.
//!
//! Whether the player stands close enough to a djinn point is measured in
//! world coordinates by the caller; this module decides which point, if any,
//! yields a djinn.
use vstd::prelude::*;

use crate::shared::{
    DialogueTreeId, DjinnDiscoveryPoint, DjinnId, MapNodeId, NpcId, NpcPlacement, QuestStage,
    QuestState, ShopId, TownDef, TownId,
};

verus! {

#[derive(Debug, Clone)]
pub struct TownState {
    pub current_town: Option<TownId>,
    /// Djinn already found, each at most once.
    pub discovered_djinn: Vec<DjinnId>,
}

impl Default for TownState {
    fn default() -> (r: Self)
        ensures
            r.current_town is None,
            r.discovered_djinn@.len() == 0,
    {
        TownState { current_town: None, discovered_djinn: Vec::new() }
    }
}

/// The djinn found so far, by name.
pub open spec fn discovered_set(state: TownState) -> Set<Seq<char>> {
    state.discovered_djinn@.map_values(|d: DjinnId| d@).to_set()
}

pub fn load_town(def: &TownDef) -> (r: TownState)
    ensures
        r.current_town == Some(def.id),
        r.discovered_djinn@.len() == 0,
{
    TownState { current_town: Some(def.id), discovered_djinn: Vec::new() }
}

pub fn get_npcs(def: &TownDef) -> (r: &[NpcPlacement])
    ensures
        r@ == def.npcs@,
{
    def.npcs.as_slice()
}

/// Dialogue of the first NPC with the given id.
pub open spec fn npc_dialogue(npcs: Seq<NpcPlacement>, npc_id: NpcId) -> Option<DialogueTreeId>
    decreases npcs.len(),
{
    if npcs.len() == 0 {
        None
    } else if npcs[0].npc_id == npc_id {
        Some(npcs[0].dialogue_tree)
    } else {
        npc_dialogue(npcs.drop_first(), npc_id)
    }
}

pub fn get_npc_dialogue(def: &TownDef, npc_id: NpcId) -> (r: Option<DialogueTreeId>)
    ensures
        r == npc_dialogue(def.npcs@, npc_id),
{
    let mut i: usize = 0;
    assert(def.npcs@.skip(0) =~= def.npcs@);
    while i < def.npcs.len()
        invariant
            i <= def.npcs@.len(),
            npc_dialogue(def.npcs@, npc_id) == npc_dialogue(def.npcs@.skip(i as int), npc_id),
        decreases def.npcs@.len() - i,
    {
        assert(def.npcs@.skip(i as int).drop_first() =~= def.npcs@.skip(i + 1));
        if def.npcs[i].npc_id == npc_id {
            return Some(def.npcs[i].dialogue_tree);
        }
        i += 1;
    }
    None
}

pub fn get_shops(def: &TownDef) -> (r: &[ShopId])
    ensures
        r@ == def.shops@,
{
    def.shops.as_slice()
}

pub fn get_exits(def: &TownDef) -> (r: &[MapNodeId])
    ensures
        r@ == def.exits@,
{
    def.exits.as_slice()
}

fn is_discovered(state: &TownState, djinn_id: &DjinnId) -> (r: bool)
    ensures
        r == discovered_set(*state).contains(djinn_id@),
{
    let mut i: usize = 0;
    while i < state.discovered_djinn.len()
        invariant
            i <= state.discovered_djinn@.len(),
            forall|j: int| 0 <= j < i ==> (#[trigger] state.discovered_djinn@[j])@ != djinn_id@,
        decreases state.discovered_djinn@.len() - i,
    {
        if state.discovered_djinn[i].same_as(djinn_id) {
            proof {
                let s = state.discovered_djinn@.map_values(|d: DjinnId| d@);
                assert(s[i as int] == djinn_id@);
            }
            return true;
        }
        i += 1;
    }
    proof {
        let s = state.discovered_djinn@.map_values(|d: DjinnId| d@);
        if s.to_set().contains(djinn_id@) {
            let k = choose|k: int| 0 <= k < s.len() && s[k] == djinn_id@;
            assert(state.discovered_djinn@[k]@ == djinn_id@);
        }
    }
    false
}

/// A point yields its djinn when the djinn is not found yet and the point's
/// quest has come far enough: complete for a puzzle-gated point, active
/// otherwise.
pub open spec fn point_unlocked(point: DjinnDiscoveryPoint, state: TownState, quest_state: QuestState) -> bool {
    &&& !discovered_set(state).contains(point.djinn_id@)
    &&& match point.quest_flag {
        Some(flag) => quest_state.stage(flag).spec_rank() >= if point.requires_puzzle {
            QuestStage::Complete.spec_rank()
        } else {
            QuestStage::Active.spec_rank()
        },
        None => true,
    }
}

/// Whether `point` yields its djinn, the player being close enough.
pub fn djinn_point_unlocked(
    point: &DjinnDiscoveryPoint,
    state: &TownState,
    quest_state: &QuestState,
) -> (r: bool)
    ensures
        r == point_unlocked(*point, *state, *quest_state),
{
    if is_discovered(state, &point.djinn_id) {
        return false;
    }
    match point.quest_flag {
        Some(flag) => {
            let required = if point.requires_puzzle {
                QuestStage::Complete
            } else {
                QuestStage::Active
            };
            quest_state.at_least(flag, required)
        },
        None => true,
    }
}

/// The djinn of the first point that is in range and unlocked.
pub open spec fn first_discovery(
    points: Seq<DjinnDiscoveryPoint>,
    in_range: Seq<bool>,
    state: TownState,
    quest_state: QuestState,
) -> Option<DjinnId>
    decreases points.len(),
{
    if points.len() == 0 || in_range.len() == 0 {
        None
    } else if in_range[0] && point_unlocked(points[0], state, quest_state) {
        Some(points[0].djinn_id)
    } else {
        first_discovery(points.drop_first(), in_range.drop_first(), state, quest_state)
    }
}

/// The djinn found at the first of the town's points that the player is in
/// range of (`in_range[i]` for the `i`-th point) and that is unlocked.
pub fn check_djinn_discovery(
    def: &TownDef,
    state: &TownState,
    in_range: &[bool],
    quest_state: &QuestState,
) -> (r: Option<DjinnId>)
    ensures
        r == first_discovery(def.djinn_points@, in_range@, *state, *quest_state),
{
    let points = &def.djinn_points;
    let mut i: usize = 0;
    assert(points@.skip(0) =~= points@);
    assert(in_range@.skip(0) =~= in_range@);
    while i < points.len() && i < in_range.len()
        invariant
            first_discovery(points@, in_range@, *state, *quest_state) == first_discovery(
                points@.skip(i as int),
                in_range@.skip(i as int),
                *state,
                *quest_state,
            ),
            points@ == def.djinn_points@,
            i <= points@.len(),
            i <= in_range@.len(),
        decreases points@.len() - i,
    {
        assert(points@.skip(i as int).drop_first() =~= points@.skip(i + 1));
        assert(in_range@.skip(i as int).drop_first() =~= in_range@.skip(i + 1));
        assert(points@.skip(i as int)[0] == points@[i as int]);
        assert(in_range@.skip(i as int)[0] == in_range@[i as int]);
        if in_range[i] && djinn_point_unlocked(&points[i], state, quest_state) {
            let found = points[i].djinn_id.clone();
            return Some(found);
        }
        i += 1;
    }
    None
}

/// Record `djinn_id` as found; finding it again changes nothing.
pub fn discover_djinn(state: &mut TownState, djinn_id: DjinnId)
    ensures
        final(state).current_town == old(state).current_town,
        discovered_set(*final(state)) == discovered_set(*old(state)).insert(djinn_id@),
        discovered_set(*old(state)).contains(djinn_id@) ==> final(state).discovered_djinn@ == old(
            state,
        ).discovered_djinn@,
        !discovered_set(*old(state)).contains(djinn_id@) ==> final(state).discovered_djinn@ == old(
            state,
        ).discovered_djinn@.push(djinn_id),
{
    if !is_discovered(state, &djinn_id) {
        let ghost before = state.discovered_djinn@;
        let ghost id = djinn_id@;
        state.discovered_djinn.push(djinn_id);
        proof {
            let f = |d: DjinnId| d@;
            assert(state.discovered_djinn@.map_values(f) =~= before.map_values(f).push(id));
            before.map_values(f).lemma_push_to_set_commute(id);
        }
    } else {
        proof {
            let f = |d: DjinnId| d@;
            assert(state.discovered_djinn@.map_values(f).to_set() =~= state.discovered_djinn@.map_values(f).to_set().insert(djinn_id@));
        }
    }
}

} // verus!

//! Dialogue: tree traversal with conditional responses. Side effects are
//! handed back to the caller, never executed here.
use vstd::prelude::*;

use crate::shared::bounded_types::Gold;
use crate::shared::{
    clone_effects, effect_views, DialogueCondition, DialogueNode, DialogueNodeId, DialogueResponse,
    DialogueSideEffect, DialogueTree, DjinnId, ItemId, QuestFlagId, QuestStage, SideEffectView,
    UnitId,
};

verus! {

/// The game state as dialogue conditions see it; implemented by the game layer.
///
/// Each `spec fn` names the fact that the matching method reports. An
/// implementation defines the facts; the default bodies are there so that an
/// implementation need not write them, and verified code generic over the
/// context never relies on them.
pub trait ConditionContext {
    closed spec fn holds_item(&self, item: ItemId) -> bool {
        false
    }

    closed spec fn holds_djinn(&self, djinn: DjinnId) -> bool {
        false
    }

    closed spec fn quest_reached(&self, flag: QuestFlagId, stage: QuestStage) -> bool {
        false
    }

    closed spec fn gold_reaches(&self, amount: Gold) -> bool {
        false
    }

    closed spec fn in_party(&self, unit: UnitId) -> bool {
        false
    }

    fn has_item(&self, item: &ItemId) -> (r: bool)
        ensures
            r == self.holds_item(*item),
    ;

    fn has_djinn(&self, djinn: &DjinnId) -> (r: bool)
        ensures
            r == self.holds_djinn(*djinn),
    ;

    fn quest_at_stage(&self, flag: &QuestFlagId, stage: QuestStage) -> (r: bool)
        ensures
            r == self.quest_reached(*flag, stage),
    ;

    fn gold_at_least(&self, amount: Gold) -> (r: bool)
        ensures
            r == self.gold_reaches(amount),
    ;

    fn party_contains(&self, unit: &UnitId) -> (r: bool)
        ensures
            r == self.in_party(*unit),
    ;
}

pub open spec fn condition_holds<C: ConditionContext>(cond: DialogueCondition, ctx: &C) -> bool {
    match cond {
        DialogueCondition::HasItem(id) => ctx.holds_item(id),
        DialogueCondition::HasDjinn(id) => ctx.holds_djinn(id),
        DialogueCondition::QuestAtStage(flag, stage) => ctx.quest_reached(flag, stage),
        DialogueCondition::GoldAtLeast(amount) => ctx.gold_reaches(amount),
        DialogueCondition::PartyContains(unit) => ctx.in_party(unit),
    }
}

/// Ask the context whether `cond` holds.
pub fn evaluate_condition<C: ConditionContext>(cond: &DialogueCondition, ctx: &C) -> (r: bool)
    ensures
        r == condition_holds(*cond, ctx),
{
    match cond {
        DialogueCondition::HasItem(id) => ctx.has_item(id),
        DialogueCondition::HasDjinn(id) => ctx.has_djinn(id),
        DialogueCondition::QuestAtStage(flag, stage) => ctx.quest_at_stage(flag, *stage),
        DialogueCondition::GoldAtLeast(amount) => ctx.gold_at_least(*amount),
        DialogueCondition::PartyContains(unit) => ctx.party_contains(unit),
    }
}

/// Position in a conversation.
#[derive(Debug, Clone)]
pub struct DialogueRunner {
    /// The node being shown.
    pub current_node: DialogueNodeId,
    /// Nodes visited, in order, including the current one.
    pub history: Vec<DialogueNodeId>,
    /// `None` once the conversation is over.
    next_node: Option<DialogueNodeId>,
}

impl DialogueRunner {
    pub closed spec fn pending(&self) -> Option<DialogueNodeId> {
        self.next_node
    }

    pub closed spec fn current(&self) -> DialogueNodeId {
        self.current_node
    }

    pub closed spec fn visited(&self) -> Seq<DialogueNodeId> {
        self.history@
    }
}

/// Start at the root of `tree`.
pub fn start_dialogue(tree: &DialogueTree) -> (r: DialogueRunner)
    ensures
        r.current() == tree.root,
        r.visited() == seq![tree.root],
        r.pending() == Some(tree.root),
{
    let mut history: Vec<DialogueNodeId> = Vec::new();
    history.push(tree.root);
    assert(history@ =~= seq![tree.root]);
    DialogueRunner { current_node: tree.root, history, next_node: Some(tree.root) }
}

/// Position of the first node with id `id` among the first `n`.
pub open spec fn node_pos(nodes: Seq<DialogueNode>, id: DialogueNodeId, n: nat) -> Option<int>
    decreases n,
{
    if n == 0 {
        None
    } else {
        match node_pos(nodes, id, (n - 1) as nat) {
            Some(p) => Some(p),
            None => if nodes[n - 1].id == id { Some(n - 1) } else { None },
        }
    }
}

pub open spec fn has_node(tree: DialogueTree, id: DialogueNodeId) -> bool {
    node_pos(tree.nodes@, id, tree.nodes@.len()) is Some
}

/// The (first) node of `tree` with id `id`.
pub open spec fn node_of(tree: DialogueTree, id: DialogueNodeId) -> DialogueNode {
    tree.nodes@[node_pos(tree.nodes@, id, tree.nodes@.len()).unwrap()]
}

proof fn lemma_node_pos(nodes: Seq<DialogueNode>, id: DialogueNodeId, n: nat)
    requires
        n <= nodes.len(),
    ensures
        node_pos(nodes, id, n) matches Some(p) ==> 0 <= p < n && nodes[p].id == id,
    decreases n,
{
    if n > 0 {
        lemma_node_pos(nodes, id, (n - 1) as nat);
    }
}

proof fn lemma_node_pos_stays(nodes: Seq<DialogueNode>, id: DialogueNodeId, n: nat, m: nat)
    requires
        n <= m,
        node_pos(nodes, id, n) is Some,
    ensures
        node_pos(nodes, id, m) == node_pos(nodes, id, n),
    decreases m - n,
{
    if m > n {
        lemma_node_pos_stays(nodes, id, n, (m - 1) as nat);
    }
}

/// The node being shown. It must exist in the tree.
pub fn get_current_node<'t>(runner: &DialogueRunner, tree: &'t DialogueTree) -> (node: &'t DialogueNode)
    requires
        has_node(*tree, runner.current()),
    ensures
        *node == node_of(*tree, runner.current()),
{
    proof {
        lemma_node_pos(tree.nodes@, runner.current(), tree.nodes@.len());
    }
    let mut i: usize = 0;
    while i < tree.nodes.len()
        invariant
            i <= tree.nodes.len(),
            has_node(*tree, runner.current()),
            node_pos(tree.nodes@, runner.current(), i as nat) is None,
        decreases tree.nodes.len() - i,
    {
        if tree.nodes[i].id == runner.current_node {
            proof {
                lemma_node_pos_stays(tree.nodes@, runner.current(), (i + 1) as nat, tree.nodes@.len());
            }
            return &tree.nodes[i];
        }
        i = i + 1;
    }
    proof {
        assert(node_pos(tree.nodes@, runner.current(), tree.nodes@.len()) is None);
    }
    &tree.nodes[0]
}

/// The first `n` responses of `node` whose condition, if any, holds, with their indices.
pub open spec fn open_responses<C: ConditionContext>(node: DialogueNode, ctx: &C, n: nat) -> Seq<(usize, DialogueResponse)>
    decreases n,
{
    if n == 0 {
        seq![]
    } else {
        let prev = open_responses(node, ctx, (n - 1) as nat);
        let r = node.responses@[n - 1];
        let open = match r.condition {
            Some(c) => condition_holds(c, ctx),
            None => true,
        };
        if open {
            prev.push(((n - 1) as usize, r))
        } else {
            prev
        }
    }
}

/// `(index, response)` pairs of the current node whose condition (if any) holds.
pub fn get_available_responses<'t, C: ConditionContext>(
    runner: &DialogueRunner,
    tree: &'t DialogueTree,
    ctx: &C,
) -> (r: Vec<(usize, &'t DialogueResponse)>)
    requires
        has_node(*tree, runner.current()),
    ensures
        ({
            let node = node_of(*tree, runner.current());
            let expected = open_responses(node, ctx, node.responses@.len());
            &&& r@.len() == expected.len()
            &&& forall|i: int| 0 <= i < r@.len() ==> #[trigger] r@[i].0 == expected[i].0 && *r@[i].1 == expected[i].1
        }),
{
    let node = get_current_node(runner, tree);
    let mut r: Vec<(usize, &'t DialogueResponse)> = Vec::new();
    let mut i: usize = 0;
    while i < node.responses.len()
        invariant
            i <= node.responses.len(),
            r@.len() == open_responses(*node, ctx, i as nat).len(),
            forall|k: int| 0 <= k < r@.len() ==> #[trigger] r@[k].0 == open_responses(*node, ctx, i as nat)[k].0
                && *r@[k].1 == open_responses(*node, ctx, i as nat)[k].1,
        decreases node.responses.len() - i,
    {
        let resp = &node.responses[i];
        let open = match &resp.condition {
            Some(c) => evaluate_condition(c, ctx),
            None => true,
        };
        if open {
            r.push((i, resp));
        }
        i = i + 1;
    }
    r
}

/// Choose response `response_index` of the current node. Returns where it
/// leads and its side effects. When it leads to a node, that node becomes
/// current and is added to the history; when it leads nowhere the
/// conversation is over.
pub fn choose_response(
    runner: &mut DialogueRunner,
    tree: &DialogueTree,
    response_index: usize,
) -> (r: (Option<DialogueNodeId>, Vec<DialogueSideEffect>))
    requires
        has_node(*tree, old(runner).current()),
        response_index < node_of(*tree, old(runner).current()).responses@.len(),
    ensures
        ({
            let resp = node_of(*tree, old(runner).current()).responses@[response_index as int];
            &&& r.0 == resp.next_node
            &&& effect_views(r.1@) == effect_views(resp.side_effects@)
            &&& final(runner).pending() == resp.next_node
            &&& match resp.next_node {
                Some(id) => final(runner).current() == id && final(runner).visited() == old(
                    runner,
                ).visited().push(id),
                None => final(runner).current() == old(runner).current() && final(runner).visited()
                    == old(runner).visited(),
            }
        }),
{
    let node = get_current_node(runner, tree);
    let response = &node.responses[response_index];
    let side_effects = clone_effects(&response.side_effects);
    let next = response.next_node;
    runner.next_node = next;
    if let Some(id) = next {
        runner.current_node = id;
        runner.history.push(id);
    }
    (next, side_effects)
}

/// The conversation is over: the last chosen response led nowhere.
pub fn is_finished(runner: &DialogueRunner) -> (r: bool)
    ensures
        r == (runner.pending() is None),
{
    runner.next_node.is_none()
}

} // verus!

//! Dungeon navigation: current room, visited rooms, one-time item pickups,
//! encounter triggering with trigger limits, and conditional exits.
use vstd::prelude::*;

use crate::shared::bounded_types::Gold;
use crate::shared::{
    DialogueCondition, Direction, DjinnId, DungeonDef, EncounterDef, EncounterDefView, ItemId,
    PuzzleDef, QuestFlagId, QuestStage, RoomDef, RoomId, UnitId,
};

verus! {

// ── Condition evaluation ────────────────────────────────────────────

/// The game state as exit conditions see it; implemented by the game layer.
///
/// Each `spec fn` names the fact that the matching method reports. An
/// implementation defines the facts; the default bodies are there so that an
/// implementation need not write them, and verified code generic over the
/// context never relies on them.
pub trait ConditionContext {
    closed spec fn holds_item(&self, item: ItemId) -> bool {
        false
    }

    closed spec fn holds_djinn(&self, djinn: DjinnId) -> bool {
        false
    }

    closed spec fn quest_reached(&self, flag: QuestFlagId, stage: QuestStage) -> bool {
        false
    }

    closed spec fn gold_reaches(&self, amount: Gold) -> bool {
        false
    }

    closed spec fn in_party(&self, unit: UnitId) -> bool {
        false
    }

    fn has_item(&self, item: &ItemId) -> (r: bool)
        ensures
            r == self.holds_item(*item),
    ;

    fn has_djinn(&self, djinn: &DjinnId) -> (r: bool)
        ensures
            r == self.holds_djinn(*djinn),
    ;

    fn quest_at_stage(&self, flag: &QuestFlagId, stage: QuestStage) -> (r: bool)
        ensures
            r == self.quest_reached(*flag, stage),
    ;

    fn gold_at_least(&self, amount: Gold) -> (r: bool)
        ensures
            r == self.gold_reaches(amount),
    ;

    fn party_contains(&self, unit: &UnitId) -> (r: bool)
        ensures
            r == self.in_party(*unit),
    ;
}

pub open spec fn condition_holds<C: ConditionContext>(cond: DialogueCondition, ctx: &C) -> bool {
    match cond {
        DialogueCondition::HasItem(id) => ctx.holds_item(id),
        DialogueCondition::HasDjinn(id) => ctx.holds_djinn(id),
        DialogueCondition::QuestAtStage(flag, stage) => ctx.quest_reached(flag, stage),
        DialogueCondition::GoldAtLeast(amount) => ctx.gold_reaches(amount),
        DialogueCondition::PartyContains(unit) => ctx.in_party(unit),
    }
}

fn evaluate_condition<C: ConditionContext>(cond: &DialogueCondition, ctx: &C) -> (r: bool)
    ensures
        r == condition_holds(*cond, ctx),
{
    match cond {
        DialogueCondition::HasItem(id) => ctx.has_item(id),
        DialogueCondition::HasDjinn(id) => ctx.has_djinn(id),
        DialogueCondition::QuestAtStage(flag, stage) => ctx.quest_at_stage(flag, *stage),
        DialogueCondition::GoldAtLeast(amount) => ctx.gold_at_least(*amount),
        DialogueCondition::PartyContains(unit) => ctx.party_contains(unit),
    }
}

// ── Errors ──────────────────────────────────────────────────────────

#[derive(Debug, Clone, PartialEq, Eq, Structural)]
pub enum DungeonError {
    /// No exit of the current room leads to this room.
    NoExitToRoom(RoomId),
    /// The dungeon has no room with this id.
    RoomNotFound(RoomId),
}

// ── State ───────────────────────────────────────────────────────────

/// Navigation state inside one dungeon.
#[derive(Debug, Clone)]
pub struct DungeonState {
    /// The room the player is in.
    pub current_room: RoomId,
    /// Rooms entered so far (including the current one), each listed once.
    pub visited_rooms: Vec<RoomId>,
    /// One-time items picked up, as `(room, item index)`, each listed once.
    pub collected_items: Vec<(RoomId, usize)>,
    /// Times each encounter slot `(room, slot index)` has been triggered.
    pub encounter_counts: Vec<((RoomId, usize), u8)>,
}

/// Position of the first room with id `id` among the first `n` rooms.
pub open spec fn room_pos(rooms: Seq<RoomDef>, id: RoomId, n: nat) -> Option<int>
    decreases n,
{
    if n == 0 {
        None
    } else {
        match room_pos(rooms, id, (n - 1) as nat) {
            Some(p) => Some(p),
            None => if rooms[n - 1].id == id { Some(n - 1) } else { None },
        }
    }
}

pub open spec fn has_room(def: DungeonDef, id: RoomId) -> bool {
    room_pos(def.rooms@, id, def.rooms@.len()) is Some
}

/// The definition of room `id` (the first one with that id).
pub open spec fn room_of(def: DungeonDef, id: RoomId) -> RoomDef {
    def.rooms@[room_pos(def.rooms@, id, def.rooms@.len()).unwrap()]
}

proof fn lemma_room_pos(rooms: Seq<RoomDef>, id: RoomId, n: nat)
    requires
        n <= rooms.len(),
    ensures
        room_pos(rooms, id, n) matches Some(p) ==> 0 <= p < n && rooms[p].id == id,
        room_pos(rooms, id, n) is None ==> forall|i: int| 0 <= i < n ==> rooms[i].id != id,
    decreases n,
{
    if n > 0 {
        lemma_room_pos(rooms, id, (n - 1) as nat);
    }
}

proof fn lemma_room_pos_stays(rooms: Seq<RoomDef>, id: RoomId, n: nat, m: nat)
    requires
        n <= m,
        room_pos(rooms, id, n) is Some,
    ensures
        room_pos(rooms, id, m) == room_pos(rooms, id, n),
    decreases m - n,
{
    if m > n {
        lemma_room_pos_stays(rooms, id, n, (m - 1) as nat);
    }
}

/// Start at the entry room, which counts as visited.
pub fn enter_dungeon(def: &DungeonDef) -> (s: DungeonState)
    ensures
        s.current_room == def.entry_room,
        s.visited_rooms@ == seq![def.entry_room],
        s.collected_items@.len() == 0,
        s.encounter_counts@.len() == 0,
{
    let entry = def.entry_room;
    let mut visited: Vec<RoomId> = Vec::new();
    visited.push(entry);
    assert(visited@ =~= seq![entry]);
    DungeonState {
        current_room: entry,
        visited_rooms: visited,
        collected_items: Vec::new(),
        encounter_counts: Vec::new(),
    }
}

fn find_room(def: &DungeonDef, id: RoomId) -> (r: Option<usize>)
    ensures
        r matches Some(i) ==> room_pos(def.rooms@, id, def.rooms@.len()) == Some(i as int),
        r is None <==> room_pos(def.rooms@, id, def.rooms@.len()) is None,
{
    let mut i: usize = 0;
    while i < def.rooms.len()
        invariant
            i <= def.rooms.len(),
            room_pos(def.rooms@, id, i as nat) is None,
        decreases def.rooms.len() - i,
    {
        if def.rooms[i].id == id {
            proof {
                lemma_room_pos_stays(def.rooms@, id, (i + 1) as nat, def.rooms@.len());
            }
            return Some(i);
        }
        i = i + 1;
    }
    None
}

/// The definition of the current room. The current room must exist in the
/// dungeon definition (a missing room is a corrupted definition).
pub fn get_current_room<'d>(state: &DungeonState, def: &'d DungeonDef) -> (room: &'d RoomDef)
    requires
        has_room(*def, state.current_room),
    ensures
        *room == room_of(*def, state.current_room),
{
    proof {
        lemma_room_pos(def.rooms@, state.current_room, def.rooms@.len());
    }
    let p = find_room(def, state.current_room);
    match p {
        Some(i) => {
            assert(def.rooms@[i as int] == room_of(*def, state.current_room));
            &def.rooms[i]
        },
        None => &def.rooms[0],
    }
}

/// The `(direction, target)` of the first `n` exits whose condition, if any, holds.
pub open spec fn open_exits<C: ConditionContext>(room: RoomDef, ctx: &C, n: nat) -> Seq<(Direction, RoomId)>
    decreases n,
{
    if n == 0 {
        seq![]
    } else {
        let prev = open_exits(room, ctx, (n - 1) as nat);
        let e = room.exits@[n - 1];
        let open = match e.requires {
            Some(c) => condition_holds(c, ctx),
            None => true,
        };
        if open {
            prev.push((e.direction, e.target_room))
        } else {
            prev
        }
    }
}

/// Exits of the current room whose condition (if any) holds, in order.
pub fn get_available_exits<C: ConditionContext>(
    state: &DungeonState,
    def: &DungeonDef,
    ctx: &C,
) -> (exits: Vec<(Direction, RoomId)>)
    requires
        has_room(*def, state.current_room),
    ensures
        ({
            let room = room_of(*def, state.current_room);
            exits@ == open_exits(room, ctx, room.exits@.len())
        }),
{
    let room = get_current_room(state, def);
    let mut exits: Vec<(Direction, RoomId)> = Vec::new();
    let mut i: usize = 0;
    while i < room.exits.len()
        invariant
            i <= room.exits.len(),
            exits@ == open_exits(*room, ctx, i as nat),
        decreases room.exits.len() - i,
    {
        let e = &room.exits[i];
        let open = match &e.requires {
            Some(c) => evaluate_condition(c, ctx),
            None => true,
        };
        if open {
            exits.push((e.direction, e.target_room));
        }
        i = i + 1;
    }
    exits
}

pub open spec fn exit_leads_to(room: RoomDef, id: RoomId) -> bool {
    exists|i: int| 0 <= i < room.exits@.len() && room.exits@[i].target_room == id
}

/// Move to `room_id`. Fails with `NoExitToRoom` when no exit of the current
/// room (whatever its condition) leads there, then with `RoomNotFound` when the
/// dungeon has no such room; on failure nothing changes. On success the room
/// becomes current and is recorded as visited (once).
pub fn move_to_room(state: &mut DungeonState, def: &DungeonDef, room_id: RoomId) -> (r: Result<(), DungeonError>)
    requires
        has_room(*def, old(state).current_room),
    ensures
        !exit_leads_to(room_of(*def, old(state).current_room), room_id) ==> r == Err::<(), DungeonError>(
            DungeonError::NoExitToRoom(room_id),
        ),
        exit_leads_to(room_of(*def, old(state).current_room), room_id) && !has_room(*def, room_id) ==> r
            == Err::<(), DungeonError>(DungeonError::RoomNotFound(room_id)),
        r is Ok <==> exit_leads_to(room_of(*def, old(state).current_room), room_id) && has_room(*def, room_id),
        r is Err ==> *final(state) == *old(state),
        r is Ok ==> {
            &&& final(state).current_room == room_id
            &&& final(state).visited_rooms@ == (if old(state).visited_rooms@.contains(room_id) {
                old(state).visited_rooms@
            } else {
                old(state).visited_rooms@.push(room_id)
            })
            &&& final(state).collected_items == old(state).collected_items
            &&& final(state).encounter_counts == old(state).encounter_counts
        },
{
    let room = get_current_room(state, def);
    let mut i: usize = 0;
    let mut exit_exists = false;
    while i < room.exits.len()
        invariant
            i <= room.exits.len(),
            exit_exists == (exists|k: int| 0 <= k < i && room.exits@[k].target_room == room_id),
        decreases room.exits.len() - i,
    {
        if room.exits[i].target_room == room_id {
            exit_exists = true;
        }
        i = i + 1;
    }
    if !exit_exists {
        return Err(DungeonError::NoExitToRoom(room_id));
    }
    if find_room(def, room_id).is_none() {
        return Err(DungeonError::RoomNotFound(room_id));
    }
    state.current_room = room_id;
    let mut j: usize = 0;
    let mut seen = false;
    while j < state.visited_rooms.len()
        invariant
            j <= state.visited_rooms.len(),
            seen == (exists|k: int| 0 <= k < j && state.visited_rooms@[k] == room_id),
        decreases state.visited_rooms.len() - j,
    {
        if state.visited_rooms[j] == room_id {
            seen = true;
        }
        j = j + 1;
    }
    if !seen {
        state.visited_rooms.push(room_id);
    }
    Ok(())
}

/// Pick up the item at `item_index` of the current room. Returns it the first
/// time; `None` (nothing changes) when it was already collected or the index
/// is out of range.
pub fn collect_item(state: &mut DungeonState, def: &DungeonDef, item_index: usize) -> (r: Option<ItemId>)
    requires
        has_room(*def, old(state).current_room),
    ensures
        ({
            let room = room_of(*def, old(state).current_room);
            let key = (room.id, item_index);
            let ok = !old(state).collected_items@.contains(key) && item_index < room.items@.len();
            &&& r is Some <==> ok
            &&& ok ==> r == Some(room.items@[item_index as int].item_id)
                && final(state).collected_items@ == old(state).collected_items@.push(key)
            &&& !ok ==> final(state).collected_items == old(state).collected_items
        }),
        final(state).current_room == old(state).current_room,
        final(state).visited_rooms == old(state).visited_rooms,
        final(state).encounter_counts == old(state).encounter_counts,
{
    let room = get_current_room(state, def);
    let key = (room.id, item_index);
    let mut j: usize = 0;
    while j < state.collected_items.len()
        invariant
            j <= state.collected_items.len(),
            *state == *old(state),
            *room == room_of(*def, old(state).current_room),
            key == (room.id, item_index),
            forall|k: int| 0 <= k < j ==> state.collected_items@[k] != key,
        decreases state.collected_items.len() - j,
    {
        let c = state.collected_items[j];
        if c.0 == key.0 && c.1 == key.1 {
            assert(state.collected_items@[j as int] == key);
            assert(state.collected_items@.contains(key));
            return None;
        }
        j = j + 1;
    }
    if item_index >= room.items.len() {
        return None;
    }
    let item_id = room.items[item_index].item_id.clone();
    state.collected_items.push(key);
    Some(item_id)
}

/// Times slot `key` was triggered, if it has an entry.
pub open spec fn count_entry(counts: Seq<((RoomId, usize), u8)>, key: (RoomId, usize)) -> Option<int>
    decreases counts.len(),
{
    if counts.len() == 0 {
        None
    } else {
        match count_entry(counts.drop_last(), key) {
            Some(p) => Some(p),
            None => if counts.last().0 == key { Some(counts.len() - 1) } else { None },
        }
    }
}

proof fn lemma_count_entry(counts: Seq<((RoomId, usize), u8)>, key: (RoomId, usize))
    ensures
        count_entry(counts, key) matches Some(p) ==> 0 <= p < counts.len() && counts[p].0 == key,
        count_entry(counts, key) is None ==> forall|i: int| 0 <= i < counts.len() ==> counts[i].0 != key,
    decreases counts.len(),
{
    if counts.len() > 0 {
        lemma_count_entry(counts.drop_last(), key);
        if count_entry(counts, key) is None {
            assert forall|i: int| 0 <= i < counts.len() implies counts[i].0 != key by {
                if i < counts.len() - 1 {
                    assert(counts.drop_last()[i] == counts[i]);
                }
            }
        }
    }
}

proof fn lemma_count_entry_prefix(counts: Seq<((RoomId, usize), u8)>, key: (RoomId, usize), n: int)
    requires
        0 <= n <= counts.len(),
        count_entry(counts.take(n), key) is Some,
    ensures
        count_entry(counts, key) == count_entry(counts.take(n), key),
    decreases counts.len() - n,
{
    if n < counts.len() {
        assert(counts.take(n + 1).drop_last() =~= counts.take(n));
        lemma_count_entry_prefix(counts, key, n + 1);
    } else {
        assert(counts.take(n) =~= counts);
    }
}

/// Current trigger count of slot `key` (0 without an entry).
pub open spec fn times_triggered(counts: Seq<((RoomId, usize), u8)>, key: (RoomId, usize)) -> int {
    match count_entry(counts, key) {
        Some(p) => counts[p].1 as int,
        None => 0,
    }
}

/// The slot cannot trigger again: its limit is reached.
pub open spec fn exhausted(max_triggers: Option<u8>, count: int) -> bool {
    match max_triggers {
        Some(max) => count >= max,
        None => false,
    }
}

/// The trigger counts after slot `key` is recorded with count `value`.
pub open spec fn set_count(counts: Seq<((RoomId, usize), u8)>, key: (RoomId, usize), value: u8) -> Seq<((RoomId, usize), u8)> {
    match count_entry(counts, key) {
        Some(p) => counts.update(p, (key, value)),
        None => counts.push((key, value)),
    }
}

fn find_count(counts: &Vec<((RoomId, usize), u8)>, key: (RoomId, usize)) -> (r: Option<usize>)
    ensures
        r matches Some(i) ==> count_entry(counts@, key) == Some(i as int),
        r is None <==> count_entry(counts@, key) is None,
{
    let mut i: usize = 0;
    while i < counts.len()
        invariant
            i <= counts.len(),
            count_entry(counts@.take(i as int), key) is None,
        decreases counts.len() - i,
    {
        let c = counts[i];
        assert(counts@.take(i + 1).drop_last() =~= counts@.take(i as int));
        if c.0.0 == key.0 && c.0.1 == key.1 {
            assert(counts@.take(i + 1).last() == c);
            proof {
                lemma_count_entry_prefix(counts@, key, i + 1);
            }
            return Some(i);
        }
        i = i + 1;
    }
    assert(counts@.take(i as int) =~= counts@);
    None
}

/// What triggering slot `slot_index` of the current room does, from state
/// `a` to state `b` with result `r` (see `trigger_encounter`).
pub open spec fn trigger_outcome(
    def: DungeonDef,
    slot_index: usize,
    a: DungeonState,
    b: DungeonState,
    r: Option<EncounterDef>,
) -> bool {
    let room = room_of(def, a.current_room);
    let key = (room.id, slot_index);
    let count = times_triggered(a.encounter_counts@, key);
    &&& if slot_index >= room.encounters@.len() {
        &&& r is None
        &&& b.encounter_counts == a.encounter_counts
    } else {
        let slot = room.encounters@[slot_index as int];
        if exhausted(slot.max_triggers, count) {
            &&& r is None
            &&& b.encounter_counts@ == set_count(a.encounter_counts@, key, count as u8)
        } else {
            &&& r matches Some(e) && e@ == slot.encounter@
            &&& b.encounter_counts@ == set_count(a.encounter_counts@, key, (count + 1) as u8)
        }
    }
    &&& b.current_room == a.current_room
    &&& b.visited_rooms == a.visited_rooms
    &&& b.collected_items == a.collected_items
}

/// How many of the results are encounters.
pub open spec fn encounters_given(rs: Seq<Option<EncounterDef>>) -> nat
    decreases rs.len(),
{
    if rs.len() == 0 {
        0
    } else {
        encounters_given(rs.drop_last()) + if rs.last() is Some { 1nat } else { 0nat }
    }
}

proof fn lemma_count_entry_keys(a: Seq<((RoomId, usize), u8)>, b: Seq<((RoomId, usize), u8)>, key: (RoomId, usize))
    requires
        a.len() == b.len(),
        forall|i: int| 0 <= i < a.len() ==> (#[trigger] a[i]).0 == b[i].0,
    ensures
        count_entry(a, key) == count_entry(b, key),
    decreases a.len(),
{
    if a.len() > 0 {
        assert forall|i: int| 0 <= i < a.drop_last().len() implies (#[trigger] a.drop_last()[i]).0 == b.drop_last()[i].0 by {
            assert(a.drop_last()[i] == a[i]);
            assert(b.drop_last()[i] == b[i]);
        }
        lemma_count_entry_keys(a.drop_last(), b.drop_last(), key);
    }
}

proof fn lemma_set_count(counts: Seq<((RoomId, usize), u8)>, key: (RoomId, usize), value: u8)
    ensures
        times_triggered(set_count(counts, key, value), key) == value,
{
    lemma_count_entry(counts, key);
    match count_entry(counts, key) {
        Some(p) => {
            let c2 = counts.update(p, (key, value));
            assert forall|i: int| 0 <= i < counts.len() implies (#[trigger] counts[i]).0 == c2[i].0 by {}
            lemma_count_entry_keys(counts, c2, key);
        },
        None => {
            let c2 = counts.push((key, value));
            assert(c2.drop_last() =~= counts);
        },
    }
}

/// Triggering one slot again and again, with `states` the dungeon before and
/// after each trigger and `rs` what each trigger gave: a slot limited to `m`
/// triggers gives an encounter at most `m` times in all, fewer by the times
/// it was already counted, and its count goes up by one for each encounter
/// given.
pub proof fn lemma_slot_trigger_limit(
    def: DungeonDef,
    slot_index: usize,
    states: Seq<DungeonState>,
    rs: Seq<Option<EncounterDef>>,
)
    requires
        states.len() == rs.len() + 1,
        forall|i: int| #![trigger rs[i]] 0 <= i < rs.len() ==> trigger_outcome(def, slot_index, states[i], states[i + 1], rs[i]),
    ensures
        ({
            let room = room_of(def, states[0].current_room);
            let key = (room.id, slot_index);
            let c0 = times_triggered(states[0].encounter_counts@, key);
            slot_index < room.encounters@.len() ==> (room.encounters@[slot_index as int].max_triggers matches Some(m) ==> {
                &&& encounters_given(rs) + (if c0 < m { c0 } else { m as int }) <= m
                &&& times_triggered(states.last().encounter_counts@, key) == c0 + encounters_given(rs)
            })
        }),
        states.last().current_room == states[0].current_room,
    decreases rs.len(),
{
    if rs.len() > 0 {
        let n = rs.len() - 1;
        let s2 = states.drop_last();
        let r2 = rs.drop_last();
        assert forall|i: int| #![trigger r2[i]] 0 <= i < r2.len() implies trigger_outcome(def, slot_index, s2[i], s2[i + 1], r2[i]) by {
            assert(rs[i] == r2[i]);
        }
        lemma_slot_trigger_limit(def, slot_index, s2, r2);
        assert(trigger_outcome(def, slot_index, states[n], states[n + 1], rs[n]));
        assert(s2.last() == states[n]);
        let room = room_of(def, states[0].current_room);
        let key = (room.id, slot_index);
        lemma_set_count(states[n].encounter_counts@, key, times_triggered(states[n].encounter_counts@, key) as u8);
        lemma_set_count(states[n].encounter_counts@, key, (times_triggered(states[n].encounter_counts@, key) + 1) as u8);
        lemma_count_entry(states[n].encounter_counts@, key);
    }
}

/// Trigger encounter slot `slot_index` of the current room: `None` when the
/// slot does not exist (nothing changes) or has reached its trigger limit (the
/// slot's count is recorded as it stands); otherwise its count goes up by one
/// and its encounter is returned.
pub fn trigger_encounter(state: &mut DungeonState, def: &DungeonDef, slot_index: usize) -> (r: Option<EncounterDef>)
    requires
        has_room(*def, old(state).current_room),
        ({
            let room = room_of(*def, old(state).current_room);
            slot_index < room.encounters@.len() && room.encounters@[slot_index as int].max_triggers is None
                ==> times_triggered(old(state).encounter_counts@, (room.id, slot_index)) < 255
        }),
    ensures
        trigger_outcome(*def, slot_index, *old(state), *final(state), r),
{
    let room = get_current_room(state, def);
    let room_id = room.id;
    if slot_index >= room.encounters.len() {
        return None;
    }
    let slot = &room.encounters[slot_index];
    let key = (room_id, slot_index);
    proof {
        lemma_count_entry(state.encounter_counts@, key);
    }
    let pos = find_count(&state.encounter_counts, key);
    let count: u8 = match pos {
        Some(p) => state.encounter_counts[p].1,
        None => 0,
    };
    let blocked = match slot.max_triggers {
        Some(max) => count >= max,
        None => false,
    };
    let new_count: u8 = if blocked { count } else { count + 1 };
    match pos {
        Some(p) => {
            state.encounter_counts.set(p, (key, new_count));
        },
        None => {
            state.encounter_counts.push((key, new_count));
        },
    }
    if blocked {
        None
    } else {
        Some(slot.encounter.clone())
    }
}

/// All puzzles of the current room, in order.
pub fn get_room_puzzles<'d>(state: &DungeonState, def: &'d DungeonDef) -> (r: Vec<&'d PuzzleDef>)
    requires
        has_room(*def, state.current_room),
    ensures
        r@.len() == room_of(*def, state.current_room).puzzles@.len(),
        forall|i: int| 0 <= i < r@.len() ==> *#[trigger] r@[i] == room_of(*def, state.current_room).puzzles@[i],
{
    let room = get_current_room(state, def);
    let mut r: Vec<&'d PuzzleDef> = Vec::new();
    let mut i: usize = 0;
    while i < room.puzzles.len()
        invariant
            i <= room.puzzles.len(),
            r@.len() == i,
            forall|k: int| 0 <= k < i ==> *#[trigger] r@[k] == room.puzzles@[k],
        decreases room.puzzles.len() - i,
    {
        r.push(&room.puzzles[i]);
        i = i + 1;
    }
    r
}

/// `room_id` is the dungeon's boss room.
pub fn is_boss_room(def: &DungeonDef, room_id: RoomId) -> (r: bool)
    ensures
        r == (def.boss_room == Some(room_id)),
{
    match def.boss_room {
        Some(b) => b == room_id,
        None => false,
    }
}

/// An item is collected at most once: once collecting it has recorded its
/// room and position, that key is recorded for good, so collecting it again
/// yields nothing.
pub proof fn lemma_item_collected_once(collected: Seq<(RoomId, usize)>, key: (RoomId, usize))
    ensures
        collected.push(key).contains(key),
{
    assert(collected.push(key)[collected.len() as int] == key);
}

} // verus!

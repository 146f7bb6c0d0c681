//! Menu screens: the active menu, a cursor per screen, and the text lines of
//! each screen, ready for the caller to print.
use vstd::prelude::*;
use vstd::string::*;

use crate::shared::MenuScreen;
use crate::text::{
    append_decimal, append_decimal_wide, append_padded_left, append_padded_right, decimal, decimal_string, pad_left,
    pad_right,
};

verus! {

/// The active menu screen and the cursor remembered for each screen.
#[derive(Debug, Clone)]
pub struct MenuState {
    pub current: MenuScreen,
    /// Cursor per screen; the first entry for a screen counts.
    pub selected: Vec<(MenuScreen, usize)>,
}

/// The cursor of `screen`: its first entry, else 0.
pub open spec fn cursor_of(s: Seq<(MenuScreen, usize)>, screen: MenuScreen) -> usize
    decreases s.len(),
{
    if s.len() == 0 {
        0
    } else if s[0].0 == screen {
        s[0].1
    } else {
        cursor_of(s.drop_first(), screen)
    }
}

proof fn lemma_cursor_push(s: Seq<(MenuScreen, usize)>, m: MenuScreen, v: usize, q: MenuScreen)
    requires
        forall|i: int| 0 <= i < s.len() ==> (#[trigger] s[i]).0 != m,
    ensures
        cursor_of(s.push((m, v)), q) == if q == m {
            v
        } else {
            cursor_of(s, q)
        },
    decreases s.len(),
{
    if s.len() == 0 {
        assert(s.push((m, v)).drop_first() =~= s);
    } else {
        assert(s.push((m, v)).drop_first() =~= s.drop_first().push((m, v)));
        assert(s[0].0 != m);
        lemma_cursor_push(s.drop_first(), m, v, q);
    }
}

proof fn lemma_cursor_update(s: Seq<(MenuScreen, usize)>, k: int, v: usize, q: MenuScreen)
    requires
        0 <= k < s.len(),
        forall|i: int| 0 <= i < k ==> (#[trigger] s[i]).0 != s[k].0,
    ensures
        cursor_of(s.update(k, (s[k].0, v)), q) == if q == s[k].0 {
            v
        } else {
            cursor_of(s, q)
        },
    decreases k,
{
    let u = s.update(k, (s[k].0, v));
    assert(u[0] == if k == 0 { (s[k].0, v) } else { s[0] });
    if k == 0 {
        assert(u.drop_first() =~= s.drop_first());
    } else {
        let t = s.drop_first();
        assert(s.update(k, (s[k].0, v)).drop_first() =~= t.update(k - 1, (t[k - 1].0, v)));
        assert(s[0].0 != s[k].0);
        lemma_cursor_update(t, k - 1, v, q);
    }
}

impl MenuState {
    pub fn new(initial: MenuScreen) -> (r: Self)
        ensures
            r.current == initial,
            r.selected@.len() == 0,
    {
        MenuState { current: initial, selected: Vec::new() }
    }

    /// Set the cursor of the current screen.
    pub fn select(&mut self, index: usize)
        ensures
            final(self).current == old(self).current,
            forall|s: MenuScreen| #[trigger] cursor_of(final(self).selected@, s) == if s == old(
                self,
            ).current {
                index
            } else {
                cursor_of(old(self).selected@, s)
            },
    {
        let current = self.current;
        let mut i: usize = 0;
        assert(self.selected@.skip(0) =~= self.selected@);
        while i < self.selected.len()
            invariant
                self.current == current,
                current == old(self).current,
                self.selected@ == old(self).selected@,
                i <= self.selected@.len(),
                forall|j: int| 0 <= j < i ==> (#[trigger] self.selected@[j]).0 != current,
            decreases self.selected@.len() - i,
        {
            if self.selected[i].0 == current {
                let ghost before = self.selected@;
                self.selected.set(i, (current, index));
                proof {
                    assert forall|s: MenuScreen| #[trigger] cursor_of(self.selected@, s) == if s
                        == current {
                        index
                    } else {
                        cursor_of(before, s)
                    } by {
                        lemma_cursor_update(before, i as int, index, s);
                    }
                }
                return;
            }
            i += 1;
        }
        let ghost before = self.selected@;
        self.selected.push((current, index));
        proof {
            assert forall|s: MenuScreen| #[trigger] cursor_of(self.selected@, s) == if s == current {
                index
            } else {
                cursor_of(before, s)
            } by {
                lemma_cursor_push(before, current, index, s);
            }
        }
    }

    /// Cursor of the current screen; 0 for a screen not visited yet.
    pub fn selected_index(&self) -> (r: usize)
        ensures
            r == cursor_of(self.selected@, self.current),
    {
        let mut i: usize = 0;
        assert(self.selected@.skip(0) =~= self.selected@);
        while i < self.selected.len()
            invariant
                i <= self.selected@.len(),
                cursor_of(self.selected@, self.current) == cursor_of(
                    self.selected@.skip(i as int),
                    self.current,
                ),
            decreases self.selected@.len() - i,
        {
            assert(self.selected@.skip(i as int).drop_first() =~= self.selected@.skip(i + 1));
            if self.selected[i].0 == self.current {
                return self.selected[i].1;
            }
            i += 1;
        }
        0
    }

    pub fn switch_to(&mut self, screen: MenuScreen)
        ensures
            final(self).current == screen,
            final(self).selected == old(self).selected,
    {
        self.current = screen;
    }
}

// ── What the screens show ───────────────────────────────────────────

#[derive(Debug, Clone)]
pub struct UnitSummary {
    pub name: String,
    pub level: u8,
    pub hp_current: u16,
    pub hp_max: u16,
    pub element: String,
}

#[derive(Debug, Clone)]
pub struct EquipmentSummary {
    pub name: String,
    pub slot: String,
    pub tier: u8,
    pub equipped: bool,
}

#[derive(Debug, Clone, Copy, PartialEq, Eq)]
pub enum DjinnMenuState {
    SetToUnit,
    Standby,
    Recovery,
}

pub open spec fn state_label(s: DjinnMenuState) -> Seq<char> {
    match s {
        DjinnMenuState::SetToUnit => "SET"@,
        DjinnMenuState::Standby => "STANDBY"@,
        DjinnMenuState::Recovery => "RECOVERY"@,
    }
}

impl DjinnMenuState {
    fn label(&self) -> (r: &'static str)
        ensures
            r@ == state_label(*self),
    {
        match self {
            DjinnMenuState::SetToUnit => "SET",
            DjinnMenuState::Standby => "STANDBY",
            DjinnMenuState::Recovery => "RECOVERY",
        }
    }
}

#[derive(Debug, Clone)]
pub struct DjinnSummary {
    pub name: String,
    pub element: String,
    pub state: DjinnMenuState,
    pub tier: u8,
}

#[derive(Debug, Clone)]
pub struct ItemSummary {
    pub name: String,
    pub count: u8,
    pub description: String,
}

#[derive(Debug, Clone)]
pub struct QuestLogEntry {
    pub name: String,
    pub description: String,
    pub completed: bool,
}

// ── One formatted line each ─────────────────────────────────────────

/// `"  [slot] name   Lv.level   HP: cur/max   element"`: the name
/// left-aligned in 12 characters, the level right-aligned in 2, each HP
/// figure right-aligned in 4.
pub open spec fn party_line(
    slot: usize,
    name: Seq<char>,
    level: u8,
    hp_current: u16,
    hp_max: u16,
    element: Seq<char>,
) -> Seq<char> {
    "  ["@ + decimal(slot as nat) + "] "@ + pad_right(name, 12) + " Lv."@ + pad_left(decimal(level as nat), 2)
        + "   HP: "@ + pad_left(decimal(hp_current as nat), 4) + "/"@ + pad_left(decimal(hp_max as nat), 4)
        + "   "@ + element
}

fn format_party_line(
    slot: usize,
    name: &String,
    level: u8,
    hp_current: u16,
    hp_max: u16,
    element: &String,
) -> (r: String)
    ensures
        r@ == party_line(slot, name@, level, hp_current, hp_max, element@),
{
    let mut r = String::from_str("  [");
    append_decimal_wide(&mut r, slot as u64);
    r.append("] ");
    append_padded_right(&mut r, name.as_str(), 12);
    r.append(" Lv.");
    let lv = decimal_string(level as u64);
    append_padded_left(&mut r, lv.as_str(), 2);
    r.append("   HP: ");
    let cur = decimal_string(hp_current as u64);
    append_padded_left(&mut r, cur.as_str(), 4);
    r.append("/");
    let max = decimal_string(hp_max as u64);
    append_padded_left(&mut r, max.as_str(), 4);
    r.append("   ");
    r.append(element.as_str());
    r
}

/// `"=== EQUIPMENT — name ==="`.
pub open spec fn equipment_header(name: Seq<char>) -> Seq<char> {
    "=== EQUIPMENT — "@ + name + " ==="@
}

fn format_equipment_header(name: &String) -> (r: String)
    ensures
        r@ == equipment_header(name@),
{
    let mut r = String::from_str("=== EQUIPMENT — ");
    r.append(name.as_str());
    r.append(" ===");
    r
}

/// `"    [slot] Tier tier — name"`, the slot right-aligned in 6 characters.
pub open spec fn equipment_line(slot: Seq<char>, tier: u8, name: Seq<char>) -> Seq<char> {
    "    ["@ + pad_left(slot, 6) + "] Tier "@ + decimal(tier as nat) + " — "@ + name
}

fn format_equipment_line(slot: &String, tier: u8, name: &String) -> (r: String)
    ensures
        r@ == equipment_line(slot@, tier, name@),
{
    let mut r = String::from_str("    [");
    append_padded_left(&mut r, slot.as_str(), 6);
    r.append("] Tier ");
    append_decimal(&mut r, tier as u32);
    r.append(" — ");
    r.append(name.as_str());
    r
}

/// `"  name [state]  Tier tier  element"`: the name left-aligned in 14
/// characters, the state right-aligned in 8.
pub open spec fn djinn_line(name: Seq<char>, state: Seq<char>, tier: u8, element: Seq<char>) -> Seq<char> {
    "  "@ + pad_right(name, 14) + " ["@ + pad_left(state, 8) + "]  Tier "@ + decimal(tier as nat) + "  "@ + element
}

fn format_djinn_line(name: &String, state: &str, tier: u8, element: &String) -> (r: String)
    ensures
        r@ == djinn_line(name@, state@, tier, element@),
{
    let mut r = String::from_str("  ");
    append_padded_right(&mut r, name.as_str(), 14);
    r.append(" [");
    append_padded_left(&mut r, state, 8);
    r.append("]  Tier ");
    append_decimal(&mut r, tier as u32);
    r.append("  ");
    r.append(element.as_str());
    r
}

/// `"  name xcount  description"`: the name left-aligned in 18 characters,
/// the count in 3.
pub open spec fn item_line(name: Seq<char>, count: u8, description: Seq<char>) -> Seq<char> {
    "  "@ + pad_right(name, 18) + " x"@ + pad_right(decimal(count as nat), 3) + "  "@ + description
}

fn format_item_line(name: &String, count: u8, description: &String) -> (r: String)
    ensures
        r@ == item_line(name@, count, description@),
{
    let mut r = String::from_str("  ");
    append_padded_right(&mut r, name.as_str(), 18);
    r.append(" x");
    let c = decimal_string(count as u64);
    append_padded_right(&mut r, c.as_str(), 3);
    r.append("  ");
    r.append(description.as_str());
    r
}

/// `"    [ ] name"`.
pub open spec fn open_quest_line(name: Seq<char>) -> Seq<char> {
    "    [ ] "@ + name
}

fn format_open_quest_line(name: &String) -> (r: String)
    ensures
        r@ == open_quest_line(name@),
{
    let mut r = String::from_str("    [ ] ");
    r.append(name.as_str());
    r
}

/// `"    [x] name"`.
pub open spec fn done_quest_line(name: Seq<char>) -> Seq<char> {
    "    [x] "@ + name
}

fn format_done_quest_line(name: &String) -> (r: String)
    ensures
        r@ == done_quest_line(name@),
{
    let mut r = String::from_str("    [x] ");
    r.append(name.as_str());
    r
}

/// `"        description"`.
pub open spec fn quest_description_line(description: Seq<char>) -> Seq<char> {
    "        "@ + description
}

fn format_quest_description_line(description: &String) -> (r: String)
    ensures
        r@ == quest_description_line(description@),
{
    let mut r = String::from_str("        ");
    r.append(description.as_str());
    r
}

fn text(s: &str) -> (r: String)
    ensures
        r@ == s@,
{
    broadcast use vstd::string::to_string_from_display_ensures_for_str;

    s.to_string()
}

pub open spec fn views(lines: Seq<String>) -> Seq<Seq<char>> {
    lines.map_values(|l: String| l@)
}

proof fn lemma_views_push(lines: Seq<String>, l: String)
    ensures
        views(lines.push(l)) == views(lines).push(l@),
{
    assert(views(lines.push(l)) =~= views(lines).push(l@));
}

// ── Screens ─────────────────────────────────────────────────────────

pub open spec fn party_lines(units: Seq<UnitSummary>) -> Seq<Seq<char>> {
    if units.len() == 0 {
        seq!["=== PARTY ==="@, "  (no party members)"@]
    } else {
        seq!["=== PARTY ==="@] + units.map(party_line_of())
    }
}

/// The party line of the member in position `i`, numbered from 1.
pub open spec fn party_line_of() -> spec_fn(int, UnitSummary) -> Seq<char> {
    |i: int, u: UnitSummary| party_line((i + 1) as usize, u.name@, u.level, u.hp_current, u.hp_max, u.element@)
}

/// The party screen: a header, then one numbered line per member (or a note
/// that there are none).
pub fn show_party(units: &[UnitSummary]) -> (r: Vec<String>)
    ensures
        views(r@) == party_lines(units@),
{
    let mut lines: Vec<String> = Vec::new();
    lines.push(text("=== PARTY ==="));
    if units.len() == 0 {
        lines.push(text("  (no party members)"));
        assert(views(lines@) =~= party_lines(units@));
        return lines;
    }
    let ghost f = party_line_of();
    let mut i: usize = 0;
    while i < units.len()
        invariant
            i <= units@.len(),
            f == party_line_of(),
            views(lines@) == seq!["=== PARTY ==="@] + units@.take(i as int).map(f),
        decreases units@.len() - i,
    {
        let u = &units[i];
        let line = format_party_line(i + 1, &u.name, u.level, u.hp_current, u.hp_max, &u.element);
        proof {
            lemma_views_push(lines@, line);
            assert(units@.take(i + 1).map(f) =~= units@.take(i as int).map(f).push(f(i as int, *u)));
        }
        lines.push(line);
        assert(views(lines@) =~= seq!["=== PARTY ==="@] + units@.take(i + 1).map(f));
        i += 1;
    }
    assert(units@.take(units@.len() as int) =~= units@);
    lines
}

pub open spec fn equipment_line_of() -> spec_fn(EquipmentSummary) -> Seq<char> {
    |e: EquipmentSummary| equipment_line(e.slot@, e.tier, e.name@)
}

pub open spec fn equipment_lines_of(items: Seq<EquipmentSummary>) -> Seq<Seq<char>> {
    items.map_values(equipment_line_of())
}

pub open spec fn is_equipped() -> spec_fn(EquipmentSummary) -> bool {
    |e: EquipmentSummary| e.equipped
}

pub open spec fn not_equipped() -> spec_fn(EquipmentSummary) -> bool {
    |e: EquipmentSummary| !e.equipped
}

pub open spec fn section(lines: Seq<Seq<char>>, none: Seq<char>) -> Seq<Seq<char>> {
    if lines.len() == 0 {
        seq![none]
    } else {
        lines
    }
}

pub open spec fn equipment_screen(name: Seq<char>, items: Seq<EquipmentSummary>) -> Seq<Seq<char>> {
    seq![equipment_header(name), "  Equipped:"@] + section(
        equipment_lines_of(items.filter(is_equipped())),
        "    (nothing equipped)"@,
    ) + seq!["  Available:"@] + section(
        equipment_lines_of(items.filter(not_equipped())),
        "    (no other equipment)"@,
    )
}

/// Append the lines of the items of `equipment` whose `equipped` flag is
/// `want`, or `none` when there are none.
fn push_equipment_section(
    lines: &mut Vec<String>,
    equipment: &[EquipmentSummary],
    want: bool,
    none: &str,
)
    ensures
        views(final(lines)@) == views(old(lines)@) + section(
            equipment_lines_of(
                equipment@.filter(
                    if want {
                        is_equipped()
                    } else {
                        not_equipped()
                    },
                ),
            ),
            none@,
        ),
{
    let ghost p = if want {
        is_equipped()
    } else {
        not_equipped()
    };
    let ghost start = views(lines@);
    let mut i: usize = 0;
    let mut any = false;
    while i < equipment.len()
        invariant
            i <= equipment@.len(),
            p == (if want {
                is_equipped()
            } else {
                not_equipped()
            }),
            views(lines@) == start + equipment_lines_of(equipment@.take(i as int).filter(p)),
            any == (equipment@.take(i as int).filter(p).len() > 0),
        decreases equipment@.len() - i,
    {
        let e = &equipment[i];
        proof {
            assert(equipment@.take(i + 1) =~= equipment@.take(i as int).push(*e));
            equipment@.take(i as int).lemma_filter_push(*e, p);
        }
        if e.equipped == want {
            let line = format_equipment_line(&e.slot, e.tier, &e.name);
            proof {
                lemma_views_push(lines@, line);
                let f = equipment@.take(i as int).filter(p);
                assert(equipment_lines_of(f.push(*e)) =~= equipment_lines_of(f).push(line@));
            }
            lines.push(line);
            any = true;
        }
        i += 1;
    }
    assert(equipment@.take(equipment@.len() as int) =~= equipment@);
    if !any {
        let line = text(none);
        proof {
            lemma_views_push(lines@, line);
            assert(equipment_lines_of(equipment@.filter(p)) =~= Seq::<Seq<char>>::empty());
        }
        lines.push(line);
    }
}

/// A unit's equipment: equipped items first, then the rest, each section with
/// a note when empty.
pub fn show_equipment(unit: &UnitSummary, equipment: &[EquipmentSummary]) -> (r: Vec<String>)
    ensures
        views(r@) == equipment_screen(unit.name@, equipment@),
{
    let mut lines: Vec<String> = Vec::new();
    lines.push(format_equipment_header(&unit.name));
    lines.push(text("  Equipped:"));
    push_equipment_section(&mut lines, equipment, true, "    (nothing equipped)");
    let line = text("  Available:");
    proof {
        lemma_views_push(lines@, line);
    }
    lines.push(line);
    push_equipment_section(&mut lines, equipment, false, "    (no other equipment)");
    assert(views(lines@) =~= equipment_screen(unit.name@, equipment@));
    lines
}

pub open spec fn djinn_lines(list: Seq<DjinnSummary>) -> Seq<Seq<char>> {
    if list.len() == 0 {
        seq!["=== DJINN ==="@, "  (no djinn)"@]
    } else {
        seq!["=== DJINN ==="@] + list.map_values(djinn_line_of())
    }
}

pub open spec fn djinn_line_of() -> spec_fn(DjinnSummary) -> Seq<char> {
    |d: DjinnSummary| djinn_line(d.name@, state_label(d.state), d.tier, d.element@)
}

/// The djinn screen: a header, then one line per djinn with its state.
pub fn show_djinn(djinn_list: &[DjinnSummary]) -> (r: Vec<String>)
    ensures
        views(r@) == djinn_lines(djinn_list@),
{
    let mut lines: Vec<String> = Vec::new();
    lines.push(text("=== DJINN ==="));
    if djinn_list.len() == 0 {
        lines.push(text("  (no djinn)"));
        assert(views(lines@) =~= djinn_lines(djinn_list@));
        return lines;
    }
    let ghost f = djinn_line_of();
    let mut i: usize = 0;
    while i < djinn_list.len()
        invariant
            i <= djinn_list@.len(),
            f == djinn_line_of(),
            views(lines@) == seq!["=== DJINN ==="@] + djinn_list@.take(i as int).map_values(f),
        decreases djinn_list@.len() - i,
    {
        let d = &djinn_list[i];
        let line = format_djinn_line(&d.name, d.state.label(), d.tier, &d.element);
        proof {
            lemma_views_push(lines@, line);
            assert(djinn_list@.take(i + 1).map_values(f) =~= djinn_list@.take(i as int).map_values(
                f,
            ).push(f(*d)));
        }
        lines.push(line);
        assert(views(lines@) =~= seq!["=== DJINN ==="@] + djinn_list@.take(i + 1).map_values(f));
        i += 1;
    }
    assert(djinn_list@.take(djinn_list@.len() as int) =~= djinn_list@);
    lines
}

pub open spec fn item_lines(inventory: Seq<ItemSummary>) -> Seq<Seq<char>> {
    if inventory.len() == 0 {
        seq!["=== ITEMS ==="@, "  (inventory empty)"@]
    } else {
        seq!["=== ITEMS ==="@] + inventory.map_values(item_line_of())
    }
}

pub open spec fn item_line_of() -> spec_fn(ItemSummary) -> Seq<char> {
    |it: ItemSummary| item_line(it.name@, it.count, it.description@)
}

/// The item screen: a header, then one line per item with its count.
pub fn show_items(inventory: &[ItemSummary]) -> (r: Vec<String>)
    ensures
        views(r@) == item_lines(inventory@),
{
    let mut lines: Vec<String> = Vec::new();
    lines.push(text("=== ITEMS ==="));
    if inventory.len() == 0 {
        lines.push(text("  (inventory empty)"));
        assert(views(lines@) =~= item_lines(inventory@));
        return lines;
    }
    let ghost f = item_line_of();
    let mut i: usize = 0;
    while i < inventory.len()
        invariant
            i <= inventory@.len(),
            f == item_line_of(),
            views(lines@) == seq!["=== ITEMS ==="@] + inventory@.take(i as int).map_values(f),
        decreases inventory@.len() - i,
    {
        let it = &inventory[i];
        let line = format_item_line(&it.name, it.count, &it.description);
        proof {
            lemma_views_push(lines@, line);
            assert(inventory@.take(i + 1).map_values(f) =~= inventory@.take(i as int).map_values(
                f,
            ).push(f(*it)));
        }
        lines.push(line);
        assert(views(lines@) =~= seq!["=== ITEMS ==="@] + inventory@.take(i + 1).map_values(f));
        i += 1;
    }
    assert(inventory@.take(inventory@.len() as int) =~= inventory@);
    lines
}

/// Two lines per quest: its name, marked open or done, then its description.
pub open spec fn quest_lines(quests: Seq<QuestLogEntry>, done: bool) -> Seq<Seq<char>>
    decreases quests.len(),
{
    if quests.len() == 0 {
        seq![]
    } else {
        let q = quests.last();
        quest_lines(quests.drop_last(), done) + seq![
            if done {
                done_quest_line(q.name@)
            } else {
                open_quest_line(q.name@)
            },
            quest_description_line(q.description@),
        ]
    }
}

pub open spec fn is_completed() -> spec_fn(QuestLogEntry) -> bool {
    |q: QuestLogEntry| q.completed
}

pub open spec fn is_open() -> spec_fn(QuestLogEntry) -> bool {
    |q: QuestLogEntry| !q.completed
}

pub open spec fn quest_log_screen(quests: Seq<QuestLogEntry>) -> Seq<Seq<char>> {
    seq!["=== QUEST LOG ==="@, "  Active:"@] + section(
        quest_lines(quests.filter(is_open()), false),
        "    (no active quests)"@,
    ) + seq!["  Completed:"@] + section(
        quest_lines(quests.filter(is_completed()), true),
        "    (none yet)"@,
    )
}

fn push_quest_section(lines: &mut Vec<String>, quests: &[QuestLogEntry], done: bool, none: &str)
    ensures
        views(final(lines)@) == views(old(lines)@) + section(
            quest_lines(
                quests@.filter(
                    if done {
                        is_completed()
                    } else {
                        is_open()
                    },
                ),
                done,
            ),
            none@,
        ),
{
    let ghost p = if done {
        is_completed()
    } else {
        is_open()
    };
    let ghost start = views(lines@);
    let mut i: usize = 0;
    let mut any = false;
    while i < quests.len()
        invariant
            i <= quests@.len(),
            p == (if done {
                is_completed()
            } else {
                is_open()
            }),
            views(lines@) == start + quest_lines(quests@.take(i as int).filter(p), done),
            any == (quests@.take(i as int).filter(p).len() > 0),
        decreases quests@.len() - i,
    {
        let q = &quests[i];
        proof {
            assert(quests@.take(i + 1) =~= quests@.take(i as int).push(*q));
            quests@.take(i as int).lemma_filter_push(*q, p);
        }
        if q.completed == done {
            let first = if done {
                format_done_quest_line(&q.name)
            } else {
                format_open_quest_line(&q.name)
            };
            let second = format_quest_description_line(&q.description);
            proof {
                lemma_views_push(lines@, first);
                lemma_views_push(lines@.push(first), second);
                let f = quests@.take(i as int).filter(p);
                assert(f.push(*q).drop_last() =~= f);
            }
            lines.push(first);
            lines.push(second);
            any = true;
        }
        i += 1;
    }
    assert(quests@.take(quests@.len() as int) =~= quests@);
    if !any {
        let line = text(none);
        proof {
            lemma_views_push(lines@, line);
            assert(quest_lines(quests@.filter(p), done) =~= Seq::<Seq<char>>::empty());
        }
        lines.push(line);
    }
}

/// The quest log: open quests first, then completed ones, each section with a
/// note when empty.
pub fn show_quest_log(quests: &[QuestLogEntry]) -> (r: Vec<String>)
    ensures
        views(r@) == quest_log_screen(quests@),
{
    let mut lines: Vec<String> = Vec::new();
    lines.push(text("=== QUEST LOG ==="));
    lines.push(text("  Active:"));
    push_quest_section(&mut lines, quests, false, "    (no active quests)");
    let line = text("  Completed:");
    proof {
        lemma_views_push(lines@, line);
    }
    lines.push(line);
    push_quest_section(&mut lines, quests, true, "    (none yet)");
    assert(views(lines@) =~= quest_log_screen(quests@));
    lines
}

} // verus!

//! Sprite manifests: the draft manifests that name the sprites of enemies and
//! djinn, read line by line.
//!
//! Loading the images is the caller's part.
use vstd::prelude::*;
use vstd::string::*;

verus! {

// ── Text ────────────────────────────────────────────────────────────

/// White space as Unicode defines it.
pub open spec fn is_ws(c: char) -> bool {
    let v = c as u32;
    ||| 9 <= v <= 13
    ||| v == 32
    ||| v == 0x85
    ||| v == 0xa0
    ||| v == 0x1680
    ||| 0x2000 <= v <= 0x200a
    ||| v == 0x2028
    ||| v == 0x2029
    ||| v == 0x202f
    ||| v == 0x205f
    ||| v == 0x3000
}

fn is_ws_exec(c: char) -> (r: bool)
    ensures
        r == is_ws(c),
{
    let v = c as u32;
    (9 <= v && v <= 13) || v == 32 || v == 0x85 || v == 0xa0 || v == 0x1680 || (0x2000 <= v && v <= 0x200a)
        || v == 0x2028 || v == 0x2029 || v == 0x202f || v == 0x205f || v == 0x3000
}

/// `s` without its leading white space.
pub open spec fn trim_start(s: Seq<char>) -> Seq<char>
    decreases s.len(),
{
    if s.len() > 0 && is_ws(s[0]) {
        trim_start(s.drop_first())
    } else {
        s
    }
}

/// `s` without its trailing white space.
pub open spec fn trim_end(s: Seq<char>) -> Seq<char>
    decreases s.len(),
{
    if s.len() > 0 && is_ws(s.last()) {
        trim_end(s.drop_last())
    } else {
        s
    }
}

/// `s` without white space at either end.
pub open spec fn trim(s: Seq<char>) -> Seq<char> {
    trim_end(trim_start(s))
}

/// `s` without the copies of `c` at its start.
pub open spec fn strip_lead(s: Seq<char>, c: char) -> Seq<char>
    decreases s.len(),
{
    if s.len() > 0 && s[0] == c {
        strip_lead(s.drop_first(), c)
    } else {
        s
    }
}

/// `s` without the copies of `c` at its end.
pub open spec fn strip_trail(s: Seq<char>, c: char) -> Seq<char>
    decreases s.len(),
{
    if s.len() > 0 && s.last() == c {
        strip_trail(s.drop_last(), c)
    } else {
        s
    }
}

/// Whether `s` starts with `p`.
pub open spec fn starts_with(s: Seq<char>, p: Seq<char>) -> bool {
    p.len() <= s.len() && s.take(p.len() as int) == p
}

/// `s` without the copies of the non-empty `p` at its start.
pub open spec fn strip_prefix_all(s: Seq<char>, p: Seq<char>) -> Seq<char>
    decreases s.len(),
{
    if p.len() > 0 && starts_with(s, p) {
        strip_prefix_all(s.skip(p.len() as int), p)
    } else {
        s
    }
}

/// The position of the first `c` in `s`, if any.
pub open spec fn find_char(s: Seq<char>, c: char) -> Option<int>
    decreases s.len(),
{
    if s.len() == 0 {
        None
    } else if s[0] == c {
        Some(0)
    } else {
        match find_char(s.drop_first(), c) {
            Some(i) => Some(i + 1),
            None => None,
        }
    }
}

/// The lines of `s` read so far, and the part of the current line.
pub open spec fn split_state(s: Seq<char>) -> (Seq<Seq<char>>, Seq<char>)
    decreases s.len(),
{
    if s.len() == 0 {
        (Seq::empty(), Seq::empty())
    } else {
        let (done, cur) = split_state(s.drop_last());
        if s.last() == '\n' {
            (done.push(cur), Seq::empty())
        } else {
            (done, cur.push(s.last()))
        }
    }
}

/// The lines of `s`, split at each line feed.
pub open spec fn split_lines(s: Seq<char>) -> Seq<Seq<char>> {
    split_state(s).0.push(split_state(s).1)
}

/// `s` without white space at either end.
pub fn trimmed(s: &str) -> (r: &str)
    ensures
        r@ == trim(s@),
{
    let n = s.unicode_len();
    let mut a: usize = 0;
    assert(s@.skip(0) =~= s@);
    while a < n && is_ws_exec(s.get_char(a))
        invariant
            n == s@.len(),
            a <= n,
            trim_start(s@) == trim_start(s@.skip(a as int)),
        decreases n - a,
    {
        assert(s@.skip(a as int).drop_first() =~= s@.skip(a + 1));
        a += 1;
    }
    if a < n {
        assert(!is_ws(s@.skip(a as int)[0]));
    } else {
        assert(s@.skip(a as int) =~= Seq::<char>::empty());
    }
    assert(trim_start(s@) == s@.subrange(a as int, n as int));
    let mut b: usize = n;
    while b > a && is_ws_exec(s.get_char(b - 1))
        invariant
            n == s@.len(),
            a <= b <= n,
            trim_end(s@.subrange(a as int, n as int)) == trim_end(s@.subrange(a as int, b as int)),
        decreases b,
    {
        assert(s@.subrange(a as int, b as int).drop_last() =~= s@.subrange(a as int, b - 1));
        b -= 1;
    }
    assert(trim_end(s@.subrange(a as int, b as int)) == s@.subrange(a as int, b as int));
    s.substring_char(a, b)
}

/// Whether `p` occurs in `s` at position `from`.
fn matches_at(s: &str, from: usize, p: &str) -> (r: bool)
    requires
        from <= s@.len(),
    ensures
        r == (from + p@.len() <= s@.len() && s@.subrange(from as int, from + p@.len()) == p@),
{
    let n = s.unicode_len();
    let m = p.unicode_len();
    if m > n - from {
        return false;
    }
    let mut i: usize = 0;
    while i < m
        invariant
            n == s@.len(),
            m == p@.len(),
            from + m <= n,
            i <= m,
            forall|j: int| 0 <= j < i ==> s@[from + j] == p@[j],
        decreases m - i,
    {
        if s.get_char(from + i) != p.get_char(i) {
            assert(s@.subrange(from as int, from + m)[i as int] != p@[i as int]);
            return false;
        }
        i += 1;
    }
    assert(s@.subrange(from as int, from + m) =~= p@);
    true
}

/// Whether `a` and `b` hold the same text.
fn same_text(a: &str, b: &str) -> (r: bool)
    ensures
        r == (a@ == b@),
{
    if a.unicode_len() != b.unicode_len() {
        return false;
    }
    let r = matches_at(a, 0, b);
    assert(a@.subrange(0, b@.len() as int) =~= a@);
    r
}

/// `s` without the copies of the non-empty `p` at its start.
fn strip_prefix_all_exec<'a>(s: &'a str, p: &str) -> (r: &'a str)
    requires
        p@.len() > 0,
    ensures
        r@ == strip_prefix_all(s@, p@),
{
    let n = s.unicode_len();
    let m = p.unicode_len();
    let mut from: usize = 0;
    assert(s@.skip(0) =~= s@);
    while m <= n - from && matches_at(s, from, p)
        invariant
            n == s@.len(),
            m == p@.len(),
            m > 0,
            from <= n,
            strip_prefix_all(s@, p@) == strip_prefix_all(s@.skip(from as int), p@),
        decreases n - from,
    {
        assert(s@.skip(from as int).take(m as int) =~= s@.subrange(from as int, from + m));
        assert(s@.skip(from as int).skip(m as int) =~= s@.skip(from + m));
        from += m;
    }
    if m <= n - from {
        assert(s@.skip(from as int).take(m as int) =~= s@.subrange(from as int, from + m));
    }
    assert(s@.skip(from as int) =~= s@.subrange(from as int, n as int));
    s.substring_char(from, n)
}

/// `s` without the copies of `c` at its start and at its end.
fn strip_char_both<'a>(s: &'a str, c: char, lead: bool) -> (r: &'a str)
    ensures
        r@ == (if lead {
            strip_trail(strip_lead(s@, c), c)
        } else {
            strip_trail(s@, c)
        }),
{
    let n = s.unicode_len();
    let mut a: usize = 0;
    assert(s@.skip(0) =~= s@);
    if lead {
        while a < n && s.get_char(a) == c
            invariant
                n == s@.len(),
                a <= n,
                strip_lead(s@, c) == strip_lead(s@.skip(a as int), c),
            decreases n - a,
        {
            assert(s@.skip(a as int).drop_first() =~= s@.skip(a + 1));
            a += 1;
        }
        if a < n {
            assert(s@.skip(a as int)[0] != c);
        } else {
            assert(s@.skip(a as int) =~= Seq::<char>::empty());
        }
        assert(strip_lead(s@, c) == s@.subrange(a as int, n as int));
    } else {
        assert(s@ =~= s@.subrange(0, n as int));
    }
    let mut b: usize = n;
    while b > a && s.get_char(b - 1) == c
        invariant
            n == s@.len(),
            a <= b <= n,
            strip_trail(s@.subrange(a as int, n as int), c) == strip_trail(s@.subrange(a as int, b as int), c),
        decreases b,
    {
        assert(s@.subrange(a as int, b as int).drop_last() =~= s@.subrange(a as int, b - 1));
        b -= 1;
    }
    assert(strip_trail(s@.subrange(a as int, b as int), c) == s@.subrange(a as int, b as int));
    s.substring_char(a, b)
}

/// The position of the first `c` in `s`, if any.
fn find_char_exec(s: &str, c: char) -> (r: Option<usize>)
    ensures
        match r {
            Some(i) => find_char(s@, c) == Some(i as int) && i < s@.len(),
            None => find_char(s@, c) is None,
        },
{
    let n = s.unicode_len();
    let mut i: usize = 0;
    assert(s@.skip(0) =~= s@);
    while i < n
        invariant
            n == s@.len(),
            i <= n,
            find_char(s@, c) == match find_char(s@.skip(i as int), c) {
                Some(k) => Some(k + i),
                None => None,
            },
        decreases n - i,
    {
        assert(s@.skip(i as int).drop_first() =~= s@.skip(i + 1));
        if s.get_char(i) == c {
            assert(s@.skip(i as int)[0] == c);
            return Some(i);
        }
        i += 1;
    }
    assert(s@.skip(i as int) =~= Seq::<char>::empty());
    None
}

/// A manifest value: trimmed, without its quotes.
pub open spec fn string_value(raw: Seq<char>) -> Seq<char> {
    strip_trail(strip_lead(trim(raw), '"'), '"')
}

/// A manifest value: trimmed, without its quotes.
pub fn parse_string_value(raw: &str) -> (r: String)
    ensures
        r@ == string_value(raw@),
{
    String::from_str(strip_char_both(trimmed(raw), '"', true))
}

// ── Enemy manifest ──────────────────────────────────────────────────

/// The sprites named for one enemy.
#[derive(Debug, Clone, PartialEq, Eq)]
pub struct EnemyManifestEntry {
    pub id: String,
    pub sprite_idle: Option<String>,
    pub sprite_attack: Option<String>,
}

/// Mathematical view of an enemy manifest entry.
pub ghost struct EnemyEntryView {
    pub id: Seq<char>,
    pub sprite_idle: Option<Seq<char>>,
    pub sprite_attack: Option<Seq<char>>,
}

pub open spec fn opt_text(o: Option<String>) -> Option<Seq<char>> {
    match o {
        Some(s) => Some(s@),
        None => None,
    }
}

impl View for EnemyManifestEntry {
    type V = EnemyEntryView;

    open spec fn view(&self) -> EnemyEntryView {
        EnemyEntryView { id: self.id@, sprite_idle: opt_text(self.sprite_idle), sprite_attack: opt_text(self.sprite_attack) }
    }
}

/// The entries read so far with the one being read, if any, added.
pub open spec fn close_enemy(st: (Seq<EnemyEntryView>, Option<EnemyEntryView>)) -> Seq<EnemyEntryView> {
    match st.1 {
        Some(e) => st.0.push(e),
        None => st.0,
    }
}

/// Reading one line of an enemy manifest. Blank lines are skipped; a line
/// `[entities.ID]` starts the entry of enemy ID (the prefix and closing
/// brackets stripped, as often as they repeat); a line `key = value` sets
/// `sprite_idle` or `sprite_attack` of the current entry; anything else is
/// ignored.
pub open spec fn enemy_step(
    st: (Seq<EnemyEntryView>, Option<EnemyEntryView>),
    raw: Seq<char>,
) -> (Seq<EnemyEntryView>, Option<EnemyEntryView>) {
    let line = trim(raw);
    if line.len() == 0 {
        st
    } else if starts_with(line, "[entities."@) && line.last() == ']' {
        (
            close_enemy(st),
            Some(
                EnemyEntryView {
                    id: strip_trail(strip_prefix_all(line, "[entities."@), ']'),
                    sprite_idle: None,
                    sprite_attack: None,
                },
            ),
        )
    } else {
        match find_char(line, '=') {
            None => st,
            Some(i) => {
                let key = trim(line.take(i));
                let value = string_value(line.skip(i + 1));
                match st.1 {
                    Some(e) => if key == "sprite_idle"@ {
                        (st.0, Some(EnemyEntryView { sprite_idle: Some(value), ..e }))
                    } else if key == "sprite_attack"@ {
                        (st.0, Some(EnemyEntryView { sprite_attack: Some(value), ..e }))
                    } else {
                        st
                    },
                    None => st,
                }
            },
        }
    }
}

/// Reading the lines in order.
pub open spec fn enemy_lines(lines: Seq<Seq<char>>) -> (Seq<EnemyEntryView>, Option<EnemyEntryView>)
    decreases lines.len(),
{
    if lines.len() == 0 {
        (Seq::empty(), None)
    } else {
        enemy_step(enemy_lines(lines.drop_last()), lines.last())
    }
}

/// The entries of an enemy manifest, in order.
pub open spec fn enemy_manifest(content: Seq<char>) -> Seq<EnemyEntryView> {
    close_enemy(enemy_lines(split_lines(content)))
}

pub open spec fn enemy_views(v: Seq<EnemyManifestEntry>) -> Seq<EnemyEntryView> {
    v.map_values(|e: EnemyManifestEntry| e@)
}

fn close_enemy_exec(entries: &mut Vec<EnemyManifestEntry>, current: Option<EnemyManifestEntry>)
    ensures
        enemy_views(final(entries)@) == close_enemy((enemy_views(old(entries)@), match current {
            Some(e) => Some(e@),
            None => None,
        })),
{
    match current {
        Some(e) => {
            entries.push(e);
            assert(enemy_views(entries@) =~= enemy_views(old(entries)@).push(e@));
        },
        None => {},
    }
}

pub open spec fn opt_enemy_view(o: Option<EnemyManifestEntry>) -> Option<EnemyEntryView> {
    match o {
        Some(e) => Some(e@),
        None => None,
    }
}

fn enemy_line(raw: &str, entries: &mut Vec<EnemyManifestEntry>, current: &mut Option<EnemyManifestEntry>)
    ensures
        (enemy_views(final(entries)@), opt_enemy_view(*final(current))) == enemy_step(
            (enemy_views(old(entries)@), opt_enemy_view(*old(current))),
            raw@,
        ),
{
    let line = trimmed(raw);
    let n = line.unicode_len();
    if n == 0 {
        return;
    }
    if matches_at(line, 0, "[entities.") && line.get_char(n - 1) == ']' {
        proof {
            reveal_strlit("[entities.");
            assert(line@.take(10) =~= line@.subrange(0, 10));
        }
        let cur = current.take();
        close_enemy_exec(entries, cur);
        let id = strip_char_both(strip_prefix_all_exec(line, "[entities."), ']', false);
        *current = Some(EnemyManifestEntry { id: String::from_str(id), sprite_idle: None, sprite_attack: None });
        return;
    }
    proof {
        reveal_strlit("[entities.");
        if starts_with(line@, "[entities."@) {
            assert(line@.take(10) =~= line@.subrange(0, 10));
        }
    }
    let eq = match find_char_exec(line, '=') {
        Some(i) => i,
        None => {
            return;
        },
    };
    let key = trimmed(line.substring_char(0, eq));
    let value = parse_string_value(line.substring_char(eq + 1, n));
    proof {
        assert(line@.take(eq as int) =~= line@.subrange(0, eq as int));
        assert(line@.skip(eq + 1) =~= line@.subrange(eq + 1, n as int));
    }
    match current {
        Some(e) => {
            if same_text(key, "sprite_idle") {
                e.sprite_idle = Some(value);
            } else if same_text(key, "sprite_attack") {
                e.sprite_attack = Some(value);
            }
        },
        None => {},
    }
}

/// The entries of an enemy manifest, in order.
pub fn parse_enemy_manifest(content: &str) -> (r: Vec<EnemyManifestEntry>)
    ensures
        enemy_views(r@) == enemy_manifest(content@),
{
    let n = content.unicode_len();
    let mut entries: Vec<EnemyManifestEntry> = Vec::new();
    let mut current: Option<EnemyManifestEntry> = None;
    let mut start: usize = 0;
    let mut i: usize = 0;
    let ghost mut done: Seq<Seq<char>> = Seq::empty();
    assert(content@.take(0) =~= Seq::<char>::empty());
    assert(content@.subrange(0, 0) =~= Seq::<char>::empty());
    while i < n
        invariant
            n == content@.len(),
            start <= i <= n,
            split_state(content@.take(i as int)) == (done, content@.subrange(start as int, i as int)),
            (enemy_views(entries@), opt_enemy_view(current)) == enemy_lines(done),
        decreases n - i,
    {
        assert(content@.take(i + 1).drop_last() =~= content@.take(i as int));
        assert(content@.take(i + 1).last() == content@[i as int]);
        if content.get_char(i) == '\n' {
            let line = content.substring_char(start, i);
            enemy_line(line, &mut entries, &mut current);
            proof {
                assert(done.push(line@).drop_last() =~= done);
                done = done.push(line@);
            }
            start = i + 1;
            assert(content@.subrange(start as int, i + 1) =~= Seq::<char>::empty());
        } else {
            assert(content@.subrange(start as int, i + 1) =~= content@.subrange(start as int, i as int).push(
                content@[i as int],
            ));
        }
        i += 1;
    }
    let line = content.substring_char(start, n);
    enemy_line(line, &mut entries, &mut current);
    proof {
        assert(content@.take(n as int) =~= content@);
        assert(split_lines(content@) =~= done.push(line@));
        assert(split_lines(content@).drop_last() =~= done);
    }
    close_enemy_exec(&mut entries, current);
    entries
}

// ── Djinn manifest ──────────────────────────────────────────────────

/// The sprite named for one djinn.
#[derive(Debug, Clone, PartialEq, Eq)]
pub struct DjinnManifestEntry {
    pub id: String,
    pub sprite: Option<String>,
}

/// Mathematical view of a djinn manifest entry.
pub ghost struct DjinnEntryView {
    pub id: Seq<char>,
    pub sprite: Option<Seq<char>>,
}

impl View for DjinnManifestEntry {
    type V = DjinnEntryView;

    open spec fn view(&self) -> DjinnEntryView {
        DjinnEntryView { id: self.id@, sprite: opt_text(self.sprite) }
    }
}

/// The entries read so far with the one being read, if any, added.
pub open spec fn close_djinn(st: (Seq<DjinnEntryView>, Option<DjinnEntryView>)) -> Seq<DjinnEntryView> {
    match st.1 {
        Some(e) => st.0.push(e),
        None => st.0,
    }
}

/// Reading one line of a djinn manifest. Blank lines are skipped; a line
/// `[[djinn]]` starts a new entry, with an empty id; a line `key = value` sets
/// `id` or `sprite` of the current entry; anything else is ignored.
pub open spec fn djinn_step(
    st: (Seq<DjinnEntryView>, Option<DjinnEntryView>),
    raw: Seq<char>,
) -> (Seq<DjinnEntryView>, Option<DjinnEntryView>) {
    let line = trim(raw);
    if line.len() == 0 {
        st
    } else if line == "[[djinn]]"@ {
        (close_djinn(st), Some(DjinnEntryView { id: Seq::empty(), sprite: None }))
    } else {
        match find_char(line, '=') {
            None => st,
            Some(i) => {
                let key = trim(line.take(i));
                let value = string_value(line.skip(i + 1));
                match st.1 {
                    Some(e) => if key == "id"@ {
                        (st.0, Some(DjinnEntryView { id: value, ..e }))
                    } else if key == "sprite"@ {
                        (st.0, Some(DjinnEntryView { sprite: Some(value), ..e }))
                    } else {
                        st
                    },
                    None => st,
                }
            },
        }
    }
}

/// Reading the lines in order.
pub open spec fn djinn_lines(lines: Seq<Seq<char>>) -> (Seq<DjinnEntryView>, Option<DjinnEntryView>)
    decreases lines.len(),
{
    if lines.len() == 0 {
        (Seq::empty(), None)
    } else {
        djinn_step(djinn_lines(lines.drop_last()), lines.last())
    }
}

/// The entries of a djinn manifest, in order.
pub open spec fn djinn_manifest(content: Seq<char>) -> Seq<DjinnEntryView> {
    close_djinn(djinn_lines(split_lines(content)))
}

pub open spec fn djinn_views(v: Seq<DjinnManifestEntry>) -> Seq<DjinnEntryView> {
    v.map_values(|e: DjinnManifestEntry| e@)
}

pub open spec fn opt_djinn_view(o: Option<DjinnManifestEntry>) -> Option<DjinnEntryView> {
    match o {
        Some(e) => Some(e@),
        None => None,
    }
}

fn close_djinn_exec(entries: &mut Vec<DjinnManifestEntry>, current: Option<DjinnManifestEntry>)
    ensures
        djinn_views(final(entries)@) == close_djinn((djinn_views(old(entries)@), opt_djinn_view(current))),
{
    match current {
        Some(e) => {
            entries.push(e);
            assert(djinn_views(entries@) =~= djinn_views(old(entries)@).push(e@));
        },
        None => {},
    }
}

fn djinn_line(raw: &str, entries: &mut Vec<DjinnManifestEntry>, current: &mut Option<DjinnManifestEntry>)
    ensures
        (djinn_views(final(entries)@), opt_djinn_view(*final(current))) == djinn_step(
            (djinn_views(old(entries)@), opt_djinn_view(*old(current))),
            raw@,
        ),
{
    let line = trimmed(raw);
    let n = line.unicode_len();
    if n == 0 {
        return;
    }
    if same_text(line, "[[djinn]]") {
        let cur = current.take();
        close_djinn_exec(entries, cur);
        let id = String::new();
        *current = Some(DjinnManifestEntry { id, sprite: None });
        return;
    }
    let eq = match find_char_exec(line, '=') {
        Some(i) => i,
        None => {
            return;
        },
    };
    let key = trimmed(line.substring_char(0, eq));
    let value = parse_string_value(line.substring_char(eq + 1, n));
    proof {
        assert(line@.take(eq as int) =~= line@.subrange(0, eq as int));
        assert(line@.skip(eq + 1) =~= line@.subrange(eq + 1, n as int));
    }
    match current {
        Some(e) => {
            if same_text(key, "id") {
                e.id = value;
            } else if same_text(key, "sprite") {
                e.sprite = Some(value);
            }
        },
        None => {},
    }
}

/// The entries of a djinn manifest, in order.
pub fn parse_djinn_manifest(content: &str) -> (r: Vec<DjinnManifestEntry>)
    ensures
        djinn_views(r@) == djinn_manifest(content@),
{
    let n = content.unicode_len();
    let mut entries: Vec<DjinnManifestEntry> = Vec::new();
    let mut current: Option<DjinnManifestEntry> = None;
    let mut start: usize = 0;
    let mut i: usize = 0;
    let ghost mut done: Seq<Seq<char>> = Seq::empty();
    assert(content@.take(0) =~= Seq::<char>::empty());
    assert(content@.subrange(0, 0) =~= Seq::<char>::empty());
    while i < n
        invariant
            n == content@.len(),
            start <= i <= n,
            split_state(content@.take(i as int)) == (done, content@.subrange(start as int, i as int)),
            (djinn_views(entries@), opt_djinn_view(current)) == djinn_lines(done),
        decreases n - i,
    {
        assert(content@.take(i + 1).drop_last() =~= content@.take(i as int));
        assert(content@.take(i + 1).last() == content@[i as int]);
        if content.get_char(i) == '\n' {
            let line = content.substring_char(start, i);
            djinn_line(line, &mut entries, &mut current);
            proof {
                assert(done.push(line@).drop_last() =~= done);
                done = done.push(line@);
            }
            start = i + 1;
            assert(content@.subrange(start as int, i + 1) =~= Seq::<char>::empty());
        } else {
            assert(content@.subrange(start as int, i + 1) =~= content@.subrange(start as int, i as int).push(
                content@[i as int],
            ));
        }
        i += 1;
    }
    let line = content.substring_char(start, n);
    djinn_line(line, &mut entries, &mut current);
    proof {
        assert(content@.take(n as int) =~= content@);
        assert(split_lines(content@) =~= done.push(line@));
        assert(split_lines(content@).drop_last() =~= done);
    }
    close_djinn_exec(&mut entries, current);
    entries
}

} // verus!

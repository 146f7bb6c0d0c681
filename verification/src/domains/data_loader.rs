//! Game content tables: assembling what was read from the data files into one
//! set of tables, and checking that every reference between them resolves.
//!
//! Reading and parsing the files is the caller's part; this module receives,
//! for each file, either its parsed contents or the error that occurred.
use vstd::prelude::*;
use vstd::string::*;

use crate::data::{default_combat_config, is_default_config};
use crate::shared::{
    AbilityDef, AbilityId, AbilityProgression, CombatConfig, DjinnAbilitySet, DjinnDef, DjinnId,
    EncounterDef, EncounterEnemy, EnemyDef, EnemyId, EquipmentDef, EquipmentId, UnitDef, UnitId,
};

verus! {

// ── Keys ────────────────────────────────────────────────────────────

/// Something that is identified, or refers to something, by a text key.
pub trait Keyed {
    spec fn key(&self) -> Seq<char>;

    fn key_text(&self) -> (r: &String)
        ensures
            r@ == self.key(),
    ;
}

impl Keyed for AbilityId {
    open spec fn key(&self) -> Seq<char> {
        self@
    }

    fn key_text(&self) -> (r: &String) {
        &self.0
    }
}

impl Keyed for EnemyId {
    open spec fn key(&self) -> Seq<char> {
        self@
    }

    fn key_text(&self) -> (r: &String) {
        &self.0
    }
}

impl Keyed for EquipmentId {
    open spec fn key(&self) -> Seq<char> {
        self@
    }

    fn key_text(&self) -> (r: &String) {
        &self.0
    }
}

impl Keyed for DjinnId {
    open spec fn key(&self) -> Seq<char> {
        self@
    }

    fn key_text(&self) -> (r: &String) {
        &self.0
    }
}

impl Keyed for UnitId {
    open spec fn key(&self) -> Seq<char> {
        self@
    }

    fn key_text(&self) -> (r: &String) {
        &self.0
    }
}

impl Keyed for AbilityProgression {
    open spec fn key(&self) -> Seq<char> {
        self.ability_id@
    }

    fn key_text(&self) -> (r: &String) {
        &self.ability_id.0
    }
}

impl Keyed for EncounterEnemy {
    open spec fn key(&self) -> Seq<char> {
        self.enemy_id@
    }

    fn key_text(&self) -> (r: &String) {
        &self.enemy_id.0
    }
}

impl Keyed for AbilityDef {
    open spec fn key(&self) -> Seq<char> {
        self.id@
    }

    fn key_text(&self) -> (r: &String) {
        &self.id.0
    }
}

impl Keyed for UnitDef {
    open spec fn key(&self) -> Seq<char> {
        self.id@
    }

    fn key_text(&self) -> (r: &String) {
        &self.id.0
    }
}

impl Keyed for EnemyDef {
    open spec fn key(&self) -> Seq<char> {
        self.id@
    }

    fn key_text(&self) -> (r: &String) {
        &self.id.0
    }
}

impl Keyed for EquipmentDef {
    open spec fn key(&self) -> Seq<char> {
        self.id@
    }

    fn key_text(&self) -> (r: &String) {
        &self.id.0
    }
}

impl Keyed for DjinnDef {
    open spec fn key(&self) -> Seq<char> {
        self.id@
    }

    fn key_text(&self) -> (r: &String) {
        &self.id.0
    }
}

impl Keyed for EncounterDef {
    open spec fn key(&self) -> Seq<char> {
        self.id@
    }

    fn key_text(&self) -> (r: &String) {
        &self.id.0
    }
}

/// The keys of a sequence of keyed things, in order.
pub open spec fn keys<T: Keyed>(s: Seq<T>) -> Seq<Seq<char>> {
    s.map_values(|x: T| x.key())
}

/// The key of an optional reference, as a sequence of zero or one key.
pub open spec fn opt_keys<T: Keyed>(o: Option<T>) -> Seq<Seq<char>> {
    match o {
        Some(x) => seq![x.key()],
        None => Seq::empty(),
    }
}

/// The texts of a sequence of strings.
pub open spec fn texts(s: Seq<String>) -> Seq<Seq<char>> {
    s.map_values(|x: String| x@)
}

/// Whether `t` is among `known`.
fn has_text(known: &Vec<String>, t: &String) -> (r: bool)
    ensures
        r == texts(known@).contains(t@),
{
    let mut i: usize = 0;
    while i < known.len()
        invariant
            i <= known.len(),
            forall|j: int| 0 <= j < i ==> known@[j]@ != t@,
        decreases known.len() - i,
    {
        if known[i] == *t {
            assert(texts(known@)[i as int] == t@);
            return true;
        }
        i += 1;
    }
    assert forall|j: int| 0 <= j < texts(known@).len() implies texts(known@)[j] != t@ by {}
    false
}

/// The texts of the keys of `v`, in order.
fn key_texts<T: Keyed>(v: &Vec<T>) -> (r: Vec<String>)
    ensures
        texts(r@) == keys(v@),
{
    let mut r: Vec<String> = Vec::new();
    let mut i: usize = 0;
    while i < v.len()
        invariant
            i <= v.len(),
            texts(r@) == keys(v@.take(i as int)),
        decreases v.len() - i,
    {
        let t = v[i].key_text().clone();
        assert(t@ == v@[i as int].key());
        let ghost before = r@;
        r.push(t);
        assert(texts(r@) =~= texts(before).push(t@));
        assert(v@.take(i + 1) =~= v@.take(i as int).push(v@[i as int]));
        i += 1;
        assert(texts(r@) =~= keys(v@.take(i as int)));
    }
    assert(v@.take(v.len() as int) =~= v@);
    r
}

/// The index of the first item with key `k`, if any.
pub open spec fn first_with_key<T: Keyed>(s: Seq<T>, k: Seq<char>) -> Option<int> {
    if exists|i: int| 0 <= i < s.len() && #[trigger] s[i].key() == k && forall|j: int| 0 <= j < i ==> #[trigger] s[j].key() != k {
        Some(choose|i: int| 0 <= i < s.len() && #[trigger] s[i].key() == k && forall|j: int| 0 <= j < i ==> #[trigger] s[j].key() != k)
    } else {
        None
    }
}

/// The index of the first item of `v` whose key is `k`, if any.
pub fn find_by_key<T: Keyed>(v: &Vec<T>, k: &String) -> (r: Option<usize>)
    ensures
        match r {
            Some(i) => first_with_key(v@, k@) == Some(i as int),
            None => first_with_key(v@, k@) is None,
        },
{
    let mut i: usize = 0;
    while i < v.len()
        invariant
            i <= v.len(),
            forall|j: int| 0 <= j < i ==> #[trigger] v@[j].key() != k@,
        decreases v.len() - i,
    {
        if *v[i].key_text() == *k {
            proof {
                let c = choose|c: int| 0 <= c < v@.len() && #[trigger] v@[c].key() == k@ && forall|j: int| 0 <= j < c ==> #[trigger] v@[j].key() != k@;
                assert(v@[i as int].key() == k@);
                if c < i {
                    assert(v@[c].key() != k@);
                }
                if c > i {
                    assert(v@[i as int].key() != k@);
                }
            }
            return Some(i);
        }
        i += 1;
    }
    None
}

// ── Later definitions replace earlier ones ─────────────────────────

/// The items whose key does not occur again later on, in their order: of
/// several definitions with one key, the last one is the one that counts.
pub open spec fn keep_last<T: Keyed>(s: Seq<T>) -> Seq<T>
    decreases s.len(),
{
    if s.len() == 0 {
        s
    } else {
        let rest = keep_last(s.drop_first());
        if keys(s.drop_first()).contains(s[0].key()) {
            rest
        } else {
            seq![s[0]] + rest
        }
    }
}

/// Keeping the last definition of each key keeps every key, adds none, and
/// leaves each key defined once.
pub proof fn lemma_keep_last_keys<T: Keyed>(s: Seq<T>)
    ensures
        forall|k: Seq<char>| #[trigger] keys(keep_last(s)).contains(k) <==> keys(s).contains(k),
        forall|i: int, j: int|
            0 <= i < j < keep_last(s).len() ==> #[trigger] keep_last(s)[i].key() != #[trigger] keep_last(s)[j].key(),
    decreases s.len(),
{
    if s.len() > 0 {
        let tail = s.drop_first();
        lemma_keep_last_keys(tail);
        let kt = keep_last(tail);
        assert(keys(s) =~= seq![s[0].key()] + keys(tail));
        if keys(tail).contains(s[0].key()) {
            assert forall|k: Seq<char>| #[trigger] keys(keep_last(s)).contains(k) <==> keys(s).contains(k) by {
                if keys(s).contains(k) {
                    let i = choose|i: int| 0 <= i < keys(s).len() && keys(s)[i] == k;
                    if i > 0 {
                        assert(keys(tail)[i - 1] == k);
                    }
                }
                if keys(tail).contains(k) {
                    let i = choose|i: int| 0 <= i < keys(tail).len() && keys(tail)[i] == k;
                    assert(keys(s)[i + 1] == k);
                }
            }
        } else {
            let r = keep_last(s);
            assert(r =~= seq![s[0]] + kt);
            assert(keys(r) =~= seq![s[0].key()] + keys(kt));
            assert forall|k: Seq<char>| #[trigger] keys(r).contains(k) <==> keys(s).contains(k) by {
                if keys(s).contains(k) {
                    let i = choose|i: int| 0 <= i < keys(s).len() && keys(s)[i] == k;
                    if i > 0 {
                        assert(keys(tail)[i - 1] == k);
                        assert(keys(kt).contains(k));
                        let j = choose|j: int| 0 <= j < keys(kt).len() && keys(kt)[j] == k;
                        assert(keys(r)[j + 1] == k);
                    } else {
                        assert(keys(r)[0] == k);
                    }
                }
                if keys(r).contains(k) {
                    let i = choose|i: int| 0 <= i < keys(r).len() && keys(r)[i] == k;
                    if i > 0 {
                        assert(keys(kt)[i - 1] == k);
                        assert(keys(kt).contains(k));
                        assert(keys(tail).contains(k));
                        let j = choose|j: int| 0 <= j < keys(tail).len() && keys(tail)[j] == k;
                        assert(keys(s)[j + 1] == k);
                    } else {
                        assert(keys(s)[0] == k);
                    }
                }
            }
            assert forall|i: int, j: int| 0 <= i < j < r.len() implies #[trigger] r[i].key() != #[trigger] r[j].key() by {
                if i == 0 {
                    assert(r[j] == kt[j - 1]);
                    assert(keys(kt)[j - 1] == r[j].key());
                    if r[j].key() == s[0].key() {
                        assert(keys(kt).contains(s[0].key()));
                    }
                } else {
                    assert(r[i] == kt[i - 1]);
                    assert(r[j] == kt[j - 1]);
                }
            }
        }
    }
}

/// Keeps, of several definitions with one key, the last one.
pub fn keep_last_defs<T: Keyed>(v: Vec<T>) -> (r: Vec<T>)
    ensures
        r@ == keep_last(v@),
{
    let ghost s = v@;
    let mut v = v;
    let mut out: Vec<T> = Vec::new();
    let mut seen: Vec<String> = Vec::new();
    assert(s.skip(s.len() as int) =~= Seq::<T>::empty());
    assert(v@ =~= s.take(v.len() as int));
    while v.len() > 0
        invariant
            v.len() <= s.len(),
            v@ == s.take(v.len() as int),
            out@ == keep_last(s.skip(v.len() as int)),
            forall|t: Seq<char>|
                #[trigger] texts(seen@).contains(t) <==> keys(s.skip(v.len() as int)).contains(t),
        decreases v.len(),
    {
        let k: usize = v.len() - 1;
        let ghost before_seen = seen@;
        let x = v.pop().unwrap();
        proof {
            assert(v@ =~= s.take(k as int));
            assert(s.skip(k as int).drop_first() =~= s.skip(k + 1));
            assert(s.skip(k as int)[0] == x);
        }
        let found = has_text(&seen, x.key_text());
        let t = x.key_text().clone();
        if !found {
            out.insert(0, x);
            assert(out@ =~= seq![x] + keep_last(s.skip(k + 1)));
        }
        seen.push(t);
        proof {
            assert(texts(seen@) =~= texts(before_seen).push(x.key()));
            assert(keys(s.skip(k as int)) =~= seq![x.key()] + keys(s.skip(k + 1)));
            assert forall|t2: Seq<char>|
                #[trigger] texts(seen@).contains(t2) <==> keys(s.skip(k as int)).contains(t2) by {
                if texts(seen@).contains(t2) {
                    let j = choose|j: int| 0 <= j < texts(seen@).len() && #[trigger] texts(seen@)[j] == t2;
                    assert(texts(before_seen).contains(t2) <==> keys(s.skip(k + 1)).contains(t2));
                    if j < before_seen.len() {
                        assert(texts(before_seen)[j] == t2);
                        assert(texts(before_seen).contains(t2));
                        let j2 = choose|j2: int|
                            0 <= j2 < keys(s.skip(k + 1)).len() && #[trigger] keys(s.skip(k + 1))[j2] == t2;
                        assert(keys(s.skip(k as int))[j2 + 1] == t2);
                    } else {
                        assert(keys(s.skip(k as int))[0] == t2);
                    }
                }
                if keys(s.skip(k as int)).contains(t2) {
                    let j = choose|j: int|
                        0 <= j < keys(s.skip(k as int)).len() && #[trigger] keys(s.skip(k as int))[j] == t2;
                    assert(texts(before_seen).contains(t2) <==> keys(s.skip(k + 1)).contains(t2));
                    if j == 0 {
                        assert(texts(seen@)[before_seen.len() as int] == t2);
                    } else {
                        assert(keys(s.skip(k + 1))[j - 1] == t2);
                        assert(keys(s.skip(k + 1)).contains(t2));
                        let j2 = choose|j2: int|
                            0 <= j2 < texts(before_seen).len() && #[trigger] texts(before_seen)[j2] == t2;
                        assert(texts(seen@)[j2] == texts(before_seen)[j2]);
                    }
                }
            }
        }
    }
    assert(s.skip(0) =~= s);
    out
}

// ── Errors ──────────────────────────────────────────────────────────

/// What went wrong while loading the game's content.
#[derive(Debug)]
pub enum LoadError {
    /// A required data file was not found at the expected path.
    FileNotFound(String),
    /// A data file could not be parsed: its path and the parser's message.
    ParseError(String, String),
    /// A reference between the tables does not resolve.
    ValidationError(String),
}

/// Mathematical view of a load error.
pub ghost enum LoadErrorView {
    FileNotFound(Seq<char>),
    ParseError(Seq<char>, Seq<char>),
    ValidationError(Seq<char>),
}

impl View for LoadError {
    type V = LoadErrorView;

    open spec fn view(&self) -> LoadErrorView {
        match self {
            LoadError::FileNotFound(p) => LoadErrorView::FileNotFound(p@),
            LoadError::ParseError(p, m) => LoadErrorView::ParseError(p@, m@),
            LoadError::ValidationError(m) => LoadErrorView::ValidationError(m@),
        }
    }
}

/// The text shown for a load error.
pub open spec fn describe_spec(e: LoadErrorView) -> Seq<char> {
    match e {
        LoadErrorView::FileNotFound(p) => "File not found: "@ + p,
        LoadErrorView::ParseError(p, m) => "Parse error in "@ + p + ": "@ + m,
        LoadErrorView::ValidationError(m) => "Validation error: "@ + m,
    }
}

impl LoadError {
    /// The text shown for this error.
    pub fn describe(&self) -> (r: String)
        ensures
            r@ == describe_spec(self@),
    {
        match self {
            LoadError::FileNotFound(p) => {
                let mut r = String::from_str("File not found: ");
                r.append(p.as_str());
                r
            },
            LoadError::ParseError(p, m) => {
                let mut r = String::from_str("Parse error in ");
                r.append(p.as_str());
                r.append(": ");
                r.append(m.as_str());
                r
            },
            LoadError::ValidationError(m) => {
                let mut r = String::from_str("Validation error: ");
                r.append(m.as_str());
                r
            },
        }
    }
}

/// The views of a sequence of errors.
pub open spec fn err_views(s: Seq<LoadError>) -> Seq<LoadErrorView> {
    s.map_values(|e: LoadError| e@)
}

/// Validation errors carrying the given messages, in order.
pub open spec fn as_validation(msgs: Seq<Seq<char>>) -> Seq<LoadErrorView> {
    msgs.map_values(|m: Seq<char>| LoadErrorView::ValidationError(m))
}

proof fn lemma_as_validation_add(a: Seq<Seq<char>>, b: Seq<Seq<char>>)
    ensures
        as_validation(a + b) == as_validation(a) + as_validation(b),
{
    assert(as_validation(a + b) =~= as_validation(a) + as_validation(b));
}

// ── Reference messages ──────────────────────────────────────────────

/// The message for a reference from `owner` to a `target` that does not exist.
pub open spec fn missing_msg(head: Seq<char>, owner: Seq<char>, middle: Seq<char>, target: Seq<char>) -> Seq<char> {
    head + owner + middle + target + "' which does not exist"@
}

/// One message per target of `owner` that is not among `known`, in order.
pub open spec fn missing_msgs(
    known: Seq<Seq<char>>,
    head: Seq<char>,
    owner: Seq<char>,
    middle: Seq<char>,
    targets: Seq<Seq<char>>,
) -> Seq<Seq<char>>
    decreases targets.len(),
{
    if targets.len() == 0 {
        Seq::empty()
    } else {
        let prev = missing_msgs(known, head, owner, middle, targets.drop_last());
        if known.contains(targets.last()) {
            prev
        } else {
            prev.push(missing_msg(head, owner, middle, targets.last()))
        }
    }
}

proof fn lemma_missing_one(known: Seq<Seq<char>>, head: Seq<char>, owner: Seq<char>, middle: Seq<char>, t: Seq<char>)
    ensures
        missing_msgs(known, head, owner, middle, seq![t]) == (if known.contains(t) {
            Seq::<Seq<char>>::empty()
        } else {
            seq![missing_msg(head, owner, middle, t)]
        }),
{
    assert(seq![t].drop_last() =~= Seq::<Seq<char>>::empty());
    assert(missing_msgs(known, head, owner, middle, Seq::empty()) == Seq::<Seq<char>>::empty());
    if !known.contains(t) {
        assert(Seq::<Seq<char>>::empty().push(missing_msg(head, owner, middle, t)) =~= seq![
            missing_msg(head, owner, middle, t),
        ]);
    }
}

proof fn lemma_missing_push(
    known: Seq<Seq<char>>,
    head: Seq<char>,
    owner: Seq<char>,
    middle: Seq<char>,
    ts: Seq<Seq<char>>,
    t: Seq<char>,
)
    ensures
        missing_msgs(known, head, owner, middle, ts.push(t)) == missing_msgs(known, head, owner, middle, ts)
            + missing_msgs(known, head, owner, middle, seq![t]),
{
    lemma_missing_one(known, head, owner, middle, t);
    assert(ts.push(t).drop_last() =~= ts);
    let prev = missing_msgs(known, head, owner, middle, ts);
    if known.contains(t) {
        assert(prev + Seq::<Seq<char>>::empty() =~= prev);
    } else {
        assert(prev.push(missing_msg(head, owner, middle, t)) =~= prev + seq![missing_msg(head, owner, middle, t)]);
    }
}

/// Reports `target` of `owner` if it is not among `known`.
fn report_one(
    errors: &mut Vec<LoadError>,
    known: &Vec<String>,
    head: &str,
    owner: &String,
    middle: &str,
    target: &String,
)
    ensures
        err_views(final(errors)@) == err_views(old(errors)@) + as_validation(
            missing_msgs(texts(known@), head@, owner@, middle@, seq![target@]),
        ),
{
    let ghost before = errors@;
    proof {
        lemma_missing_one(texts(known@), head@, owner@, middle@, target@);
    }
    if !has_text(known, target) {
        let mut m = String::from_str(head);
        m.append(owner.as_str());
        m.append(middle);
        m.append(target.as_str());
        m.append("' which does not exist");
        errors.push(LoadError::ValidationError(m));
        assert(err_views(errors@) =~= err_views(before) + as_validation(
            missing_msgs(texts(known@), head@, owner@, middle@, seq![target@]),
        ));
    } else {
        assert(err_views(errors@) =~= err_views(before) + as_validation(
            missing_msgs(texts(known@), head@, owner@, middle@, seq![target@]),
        ));
    }
}

/// Reports every target of `owner` that is not among `known`, in order.
fn report_all<T: Keyed>(
    errors: &mut Vec<LoadError>,
    known: &Vec<String>,
    head: &str,
    owner: &String,
    middle: &str,
    targets: &Vec<T>,
)
    ensures
        err_views(final(errors)@) == err_views(old(errors)@) + as_validation(
            missing_msgs(texts(known@), head@, owner@, middle@, keys(targets@)),
        ),
{
    let ghost start = errors@;
    let ghost ks = keys(targets@);
    assert(ks.take(0) =~= Seq::<Seq<char>>::empty());
    assert(err_views(errors@) =~= err_views(start) + as_validation(Seq::empty()));
    let mut i: usize = 0;
    while i < targets.len()
        invariant
            i <= targets.len(),
            ks == keys(targets@),
            err_views(errors@) == err_views(start) + as_validation(
                missing_msgs(texts(known@), head@, owner@, middle@, ks.take(i as int)),
            ),
        decreases targets.len() - i,
    {
        let ghost mid = errors@;
        report_one(errors, known, head, owner, middle, targets[i].key_text());
        proof {
            let prev = missing_msgs(texts(known@), head@, owner@, middle@, ks.take(i as int));
            let one = missing_msgs(texts(known@), head@, owner@, middle@, seq![ks[i as int]]);
            assert(ks.take(i + 1) =~= ks.take(i as int).push(ks[i as int]));
            lemma_missing_push(texts(known@), head@, owner@, middle@, ks.take(i as int), ks[i as int]);
            lemma_as_validation_add(prev, one);
        }
        i += 1;
    }
    assert(ks.take(targets.len() as int) =~= ks);
}

// ── Validation sections ─────────────────────────────────────────────

/// Messages for every ability a unit learns that is not among `known`, item by item.
pub open spec fn unit_ability_msgs(units: Seq<UnitDef>, known: Seq<Seq<char>>) -> Seq<Seq<char>>
    decreases units.len(),
{
    if units.len() == 0 {
        Seq::empty()
    } else {
        unit_ability_msgs(units.drop_last(), known) + missing_msgs(
            known,
            "Unit '"@,
            units.last().id@,
            "' references ability '"@,
            keys(units.last().abilities@),
        )
    }
}

fn check_unit_ability(errors: &mut Vec<LoadError>, known: &Vec<String>, units: &Vec<UnitDef>)
    ensures
        err_views(final(errors)@) == err_views(old(errors)@) + as_validation(
            unit_ability_msgs(units@, texts(known@)),
        ),
{
    let ghost start = errors@;
    assert(units@.take(0) =~= Seq::<UnitDef>::empty());
    assert(err_views(errors@) =~= err_views(start) + as_validation(Seq::empty()));
    let mut i: usize = 0;
    while i < units.len()
        invariant
            i <= units.len(),
            err_views(errors@) == err_views(start) + as_validation(
                unit_ability_msgs(units@.take(i as int), texts(known@)),
            ),
        decreases units.len() - i,
    {
        let ghost mid = errors@;
        let item = &units[i];
        report_all(errors, known, "Unit '", &item.id.0, "' references ability '", &item.abilities);
        proof {
            let prev = unit_ability_msgs(units@.take(i as int), texts(known@));
            let one = missing_msgs(
                texts(known@),
                "Unit '"@,
                units@[i as int].id@,
                "' references ability '"@,
                keys(units@[i as int].abilities@),
            );
            assert(units@.take(i + 1).drop_last() =~= units@.take(i as int));
            lemma_as_validation_add(prev, one);
            assert(err_views(errors@) =~= err_views(start) + as_validation(prev + one));
        }
        i += 1;
    }
    assert(units@.take(units.len() as int) =~= units@);
}

/// Messages for every ability an enemy uses that is not among `known`, item by item.
pub open spec fn enemy_ability_msgs(enemies: Seq<EnemyDef>, known: Seq<Seq<char>>) -> Seq<Seq<char>>
    decreases enemies.len(),
{
    if enemies.len() == 0 {
        Seq::empty()
    } else {
        enemy_ability_msgs(enemies.drop_last(), known) + missing_msgs(
            known,
            "Enemy '"@,
            enemies.last().id@,
            "' references ability '"@,
            keys(enemies.last().abilities@),
        )
    }
}

fn check_enemy_ability(errors: &mut Vec<LoadError>, known: &Vec<String>, enemies: &Vec<EnemyDef>)
    ensures
        err_views(final(errors)@) == err_views(old(errors)@) + as_validation(
            enemy_ability_msgs(enemies@, texts(known@)),
        ),
{
    let ghost start = errors@;
    assert(enemies@.take(0) =~= Seq::<EnemyDef>::empty());
    assert(err_views(errors@) =~= err_views(start) + as_validation(Seq::empty()));
    let mut i: usize = 0;
    while i < enemies.len()
        invariant
            i <= enemies.len(),
            err_views(errors@) == err_views(start) + as_validation(
                enemy_ability_msgs(enemies@.take(i as int), texts(known@)),
            ),
        decreases enemies.len() - i,
    {
        let ghost mid = errors@;
        let item = &enemies[i];
        report_all(errors, known, "Enemy '", &item.id.0, "' references ability '", &item.abilities);
        proof {
            let prev = enemy_ability_msgs(enemies@.take(i as int), texts(known@));
            let one = missing_msgs(
                texts(known@),
                "Enemy '"@,
                enemies@[i as int].id@,
                "' references ability '"@,
                keys(enemies@[i as int].abilities@),
            );
            assert(enemies@.take(i + 1).drop_last() =~= enemies@.take(i as int));
            lemma_as_validation_add(prev, one);
            assert(err_views(errors@) =~= err_views(start) + as_validation(prev + one));
        }
        i += 1;
    }
    assert(enemies@.take(enemies.len() as int) =~= enemies@);
}

/// Messages for every enemy of an encounter that is not among `known`, item by item.
pub open spec fn encounter_enemy_msgs(encounters: Seq<EncounterDef>, known: Seq<Seq<char>>) -> Seq<Seq<char>>
    decreases encounters.len(),
{
    if encounters.len() == 0 {
        Seq::empty()
    } else {
        encounter_enemy_msgs(encounters.drop_last(), known) + missing_msgs(
            known,
            "Encounter '"@,
            encounters.last().id@,
            "' references enemy '"@,
            keys(encounters.last().enemies@),
        )
    }
}

fn check_encounter_enemy(errors: &mut Vec<LoadError>, known: &Vec<String>, encounters: &Vec<EncounterDef>)
    ensures
        err_views(final(errors)@) == err_views(old(errors)@) + as_validation(
            encounter_enemy_msgs(encounters@, texts(known@)),
        ),
{
    let ghost start = errors@;
    assert(encounters@.take(0) =~= Seq::<EncounterDef>::empty());
    assert(err_views(errors@) =~= err_views(start) + as_validation(Seq::empty()));
    let mut i: usize = 0;
    while i < encounters.len()
        invariant
            i <= encounters.len(),
            err_views(errors@) == err_views(start) + as_validation(
                encounter_enemy_msgs(encounters@.take(i as int), texts(known@)),
            ),
        decreases encounters.len() - i,
    {
        let ghost mid = errors@;
        let item = &encounters[i];
        report_all(errors, known, "Encounter '", &item.id.0, "' references enemy '", &item.enemies);
        proof {
            let prev = encounter_enemy_msgs(encounters@.take(i as int), texts(known@));
            let one = missing_msgs(
                texts(known@),
                "Encounter '"@,
                encounters@[i as int].id@,
                "' references enemy '"@,
                keys(encounters@[i as int].enemies@),
            );
            assert(encounters@.take(i + 1).drop_last() =~= encounters@.take(i as int));
            lemma_as_validation_add(prev, one);
            assert(err_views(errors@) =~= err_views(start) + as_validation(prev + one));
        }
        i += 1;
    }
    assert(encounters@.take(encounters.len() as int) =~= encounters@);
}

/// Messages for the ability a piece of equipment unlocks that is not among `known`, item by item.
pub open spec fn equipment_ability_msgs(equipment: Seq<EquipmentDef>, known: Seq<Seq<char>>) -> Seq<Seq<char>>
    decreases equipment.len(),
{
    if equipment.len() == 0 {
        Seq::empty()
    } else {
        equipment_ability_msgs(equipment.drop_last(), known) + missing_msgs(
            known,
            "Equipment '"@,
            equipment.last().id@,
            "' references ability '"@,
            opt_keys(equipment.last().unlocks_ability),
        )
    }
}

fn check_equipment_ability(errors: &mut Vec<LoadError>, known: &Vec<String>, equipment: &Vec<EquipmentDef>)
    ensures
        err_views(final(errors)@) == err_views(old(errors)@) + as_validation(
            equipment_ability_msgs(equipment@, texts(known@)),
        ),
{
    let ghost start = errors@;
    assert(equipment@.take(0) =~= Seq::<EquipmentDef>::empty());
    assert(err_views(errors@) =~= err_views(start) + as_validation(Seq::empty()));
    let mut i: usize = 0;
    while i < equipment.len()
        invariant
            i <= equipment.len(),
            err_views(errors@) == err_views(start) + as_validation(
                equipment_ability_msgs(equipment@.take(i as int), texts(known@)),
            ),
        decreases equipment.len() - i,
    {
        let ghost mid = errors@;
        let item = &equipment[i];
        match &item.unlocks_ability {
            Some(id) => {
                report_one(errors, known, "Equipment '", &item.id.0, "' references ability '", &id.0);
            },
            None => {
                assert(missing_msgs(
                    texts(known@),
                    "Equipment '"@,
                    item.id@,
                    "' references ability '"@,
                    Seq::empty(),
                ) == Seq::<Seq<char>>::empty());
                assert(err_views(errors@) =~= err_views(errors@) + as_validation(Seq::empty()));
            },
        }
        proof {
            let prev = equipment_ability_msgs(equipment@.take(i as int), texts(known@));
            let one = missing_msgs(
                texts(known@),
                "Equipment '"@,
                equipment@[i as int].id@,
                "' references ability '"@,
                opt_keys(equipment@[i as int].unlocks_ability),
            );
            assert(equipment@.take(i + 1).drop_last() =~= equipment@.take(i as int));
            lemma_as_validation_add(prev, one);
            assert(err_views(errors@) =~= err_views(start) + as_validation(prev + one));
        }
        i += 1;
    }
    assert(equipment@.take(equipment.len() as int) =~= equipment@);
}

/// Messages for the djinn an encounter rewards that is not among `known`, item by item.
pub open spec fn djinn_reward_msgs(encounters: Seq<EncounterDef>, known: Seq<Seq<char>>) -> Seq<Seq<char>>
    decreases encounters.len(),
{
    if encounters.len() == 0 {
        Seq::empty()
    } else {
        djinn_reward_msgs(encounters.drop_last(), known) + missing_msgs(
            known,
            "Encounter '"@,
            encounters.last().id@,
            "' references djinn reward '"@,
            opt_keys(encounters.last().djinn_reward),
        )
    }
}

fn check_djinn_reward(errors: &mut Vec<LoadError>, known: &Vec<String>, encounters: &Vec<EncounterDef>)
    ensures
        err_views(final(errors)@) == err_views(old(errors)@) + as_validation(
            djinn_reward_msgs(encounters@, texts(known@)),
        ),
{
    let ghost start = errors@;
    assert(encounters@.take(0) =~= Seq::<EncounterDef>::empty());
    assert(err_views(errors@) =~= err_views(start) + as_validation(Seq::empty()));
    let mut i: usize = 0;
    while i < encounters.len()
        invariant
            i <= encounters.len(),
            err_views(errors@) == err_views(start) + as_validation(
                djinn_reward_msgs(encounters@.take(i as int), texts(known@)),
            ),
        decreases encounters.len() - i,
    {
        let ghost mid = errors@;
        let item = &encounters[i];
        match &item.djinn_reward {
            Some(id) => {
                report_one(errors, known, "Encounter '", &item.id.0, "' references djinn reward '", &id.0);
            },
            None => {
                assert(missing_msgs(
                    texts(known@),
                    "Encounter '"@,
                    item.id@,
                    "' references djinn reward '"@,
                    Seq::empty(),
                ) == Seq::<Seq<char>>::empty());
                assert(err_views(errors@) =~= err_views(errors@) + as_validation(Seq::empty()));
            },
        }
        proof {
            let prev = djinn_reward_msgs(encounters@.take(i as int), texts(known@));
            let one = missing_msgs(
                texts(known@),
                "Encounter '"@,
                encounters@[i as int].id@,
                "' references djinn reward '"@,
                opt_keys(encounters@[i as int].djinn_reward),
            );
            assert(encounters@.take(i + 1).drop_last() =~= encounters@.take(i as int));
            lemma_as_validation_add(prev, one);
            assert(err_views(errors@) =~= err_views(start) + as_validation(prev + one));
        }
        i += 1;
    }
    assert(encounters@.take(encounters.len() as int) =~= encounters@);
}

/// Messages for the equipment an encounter rewards that is not among `known`, item by item.
pub open spec fn equipment_reward_msgs(encounters: Seq<EncounterDef>, known: Seq<Seq<char>>) -> Seq<Seq<char>>
    decreases encounters.len(),
{
    if encounters.len() == 0 {
        Seq::empty()
    } else {
        equipment_reward_msgs(encounters.drop_last(), known) + missing_msgs(
            known,
            "Encounter '"@,
            encounters.last().id@,
            "' equipment_rewards references equipment '"@,
            keys(encounters.last().equipment_rewards@),
        )
    }
}

fn check_equipment_reward(errors: &mut Vec<LoadError>, known: &Vec<String>, encounters: &Vec<EncounterDef>)
    ensures
        err_views(final(errors)@) == err_views(old(errors)@) + as_validation(
            equipment_reward_msgs(encounters@, texts(known@)),
        ),
{
    let ghost start = errors@;
    assert(encounters@.take(0) =~= Seq::<EncounterDef>::empty());
    assert(err_views(errors@) =~= err_views(start) + as_validation(Seq::empty()));
    let mut i: usize = 0;
    while i < encounters.len()
        invariant
            i <= encounters.len(),
            err_views(errors@) == err_views(start) + as_validation(
                equipment_reward_msgs(encounters@.take(i as int), texts(known@)),
            ),
        decreases encounters.len() - i,
    {
        let ghost mid = errors@;
        let item = &encounters[i];
        report_all(errors, known, "Encounter '", &item.id.0, "' equipment_rewards references equipment '", &item.equipment_rewards);
        proof {
            let prev = equipment_reward_msgs(encounters@.take(i as int), texts(known@));
            let one = missing_msgs(
                texts(known@),
                "Encounter '"@,
                encounters@[i as int].id@,
                "' equipment_rewards references equipment '"@,
                keys(encounters@[i as int].equipment_rewards@),
            );
            assert(encounters@.take(i + 1).drop_last() =~= encounters@.take(i as int));
            lemma_as_validation_add(prev, one);
            assert(err_views(errors@) =~= err_views(start) + as_validation(prev + one));
        }
        i += 1;
    }
    assert(encounters@.take(encounters.len() as int) =~= encounters@);
}

/// Messages for the unit an encounter recruits that is not among `known`, item by item.
pub open spec fn recruit_msgs(encounters: Seq<EncounterDef>, known: Seq<Seq<char>>) -> Seq<Seq<char>>
    decreases encounters.len(),
{
    if encounters.len() == 0 {
        Seq::empty()
    } else {
        recruit_msgs(encounters.drop_last(), known) + missing_msgs(
            known,
            "Encounter '"@,
            encounters.last().id@,
            "' recruit references unit '"@,
            opt_keys(encounters.last().recruit),
        )
    }
}

fn check_recruit(errors: &mut Vec<LoadError>, known: &Vec<String>, encounters: &Vec<EncounterDef>)
    ensures
        err_views(final(errors)@) == err_views(old(errors)@) + as_validation(
            recruit_msgs(encounters@, texts(known@)),
        ),
{
    let ghost start = errors@;
    assert(encounters@.take(0) =~= Seq::<EncounterDef>::empty());
    assert(err_views(errors@) =~= err_views(start) + as_validation(Seq::empty()));
    let mut i: usize = 0;
    while i < encounters.len()
        invariant
            i <= encounters.len(),
            err_views(errors@) == err_views(start) + as_validation(
                recruit_msgs(encounters@.take(i as int), texts(known@)),
            ),
        decreases encounters.len() - i,
    {
        let ghost mid = errors@;
        let item = &encounters[i];
        match &item.recruit {
            Some(id) => {
                report_one(errors, known, "Encounter '", &item.id.0, "' recruit references unit '", &id.0);
            },
            None => {
                assert(missing_msgs(
                    texts(known@),
                    "Encounter '"@,
                    item.id@,
                    "' recruit references unit '"@,
                    Seq::empty(),
                ) == Seq::<Seq<char>>::empty());
                assert(err_views(errors@) =~= err_views(errors@) + as_validation(Seq::empty()));
            },
        }
        proof {
            let prev = recruit_msgs(encounters@.take(i as int), texts(known@));
            let one = missing_msgs(
                texts(known@),
                "Encounter '"@,
                encounters@[i as int].id@,
                "' recruit references unit '"@,
                opt_keys(encounters@[i as int].recruit),
            );
            assert(encounters@.take(i + 1).drop_last() =~= encounters@.take(i as int));
            lemma_as_validation_add(prev, one);
            assert(err_views(errors@) =~= err_views(start) + as_validation(prev + one));
        }
        i += 1;
    }
    assert(encounters@.take(encounters.len() as int) =~= encounters@);
}

/// Messages for the abilities one djinn grants that are not among `known`:
/// for each compatibility in turn, its good then its recovery abilities.
pub open spec fn djinn_one_msgs(known: Seq<Seq<char>>, d: DjinnDef) -> Seq<Seq<char>> {
    missing_msgs(known, "Djinn '"@, d.id@, "' same.good_abilities references ability '"@, keys(d.ability_pairs.same.good_abilities@))
        + missing_msgs(known, "Djinn '"@, d.id@, "' same.recovery_abilities references ability '"@, keys(d.ability_pairs.same.recovery_abilities@))
        + missing_msgs(known, "Djinn '"@, d.id@, "' counter.good_abilities references ability '"@, keys(d.ability_pairs.counter.good_abilities@))
        + missing_msgs(known, "Djinn '"@, d.id@, "' counter.recovery_abilities references ability '"@, keys(d.ability_pairs.counter.recovery_abilities@))
        + missing_msgs(known, "Djinn '"@, d.id@, "' neutral.good_abilities references ability '"@, keys(d.ability_pairs.neutral.good_abilities@))
        + missing_msgs(known, "Djinn '"@, d.id@, "' neutral.recovery_abilities references ability '"@, keys(d.ability_pairs.neutral.recovery_abilities@))
}

/// Messages for the abilities the djinn grant that are not among `known`.
pub open spec fn djinn_pair_msgs(djinn: Seq<DjinnDef>, known: Seq<Seq<char>>) -> Seq<Seq<char>>
    decreases djinn.len(),
{
    if djinn.len() == 0 {
        Seq::empty()
    } else {
        djinn_pair_msgs(djinn.drop_last(), known) + djinn_one_msgs(known, djinn.last())
    }
}

fn check_djinn_one(errors: &mut Vec<LoadError>, known: &Vec<String>, d: &DjinnDef)
    ensures
        err_views(final(errors)@) == err_views(old(errors)@) + as_validation(djinn_one_msgs(texts(known@), *d)),
{
    let ghost start = errors@;
    report_all(errors, known, "Djinn '", &d.id.0, "' same.good_abilities references ability '", &d.ability_pairs.same.good_abilities);
    report_all(errors, known, "Djinn '", &d.id.0, "' same.recovery_abilities references ability '", &d.ability_pairs.same.recovery_abilities);
    report_all(errors, known, "Djinn '", &d.id.0, "' counter.good_abilities references ability '", &d.ability_pairs.counter.good_abilities);
    report_all(errors, known, "Djinn '", &d.id.0, "' counter.recovery_abilities references ability '", &d.ability_pairs.counter.recovery_abilities);
    report_all(errors, known, "Djinn '", &d.id.0, "' neutral.good_abilities references ability '", &d.ability_pairs.neutral.good_abilities);
    report_all(errors, known, "Djinn '", &d.id.0, "' neutral.recovery_abilities references ability '", &d.ability_pairs.neutral.recovery_abilities);
    proof {
        let k = texts(known@);
        let m1 = missing_msgs(k, "Djinn '"@, d.id@, "' same.good_abilities references ability '"@, keys(d.ability_pairs.same.good_abilities@));
        let m2 = missing_msgs(k, "Djinn '"@, d.id@, "' same.recovery_abilities references ability '"@, keys(d.ability_pairs.same.recovery_abilities@));
        let m3 = missing_msgs(k, "Djinn '"@, d.id@, "' counter.good_abilities references ability '"@, keys(d.ability_pairs.counter.good_abilities@));
        let m4 = missing_msgs(k, "Djinn '"@, d.id@, "' counter.recovery_abilities references ability '"@, keys(d.ability_pairs.counter.recovery_abilities@));
        let m5 = missing_msgs(k, "Djinn '"@, d.id@, "' neutral.good_abilities references ability '"@, keys(d.ability_pairs.neutral.good_abilities@));
        let m6 = missing_msgs(k, "Djinn '"@, d.id@, "' neutral.recovery_abilities references ability '"@, keys(d.ability_pairs.neutral.recovery_abilities@));
        assert(as_validation(djinn_one_msgs(k, *d)) =~= as_validation(m1) + as_validation(m2) + as_validation(m3)
            + as_validation(m4) + as_validation(m5) + as_validation(m6));
        assert(err_views(errors@) =~= err_views(start) + as_validation(djinn_one_msgs(k, *d)));
    }
}

fn check_djinn_pairs(errors: &mut Vec<LoadError>, known: &Vec<String>, djinn: &Vec<DjinnDef>)
    ensures
        err_views(final(errors)@) == err_views(old(errors)@) + as_validation(
            djinn_pair_msgs(djinn@, texts(known@)),
        ),
{
    let ghost start = errors@;
    assert(djinn@.take(0) =~= Seq::<DjinnDef>::empty());
    assert(err_views(errors@) =~= err_views(start) + as_validation(Seq::empty()));
    let mut i: usize = 0;
    while i < djinn.len()
        invariant
            i <= djinn.len(),
            err_views(errors@) == err_views(start) + as_validation(
                djinn_pair_msgs(djinn@.take(i as int), texts(known@)),
            ),
        decreases djinn.len() - i,
    {
        check_djinn_one(errors, known, &djinn[i]);
        proof {
            let prev = djinn_pair_msgs(djinn@.take(i as int), texts(known@));
            let one = djinn_one_msgs(texts(known@), djinn@[i as int]);
            assert(djinn@.take(i + 1).drop_last() =~= djinn@.take(i as int));
            lemma_as_validation_add(prev, one);
            assert(err_views(errors@) =~= err_views(start) + as_validation(prev + one));
        }
        i += 1;
    }
    assert(djinn@.take(djinn.len() as int) =~= djinn@);
}

// ── The content tables ──────────────────────────────────────────────

/// All game content, each table holding at most one definition per key.
#[derive(Debug)]
pub struct GameData {
    pub abilities: Vec<AbilityDef>,
    pub units: Vec<UnitDef>,
    pub enemies: Vec<EnemyDef>,
    pub equipment: Vec<EquipmentDef>,
    pub djinn: Vec<DjinnDef>,
    pub encounters: Vec<EncounterDef>,
    pub config: CombatConfig,
}

/// The messages of every reference between the tables that does not resolve,
/// in this order: unit abilities, enemy abilities, encounter enemies, equipment
/// abilities, encounter djinn rewards, djinn abilities, encounter equipment
/// rewards, encounter recruits; within each, item by item.
pub open spec fn validation_msgs(
    abilities: Seq<AbilityDef>,
    units: Seq<UnitDef>,
    enemies: Seq<EnemyDef>,
    equipment: Seq<EquipmentDef>,
    djinn: Seq<DjinnDef>,
    encounters: Seq<EncounterDef>,
) -> Seq<Seq<char>> {
    unit_ability_msgs(units, keys(abilities))
        + enemy_ability_msgs(enemies, keys(abilities))
        + encounter_enemy_msgs(encounters, keys(enemies))
        + equipment_ability_msgs(equipment, keys(abilities))
        + djinn_reward_msgs(encounters, keys(djinn))
        + djinn_pair_msgs(djinn, keys(abilities))
        + equipment_reward_msgs(encounters, keys(equipment))
        + recruit_msgs(encounters, keys(units))
}

/// Checks every reference between the tables of `data`, appending one
/// validation error per reference that does not resolve.
pub fn validate(data: &GameData, errors: &mut Vec<LoadError>)
    ensures
        err_views(final(errors)@) == err_views(old(errors)@) + as_validation(
            validation_msgs(
                data.abilities@,
                data.units@,
                data.enemies@,
                data.equipment@,
                data.djinn@,
                data.encounters@,
            ),
        ),
{
    let ghost start = errors@;
    let ability_keys = key_texts(&data.abilities);
    let unit_keys = key_texts(&data.units);
    let enemy_keys = key_texts(&data.enemies);
    let equipment_keys = key_texts(&data.equipment);
    let djinn_keys = key_texts(&data.djinn);
    check_unit_ability(errors, &ability_keys, &data.units);
    check_enemy_ability(errors, &ability_keys, &data.enemies);
    check_encounter_enemy(errors, &enemy_keys, &data.encounters);
    check_equipment_ability(errors, &ability_keys, &data.equipment);
    check_djinn_reward(errors, &djinn_keys, &data.encounters);
    check_djinn_pairs(errors, &ability_keys, &data.djinn);
    check_equipment_reward(errors, &equipment_keys, &data.encounters);
    check_recruit(errors, &unit_keys, &data.encounters);
    proof {
        let ka = keys(data.abilities@);
        let m1 = unit_ability_msgs(data.units@, ka);
        let m2 = enemy_ability_msgs(data.enemies@, ka);
        let m3 = encounter_enemy_msgs(data.encounters@, keys(data.enemies@));
        let m4 = equipment_ability_msgs(data.equipment@, ka);
        let m5 = djinn_reward_msgs(data.encounters@, keys(data.djinn@));
        let m6 = djinn_pair_msgs(data.djinn@, ka);
        let m7 = equipment_reward_msgs(data.encounters@, keys(data.equipment@));
        let m8 = recruit_msgs(data.encounters@, keys(data.units@));
        assert(as_validation(m1 + m2 + m3 + m4 + m5 + m6 + m7 + m8) =~= as_validation(m1) + as_validation(m2)
            + as_validation(m3) + as_validation(m4) + as_validation(m5) + as_validation(m6)
            + as_validation(m7) + as_validation(m8));
        assert(err_views(errors@) =~= err_views(start) + as_validation(m1 + m2 + m3 + m4 + m5 + m6 + m7 + m8));
    }
}

// ── Loading ─────────────────────────────────────────────────────────

/// The contents of a data file that was read, or nothing.
pub open spec fn list_of<T>(r: Result<Vec<T>, LoadError>) -> Seq<T> {
    match r {
        Ok(v) => v@,
        Err(_) => Seq::empty(),
    }
}

/// The error that reading a data file gave, if any.
pub open spec fn err_of<T>(r: Result<T, LoadError>) -> Seq<LoadError> {
    match r {
        Ok(_) => Seq::empty(),
        Err(e) => seq![e],
    }
}

fn take_list<T>(r: Result<Vec<T>, LoadError>, errors: &mut Vec<LoadError>) -> (v: Vec<T>)
    ensures
        v@ == list_of(r),
        final(errors)@ == old(errors)@ + err_of(r),
{
    match r {
        Ok(v) => {
            assert(errors@ =~= errors@ + Seq::<LoadError>::empty());
            v
        },
        Err(e) => {
            errors.push(e);
            assert(errors@ =~= old(errors)@ + seq![e]);
            Vec::new()
        },
    }
}

/// Assembles the game's content from what was read of each data file, in the
/// order abilities, units, enemies, equipment, djinn, encounters, config:
/// each file gives its parsed contents or the error that occurred.
///
/// Every error is collected, not just the first: the errors of the files in
/// that order, then one validation error per reference between the tables that
/// does not resolve. Of several definitions with one key the last counts; a
/// missing or broken config file falls back to the default configuration.
/// The content is returned exactly when no error occurred.
pub fn load_game_data(
    abilities: Result<Vec<AbilityDef>, LoadError>,
    units: Result<Vec<UnitDef>, LoadError>,
    enemies: Result<Vec<EnemyDef>, LoadError>,
    equipment: Result<Vec<EquipmentDef>, LoadError>,
    djinn: Result<Vec<DjinnDef>, LoadError>,
    encounters: Result<Vec<EncounterDef>, LoadError>,
    config: Result<CombatConfig, LoadError>,
) -> (r: Result<GameData, Vec<LoadError>>)
    ensures
        ({
            let file_errors = err_of(abilities) + err_of(units) + err_of(enemies) + err_of(equipment)
                + err_of(djinn) + err_of(encounters) + err_of(config);
            let ab = keep_last(list_of(abilities));
            let un = keep_last(list_of(units));
            let en = keep_last(list_of(enemies));
            let eq = keep_last(list_of(equipment));
            let dj = keep_last(list_of(djinn));
            let ec = keep_last(list_of(encounters));
            let msgs = validation_msgs(ab, un, en, eq, dj, ec);
            match r {
                Ok(d) => {
                    &&& file_errors.len() == 0
                    &&& msgs.len() == 0
                    &&& d.abilities@ == ab
                    &&& d.units@ == un
                    &&& d.enemies@ == en
                    &&& d.equipment@ == eq
                    &&& d.djinn@ == dj
                    &&& d.encounters@ == ec
                    &&& match config {
                        Ok(c) => d.config == c,
                        Err(_) => is_default_config(d.config),
                    }
                },
                Err(es) => {
                    &&& file_errors.len() + msgs.len() > 0
                    &&& es@.len() == file_errors.len() + msgs.len()
                    &&& err_views(es@.take(file_errors.len() as int)) == err_views(file_errors)
                    &&& err_views(es@.skip(file_errors.len() as int)) == as_validation(msgs)
                },
            }
        }),
{
    let ghost cfg_in = config;
    let mut errors: Vec<LoadError> = Vec::new();
    let abilities = take_list(abilities, &mut errors);
    let units = take_list(units, &mut errors);
    let enemies = take_list(enemies, &mut errors);
    let equipment = take_list(equipment, &mut errors);
    let djinn = take_list(djinn, &mut errors);
    let encounters = take_list(encounters, &mut errors);
    let config = match config {
        Ok(c) => {
            assert(errors@ =~= errors@ + Seq::<LoadError>::empty());
            c
        },
        Err(e) => {
            let ghost before = errors@;
            errors.push(e);
            assert(errors@ =~= before + seq![e]);
            default_combat_config()
        },
    };
    let ghost file_errors = errors@;
    let data = GameData {
        abilities: keep_last_defs(abilities),
        units: keep_last_defs(units),
        enemies: keep_last_defs(enemies),
        equipment: keep_last_defs(equipment),
        djinn: keep_last_defs(djinn),
        encounters: keep_last_defs(encounters),
        config,
    };
    validate(&data, &mut errors);
    proof {
        let n = file_errors.len() as int;
        assert(err_views(errors@).len() == errors@.len());
        assert(errors@.len() >= n);
        assert forall|k: int| 0 <= k < n implies err_views(errors@.take(n))[k] == err_views(file_errors)[k] by {
            assert(err_views(errors@.take(n))[k] == errors@[k]@);
            assert(err_views(errors@)[k] == errors@[k]@);
            assert(err_views(errors@)[k] == (err_views(file_errors) + as_validation(
                validation_msgs(
                    data.abilities@,
                    data.units@,
                    data.enemies@,
                    data.equipment@,
                    data.djinn@,
                    data.encounters@,
                ),
            ))[k]);
        }
        assert(err_views(errors@.take(n)) =~= err_views(file_errors));
    }
    if errors.len() == 0 {
        Ok(data)
    } else {
        proof {
            assert(err_views(errors@.skip(file_errors.len() as int)) =~= err_views(errors@).skip(
                file_errors.len() as int,
            ));
        }
        Err(errors)
    }
}

} // verus!

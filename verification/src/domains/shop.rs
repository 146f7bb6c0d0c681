//! Shops: stock that remains per shop and item, buying and selling.
//!
//! An item a shop lists is stocked without limit, stocked with a positive
//! count, or no longer stocked (a limited stock that ran out).
use vstd::prelude::*;

use crate::shared::bounded_types::{Gold, ItemCount};
use crate::shared::{ItemId, ShopDef, ShopEntry, ShopEvent, ShopId, ShopStock};

verus! {

#[derive(Debug, Clone, Copy, PartialEq, Eq, Structural)]
pub enum ShopError {
    NotEnoughGold,
    OutOfStock,
    ItemNotInShop,
}

/// What remains of one item in one shop: `None` without limit, else the count.
struct StockEntry {
    shop: ShopId,
    item: ItemId,
    remaining: Option<ItemCount>,
}

/// Runtime stock remaining per shop.
pub struct ShopState {
    entries: Vec<StockEntry>,
}

spec fn key_is(e: StockEntry, shop: ShopId, item: Seq<char>) -> bool {
    e.shop == shop && e.item@ == item
}

/// No shop lists the same item twice.
spec fn unique(s: Seq<StockEntry>) -> bool {
    forall|i: int, j: int|
        0 <= i < s.len() && 0 <= j < s.len() && i != j ==> !key_is(
            #[trigger] s[i],
            s[j].shop,
            #[trigger] s[j].item@,
        )
}

spec fn has_key(s: Seq<StockEntry>, shop: ShopId, item: Seq<char>) -> bool {
    exists|i: int| 0 <= i < s.len() && key_is(#[trigger] s[i], shop, item)
}

spec fn lookup(s: Seq<StockEntry>, shop: ShopId, item: Seq<char>) -> Option<Option<ItemCount>> {
    if has_key(s, shop, item) {
        Some(s[choose|i: int| 0 <= i < s.len() && key_is(#[trigger] s[i], shop, item)].remaining)
    } else {
        None
    }
}

/// A limited count as the number it stands for.
pub open spec fn count_view(c: Option<ItemCount>) -> Option<u8> {
    match c {
        Some(n) => Some(n@),
        None => None,
    }
}

spec fn lookup_view(s: Seq<StockEntry>, shop: ShopId, item: Seq<char>) -> Option<Option<u8>> {
    match lookup(s, shop, item) {
        Some(c) => Some(count_view(c)),
        None => None,
    }
}

impl ShopState {
    /// No item is recorded twice for a shop.
    pub closed spec fn wf(&self) -> bool {
        unique(self.entries@)
    }

    /// Stock of `item` in `shop`: `None` when not stocked, `Some(None)` when
    /// stocked without limit, `Some(Some(n))` when `n` remain.
    pub closed spec fn stock_of(&self, shop: ShopId, item: Seq<char>) -> Option<Option<u8>> {
        lookup_view(self.entries@, shop, item)
    }
}

impl Default for ShopState {
    fn default() -> (r: Self)
        ensures
            r.wf(),
            forall|shop: ShopId, item: Seq<char>| #[trigger] r.stock_of(shop, item) is None,
    {
        ShopState { entries: Vec::new() }
    }
}

proof fn lemma_lookup_at(s: Seq<StockEntry>, k: int)
    requires
        unique(s),
        0 <= k < s.len(),
    ensures
        lookup(s, s[k].shop, s[k].item@) == Some(s[k].remaining),
{
    assert(key_is(s[k], s[k].shop, s[k].item@));
    let i = choose|i: int| 0 <= i < s.len() && key_is(#[trigger] s[i], s[k].shop, s[k].item@);
    if i != k {
        assert(!key_is(s[i], s[k].shop, s[k].item@));
    }
}

/// Where a key sits, if anywhere, decides the lookup.
proof fn lemma_lookup_cases(s: Seq<StockEntry>, shop: ShopId, item: Seq<char>)
    requires
        unique(s),
    ensures
        !has_key(s, shop, item) ==> lookup(s, shop, item) is None,
        forall|k: int|
            0 <= k < s.len() && key_is(#[trigger] s[k], shop, item) ==> lookup(s, shop, item) == Some(
                s[k].remaining,
            ),
{
    assert forall|k: int| 0 <= k < s.len() && key_is(#[trigger] s[k], shop, item) implies lookup(
        s,
        shop,
        item,
    ) == Some(s[k].remaining) by {
        lemma_lookup_at(s, k);
    }
}

proof fn lemma_lookup_push(s: Seq<StockEntry>, e: StockEntry, shop: ShopId, item: Seq<char>)
    requires
        unique(s),
        !has_key(s, e.shop, e.item@),
    ensures
        unique(s.push(e)),
        lookup(s.push(e), shop, item) == if key_is(e, shop, item) {
            Some(e.remaining)
        } else {
            lookup(s, shop, item)
        },
{
    let t = s.push(e);
    assert forall|i: int, j: int|
        0 <= i < t.len() && 0 <= j < t.len() && i != j implies !key_is(
            #[trigger] t[i],
            t[j].shop,
            #[trigger] t[j].item@,
        ) by {
        if i == s.len() {
            assert(t[j] == s[j]);
        } else if j == s.len() {
            assert(t[i] == s[i]);
            if key_is(t[i], t[j].shop, t[j].item@) {
                assert(key_is(s[i], e.shop, e.item@));
            }
        } else {
            assert(t[i] == s[i] && t[j] == s[j]);
        }
    }
    lemma_lookup_cases(t, shop, item);
    lemma_lookup_cases(s, shop, item);
    if key_is(e, shop, item) {
        assert(key_is(t[s.len() as int], shop, item));
    } else if has_key(s, shop, item) {
        let k = choose|k: int| 0 <= k < s.len() && key_is(#[trigger] s[k], shop, item);
        assert(t[k] == s[k]);
    } else {
        assert forall|i: int| 0 <= i < t.len() implies !key_is(#[trigger] t[i], shop, item) by {
            if i < s.len() {
                assert(t[i] == s[i]);
            }
        }
    }
}

proof fn lemma_lookup_update(s: Seq<StockEntry>, k: int, e: StockEntry, shop: ShopId, item: Seq<char>)
    requires
        unique(s),
        0 <= k < s.len(),
        e.shop == s[k].shop,
        e.item@ == s[k].item@,
    ensures
        unique(s.update(k, e)),
        lookup(s.update(k, e), shop, item) == if key_is(e, shop, item) {
            Some(e.remaining)
        } else {
            lookup(s, shop, item)
        },
{
    let t = s.update(k, e);
    assert forall|i: int, j: int|
        0 <= i < t.len() && 0 <= j < t.len() && i != j implies !key_is(
            #[trigger] t[i],
            t[j].shop,
            #[trigger] t[j].item@,
        ) by {
        assert(!key_is(s[i], s[j].shop, s[j].item@));
    }
    lemma_lookup_cases(t, shop, item);
    lemma_lookup_cases(s, shop, item);
    if key_is(e, shop, item) {
        assert(key_is(t[k], shop, item));
    } else if has_key(s, shop, item) {
        let j = choose|j: int| 0 <= j < s.len() && key_is(#[trigger] s[j], shop, item);
        assert(t[j] == s[j]);
    } else {
        assert forall|i: int| 0 <= i < t.len() implies !key_is(#[trigger] t[i], shop, item) by {
            if i != k {
                assert(t[i] == s[i]);
            }
        }
    }
}

proof fn lemma_lookup_remove(s: Seq<StockEntry>, k: int, shop: ShopId, item: Seq<char>)
    requires
        unique(s),
        0 <= k < s.len(),
    ensures
        unique(s.remove(k)),
        lookup(s.remove(k), shop, item) == if key_is(s[k], shop, item) {
            None
        } else {
            lookup(s, shop, item)
        },
{
    let t = s.remove(k);
    assert forall|i: int, j: int|
        0 <= i < t.len() && 0 <= j < t.len() && i != j implies !key_is(
            #[trigger] t[i],
            t[j].shop,
            #[trigger] t[j].item@,
        ) by {
        let si = if i < k { i } else { i + 1 };
        let sj = if j < k { j } else { j + 1 };
        assert(t[i] == s[si] && t[j] == s[sj]);
        assert(!key_is(s[si], s[sj].shop, s[sj].item@));
    }
    lemma_lookup_cases(t, shop, item);
    lemma_lookup_cases(s, shop, item);
    if key_is(s[k], shop, item) {
        assert forall|i: int| 0 <= i < t.len() implies !key_is(#[trigger] t[i], shop, item) by {
            let si = if i < k { i } else { i + 1 };
            assert(t[i] == s[si]);
            assert(!key_is(s[si], s[k].shop, s[k].item@));
        }
    } else if has_key(s, shop, item) {
        let j = choose|j: int| 0 <= j < s.len() && key_is(#[trigger] s[j], shop, item);
        let tj = if j < k { j } else { j - 1 };
        assert(t[tj] == s[j]);
    } else {
        assert forall|i: int| 0 <= i < t.len() implies !key_is(#[trigger] t[i], shop, item) by {
            let si = if i < k { i } else { i + 1 };
            assert(t[i] == s[si]);
        }
    }
}

fn find_entry(entries: &Vec<StockEntry>, shop: ShopId, item: &ItemId) -> (r: Option<usize>)
    ensures
        match r {
            Some(k) => k < entries@.len() && key_is(entries@[k as int], shop, item@),
            None => !has_key(entries@, shop, item@),
        },
{
    let mut i: usize = 0;
    while i < entries.len()
        invariant
            i <= entries@.len(),
            forall|j: int| 0 <= j < i ==> !key_is(#[trigger] entries@[j], shop, item@),
        decreases entries@.len() - i,
    {
        if entries[i].shop == shop && entries[i].item.same_as(item) {
            return Some(i);
        }
        i += 1;
    }
    None
}

/// Set the stock of (`shop`, `item`), replacing what was there.
fn put_stock(entries: &mut Vec<StockEntry>, shop: ShopId, item: ItemId, remaining: Option<ItemCount>)
    requires
        unique(old(entries)@),
    ensures
        unique(final(entries)@),
        forall|s: ShopId, it: Seq<char>|
            #[trigger] lookup(final(entries)@, s, it) == if s == shop && it == item@ {
                Some(remaining)
            } else {
                lookup(old(entries)@, s, it)
            },
{
    let ghost before = entries@;
    let ghost key = item@;
    let e = StockEntry { shop, item, remaining };
    match find_entry(entries, shop, &e.item) {
        Some(k) => {
            entries.set(k, e);
            proof {
                assert forall|s: ShopId, it: Seq<char>|
                    #[trigger] lookup(entries@, s, it) == if s == shop && it == key {
                        Some(remaining)
                    } else {
                        lookup(before, s, it)
                    } by {
                    lemma_lookup_update(before, k as int, entries@[k as int], s, it);
                }
            }
        },
        None => {
            let ghost pushed = e;
            entries.push(e);
            proof {
                assert forall|s: ShopId, it: Seq<char>|
                    #[trigger] lookup(entries@, s, it) == if s == shop && it == key {
                        Some(remaining)
                    } else {
                        lookup(before, s, it)
                    } by {
                    lemma_lookup_push(before, pushed, s, it);
                }
            }
        },
    }
}

impl Clone for StockEntry {
    fn clone(&self) -> (r: Self)
        ensures
            r == *self,
    {
        StockEntry { shop: self.shop, item: self.item.clone(), remaining: self.remaining }
    }
}

/// The entries without those of `shop`.
fn without_shop(entries: &Vec<StockEntry>, shop: ShopId) -> (r: Vec<StockEntry>)
    requires
        unique(entries@),
    ensures
        unique(r@),
        forall|s: ShopId, it: Seq<char>|
            #[trigger] lookup(r@, s, it) == if s == shop {
                None
            } else {
                lookup(entries@, s, it)
            },
{
    let mut kept: Vec<StockEntry> = Vec::new();
    let mut i: usize = 0;
    while i < entries.len()
        invariant
            i <= entries@.len(),
            unique(entries@),
            unique(kept@),
            forall|j: int| 0 <= j < kept@.len() ==> (#[trigger] kept@[j]).shop != shop,
            forall|j: int|
                0 <= j < kept@.len() ==> exists|m: int|
                    0 <= m < i && #[trigger] entries@[m] == #[trigger] kept@[j],
            forall|m: int|
                0 <= m < i && (#[trigger] entries@[m]).shop != shop ==> has_key(
                    kept@,
                    entries@[m].shop,
                    entries@[m].item@,
                ),
            forall|s: ShopId, it: Seq<char>|
                #[trigger] lookup(kept@, s, it) == if s == shop || !has_key(
                    entries@.take(i as int),
                    s,
                    it,
                ) {
                    None
                } else {
                    lookup(entries@, s, it)
                },
        decreases entries@.len() - i,
    {
        let ghost before = kept@;
        if entries[i].shop != shop {
            let e = entries[i].clone();
            proof {
                if has_key(before, e.shop, e.item@) {
                    let j = choose|j: int| 0 <= j < before.len() && key_is(#[trigger] before[j], e.shop, e.item@);
                    let m = choose|m: int| 0 <= m < i && #[trigger] entries@[m] == #[trigger] before[j];
                    assert(!key_is(entries@[m], entries@[i as int].shop, entries@[i as int].item@));
                }
            }
            kept.push(e);
            proof {
                assert forall|s: ShopId, it: Seq<char>|
                    #[trigger] lookup(kept@, s, it) == if s == shop || !has_key(
                        entries@.take(i + 1),
                        s,
                        it,
                    ) {
                        None
                    } else {
                        lookup(entries@, s, it)
                    } by {
                    lemma_lookup_push(before, e, s, it);
                    lemma_lookup_cases(entries@, s, it);
                    if key_is(e, s, it) {
                        assert(entries@.take(i + 1)[i as int] == e);
                    } else if has_key(entries@.take(i + 1), s, it) {
                        let m = choose|m: int|
                            0 <= m < i + 1 && key_is(#[trigger] entries@.take(i + 1)[m], s, it);
                        assert(entries@.take(i as int)[m] == entries@[m]);
                    } else {
                        assert forall|m: int| 0 <= m < i implies !key_is(
                            #[trigger] entries@.take(i as int)[m],
                            s,
                            it,
                        ) by {
                            assert(entries@.take(i + 1)[m] == entries@[m]);
                        }
                    }
                }
                assert forall|j: int| 0 <= j < kept@.len() implies exists|m: int|
                    0 <= m < i + 1 && #[trigger] entries@[m] == #[trigger] kept@[j] by {
                    if j == before.len() {
                        assert(entries@[i as int] == kept@[j]);
                    } else {
                        assert(kept@[j] == before[j]);
                    }
                }
                assert forall|m: int|
                    0 <= m < i + 1 && (#[trigger] entries@[m]).shop != shop implies has_key(
                    kept@,
                    entries@[m].shop,
                    entries@[m].item@,
                ) by {
                    if m == i {
                        assert(key_is(kept@[before.len() as int], entries@[m].shop, entries@[m].item@));
                    } else {
                        let j = choose|j: int|
                            0 <= j < before.len() && key_is(#[trigger] before[j], entries@[m].shop, entries@[m].item@);
                        assert(kept@[j] == before[j]);
                    }
                }
            }
        } else {
            proof {
                assert forall|s: ShopId, it: Seq<char>|
                    #[trigger] lookup(kept@, s, it) == if s == shop || !has_key(
                        entries@.take(i + 1),
                        s,
                        it,
                    ) {
                        None
                    } else {
                        lookup(entries@, s, it)
                    } by {
                    if s != shop && has_key(entries@.take(i + 1), s, it) {
                        let m = choose|m: int|
                            0 <= m < i + 1 && key_is(#[trigger] entries@.take(i + 1)[m], s, it);
                        assert(entries@.take(i + 1)[m] == entries@[m]);
                        assert(entries@.take(i as int)[m] == entries@[m]);
                    }
                    if !has_key(entries@.take(i + 1), s, it) {
                        assert forall|m: int| 0 <= m < i implies !key_is(
                            #[trigger] entries@.take(i as int)[m],
                            s,
                            it,
                        ) by {
                            assert(entries@.take(i + 1)[m] == entries@[m]);
                        }
                    }
                }
            }
        }
        i += 1;
    }
    proof {
        assert(entries@.take(entries@.len() as int) =~= entries@);
        assert forall|s: ShopId, it: Seq<char>|
            #[trigger] lookup(kept@, s, it) == if s == shop {
                None
            } else {
                lookup(entries@, s, it)
            } by {
            if !has_key(entries@, s, it) {
                lemma_lookup_cases(entries@, s, it);
            }
        }
    }
    kept
}

/// Stock of a listed entry: `None` without limit.
pub open spec fn stock_count(s: ShopStock) -> Option<u8> {
    match s {
        ShopStock::Unlimited => None,
        ShopStock::Limited(c) => Some(c@),
    }
}

/// Stock that the last entry for `item` among `entries` sets.
pub open spec fn entry_stock(entries: Seq<ShopEntry>, item: Seq<char>) -> Option<Option<u8>>
    decreases entries.len(),
{
    if entries.len() == 0 {
        None
    } else if entries.last().item_id@ == item {
        Some(stock_count(entries.last().stock))
    } else {
        entry_stock(entries.drop_last(), item)
    }
}

/// Initial stock of (`shop`, `item`): the last definition of the shop decides.
pub open spec fn initial_stock(defs: Seq<ShopDef>, shop: ShopId, item: Seq<char>) -> Option<Option<u8>>
    decreases defs.len(),
{
    if defs.len() == 0 {
        None
    } else if defs.last().id == shop {
        entry_stock(defs.last().inventory@, item)
    } else {
        initial_stock(defs.drop_last(), shop, item)
    }
}

/// Stock every shop with its listed items, limited items at their listed count.
pub fn init_shop_state(defs: &[ShopDef]) -> (r: ShopState)
    ensures
        r.wf(),
        forall|shop: ShopId, item: Seq<char>| #[trigger] r.stock_of(shop, item) == initial_stock(
            defs@,
            shop,
            item,
        ),
{
    let mut entries: Vec<StockEntry> = Vec::new();
    let mut i: usize = 0;
    while i < defs.len()
        invariant
            i <= defs@.len(),
            unique(entries@),
            forall|shop: ShopId, item: Seq<char>| #[trigger] lookup_view(entries@, shop, item)
                == initial_stock(defs@.take(i as int), shop, item),
        decreases defs@.len() - i,
    {
        let def = &defs[i];
        let id = def.id;
        let ghost prev = entries@;
        entries = without_shop(&entries, id);
        proof {
            assert forall|shop: ShopId, item: Seq<char>| #[trigger] lookup_view(entries@, shop, item)
                == if shop == id {
                entry_stock(def.inventory@.take(0), item)
            } else {
                initial_stock(defs@.take(i as int), shop, item)
            } by {
                assert(def.inventory@.take(0).len() == 0);
                assert(lookup(entries@, shop, item) == if shop == id {
                    None
                } else {
                    lookup(prev, shop, item)
                });
                assert(lookup_view(prev, shop, item) == initial_stock(defs@.take(i as int), shop, item));
            }
        }
        let mut j: usize = 0;
        while j < def.inventory.len()
            invariant
                i < defs@.len(),
                def == defs@[i as int],
                id == def.id,
                j <= def.inventory@.len(),
                unique(entries@),
                forall|shop: ShopId, item: Seq<char>| #[trigger] lookup_view(entries@, shop, item)
                    == if shop == id {
                    entry_stock(def.inventory@.take(j as int), item)
                } else {
                    initial_stock(defs@.take(i as int), shop, item)
                },
            decreases def.inventory@.len() - j,
        {
            let entry = &def.inventory[j];
            let remaining = match entry.stock {
                ShopStock::Unlimited => None,
                ShopStock::Limited(count) => Some(count),
            };
            let ghost before = entries@;
            put_stock(&mut entries, id, entry.item_id.clone(), remaining);
            proof {
                let inv = def.inventory@;
                assert(inv.take(j + 1).drop_last() =~= inv.take(j as int));
                assert(inv.take(j + 1).last() == inv[j as int]);
                assert forall|shop: ShopId, item: Seq<char>| #[trigger] lookup_view(entries@, shop, item)
                    == if shop == id {
                    entry_stock(inv.take(j + 1), item)
                } else {
                    initial_stock(defs@.take(i as int), shop, item)
                } by {
                    assert(lookup_view(before, shop, item) == lookup_view(before, shop, item));
                }
            }
            j += 1;
        }
        proof {
            let d = defs@.take(i + 1);
            assert(def.inventory@.take(def.inventory@.len() as int) =~= def.inventory@);
            assert(d.drop_last() =~= defs@.take(i as int));
            assert(d.last() == defs@[i as int]);
        }
        i += 1;
    }
    proof {
        assert(defs@.take(defs@.len() as int) =~= defs@);
    }
    ShopState { entries }
}

/// The first definition of `shop`.
pub open spec fn find_def(defs: Seq<ShopDef>, shop: ShopId) -> Option<ShopDef>
    decreases defs.len(),
{
    if defs.len() == 0 {
        None
    } else if defs[0].id == shop {
        Some(defs[0])
    } else {
        find_def(defs.drop_first(), shop)
    }
}

/// The first entry for `item`.
pub open spec fn find_listing(entries: Seq<ShopEntry>, item: Seq<char>) -> Option<ShopEntry>
    decreases entries.len(),
{
    if entries.len() == 0 {
        None
    } else if entries[0].item_id@ == item {
        Some(entries[0])
    } else {
        find_listing(entries.drop_first(), item)
    }
}

/// The entry for `item` in the first definition of `shop`.
pub open spec fn listed_entry(defs: Seq<ShopDef>, shop: ShopId, item: Seq<char>) -> Option<ShopEntry> {
    match find_def(defs, shop) {
        Some(d) => find_listing(d.inventory@, item),
        None => None,
    }
}

/// Whether a purchase may go ahead: the item must be listed, affordable and
/// still stocked, checked in that order.
pub open spec fn buy_check(
    listed: Option<ShopEntry>,
    gold: u32,
    stock: Option<Option<u8>>,
) -> Result<(), ShopError> {
    match listed {
        None => Err(ShopError::ItemNotInShop),
        Some(e) => if gold < e.price@ {
            Err(ShopError::NotEnoughGold)
        } else if stock is None {
            Err(ShopError::OutOfStock)
        } else {
            Ok(())
        },
    }
}

fn find_def_exec<'a>(defs: &'a [ShopDef], shop: ShopId) -> (r: Option<&'a ShopDef>)
    ensures
        match r {
            Some(d) => find_def(defs@, shop) == Some(*d),
            None => find_def(defs@, shop) is None,
        },
{
    let mut i: usize = 0;
    assert(defs@.skip(0) =~= defs@);
    while i < defs.len()
        invariant
            i <= defs@.len(),
            find_def(defs@, shop) == find_def(defs@.skip(i as int), shop),
        decreases defs@.len() - i,
    {
        assert(defs@.skip(i as int).drop_first() =~= defs@.skip(i + 1));
        if defs[i].id == shop {
            return Some(&defs[i]);
        }
        i += 1;
    }
    None
}

fn find_listing_exec<'a>(entries: &'a Vec<ShopEntry>, item: &ItemId) -> (r: Option<&'a ShopEntry>)
    ensures
        match r {
            Some(e) => find_listing(entries@, item@) == Some(*e),
            None => find_listing(entries@, item@) is None,
        },
{
    let mut i: usize = 0;
    assert(entries@.skip(0) =~= entries@);
    while i < entries.len()
        invariant
            i <= entries@.len(),
            find_listing(entries@, item@) == find_listing(entries@.skip(i as int), item@),
        decreases entries@.len() - i,
    {
        assert(entries@.skip(i as int).drop_first() =~= entries@.skip(i + 1));
        if entries[i].item_id.same_as(item) {
            return Some(&entries[i]);
        }
        i += 1;
    }
    None
}

/// Whether `item_id` can be bought from `shop_id` with `player_gold`.
pub fn can_buy(
    shop_state: &ShopState,
    shop_id: ShopId,
    item_id: &ItemId,
    player_gold: Gold,
    defs: &[ShopDef],
) -> (r: Result<(), ShopError>)
    requires
        shop_state.wf(),
    ensures
        r == buy_check(
            listed_entry(defs@, shop_id, item_id@),
            player_gold@,
            shop_state.stock_of(shop_id, item_id@),
        ),
{
    let entry = match find_def_exec(defs, shop_id) {
        Some(d) => find_listing_exec(&d.inventory, item_id),
        None => None,
    };
    let entry = match entry {
        Some(e) => e,
        None => {
            return Err(ShopError::ItemNotInShop);
        },
    };
    if player_gold.get() < entry.price.get() {
        return Err(ShopError::NotEnoughGold);
    }
    proof {
        lemma_lookup_cases(shop_state.entries@, shop_id, item_id@);
    }
    match find_entry(&shop_state.entries, shop_id, item_id) {
        Some(_) => Ok(()),
        None => Err(ShopError::OutOfStock),
    }
}

/// Stock after one purchase: a limited count goes down by one, and an item
/// whose last unit was sold is no longer stocked.
pub open spec fn stock_after_buy(s: Option<Option<u8>>) -> Option<Option<u8>> {
    match s {
        Some(Some(n)) => if n <= 1 {
            None
        } else {
            Some(Some((n - 1) as u8))
        },
        other => other,
    }
}

/// Take one unit of `item_id` from `shop_id`'s stock and report the purchase.
/// Gold is the caller's to deduct.
pub fn execute_buy(shop_state: &mut ShopState, shop_id: ShopId, item_id: &ItemId) -> (r: ShopEvent)
    requires
        old(shop_state).wf(),
    ensures
        final(shop_state).wf(),
        final(shop_state).stock_of(shop_id, item_id@) == stock_after_buy(
            old(shop_state).stock_of(shop_id, item_id@),
        ),
        forall|s: ShopId, it: Seq<char>|
            !(s == shop_id && it == item_id@) ==> #[trigger] final(shop_state).stock_of(s, it)
                == old(shop_state).stock_of(s, it),
        r matches ShopEvent::Buy { shop, item, count } && shop == shop_id && item@ == item_id@
            && count@ == 1,
{
    let ghost before = shop_state.entries@;
    proof {
        lemma_lookup_cases(before, shop_id, item_id@);
    }
    match find_entry(&shop_state.entries, shop_id, item_id) {
        Some(k) => {
            match shop_state.entries[k].remaining {
                Some(count) => {
                    let n = count.get();
                    if n - 1 == 0 {
                        shop_state.entries.remove(k);
                        proof {
                            assert forall|s: ShopId, it: Seq<char>|
                                !(s == shop_id && it == item_id@) implies #[trigger] lookup_view(
                                shop_state.entries@,
                                s,
                                it,
                            ) == lookup_view(before, s, it) by {
                                lemma_lookup_remove(before, k as int, s, it);
                            }
                            lemma_lookup_remove(before, k as int, shop_id, item_id@);
                        }
                    } else {
                        let e = StockEntry {
                            shop: shop_id,
                            item: item_id.clone(),
                            remaining: Some(ItemCount::new(n - 1)),
                        };
                        let ghost updated = e;
                        shop_state.entries.set(k, e);
                        proof {
                            assert forall|s: ShopId, it: Seq<char>|
                                !(s == shop_id && it == item_id@) implies #[trigger] lookup_view(
                                shop_state.entries@,
                                s,
                                it,
                            ) == lookup_view(before, s, it) by {
                                lemma_lookup_update(before, k as int, updated, s, it);
                            }
                            lemma_lookup_update(before, k as int, updated, shop_id, item_id@);
                        }
                    }
                },
                None => {},
            }
        },
        None => {},
    }
    ShopEvent::Buy { shop: shop_id, item: item_id.clone(), count: ItemCount::new(1) }
}

/// Half the buy price, rounded down.
pub fn sell_price(base_price: Gold) -> (r: Gold)
    ensures
        r@ == base_price@ / 2,
{
    Gold::new(base_price.get() / 2)
}

/// Report a sale of `count` units of `item_id`; the caller pays out.
pub fn execute_sell(item_id: &ItemId, count: ItemCount) -> (r: ShopEvent)
    ensures
        r matches ShopEvent::Sell { item, count: c } && item@ == item_id@ && c == count,
{
    ShopEvent::Sell { item: item_id.clone(), count }
}

/// Stock after `k` purchases.
pub open spec fn stock_after_buys(s: Option<Option<u8>>, k: nat) -> Option<Option<u8>>
    decreases k,
{
    if k == 0 {
        s
    } else {
        stock_after_buy(stock_after_buys(s, (k - 1) as nat))
    }
}

/// A limited stock of `n` units lasts exactly `n` purchases: after `k < n`
/// purchases `n - k` units remain, and after `n` it is sold out and stays so.
pub proof fn lemma_limited_stock_lasts_n_purchases(n: u8, k: nat)
    requires
        n >= 1,
    ensures
        k < n ==> stock_after_buys(Some(Some(n)), k) == Some(Some((n - k) as u8)),
        k >= n ==> stock_after_buys(Some(Some(n)), k) is None,
    decreases k,
{
    if k > 0 {
        lemma_limited_stock_lasts_n_purchases(n, (k - 1) as nat);
    }
}

/// An unlimited stock never sells out.
pub proof fn lemma_unlimited_stock_never_runs_out(k: nat)
    ensures
        stock_after_buys(Some(None), k) == Some(None::<u8>),
    decreases k,
{
    if k > 0 {
        lemma_unlimited_stock_never_runs_out((k - 1) as nat);
    }
}

} // verus!

use vale_village::domains::shop::{
    can_buy, execute_buy, execute_sell, init_shop_state, sell_price, ShopError,
};
use vale_village::shared::bounded_types::{Gold, ItemCount};
use vale_village::shared::{ItemId, ShopDef, ShopEntry, ShopEvent, ShopId, ShopStock};

fn make_def(id: u8, item: &str, price: u32, stock: ShopStock) -> ShopDef {
    ShopDef {
        id: ShopId(id),
        name: format!("Shop {id}"),
        inventory: vec![ShopEntry {
            item_id: ItemId(item.to_string()),
            price: Gold::new(price),
            stock,
        }],
    }
}

fn item(s: &str) -> ItemId {
    ItemId(s.to_string())
}

#[test]
fn buy_success() {
    let defs = vec![make_def(1, "sword", 100, ShopStock::Unlimited)];
    let state = init_shop_state(&defs);
    assert_eq!(
        can_buy(&state, ShopId(1), &item("sword"), Gold::new(200), &defs),
        Ok(())
    );
}

#[test]
fn buy_exact_gold() {
    let defs = vec![make_def(1, "ring", 50, ShopStock::Unlimited)];
    let state = init_shop_state(&defs);
    assert_eq!(
        can_buy(&state, ShopId(1), &item("ring"), Gold::new(50), &defs),
        Ok(())
    );
}

#[test]
fn buy_insufficient_gold() {
    let defs = vec![make_def(1, "sword", 100, ShopStock::Unlimited)];
    let state = init_shop_state(&defs);
    assert_eq!(
        can_buy(&state, ShopId(1), &item("sword"), Gold::new(50), &defs),
        Err(ShopError::NotEnoughGold)
    );
}

#[test]
fn buy_item_not_in_shop() {
    let defs = vec![make_def(1, "sword", 100, ShopStock::Unlimited)];
    let state = init_shop_state(&defs);
    assert_eq!(
        can_buy(&state, ShopId(1), &item("shield"), Gold::new(200), &defs),
        Err(ShopError::ItemNotInShop)
    );
}

#[test]
fn limited_stock_depletion() {
    let defs = vec![make_def(1, "potion", 10, ShopStock::Limited(ItemCount::new(1)))];
    let mut state = init_shop_state(&defs);
    assert_eq!(
        can_buy(&state, ShopId(1), &item("potion"), Gold::new(100), &defs),
        Ok(())
    );
    execute_buy(&mut state, ShopId(1), &item("potion"));
    assert_eq!(
        can_buy(&state, ShopId(1), &item("potion"), Gold::new(100), &defs),
        Err(ShopError::OutOfStock)
    );
}

#[test]
fn limited_stock_partial_depletion() {
    let defs = vec![make_def(1, "arrow", 5, ShopStock::Limited(ItemCount::new(3)))];
    let mut state = init_shop_state(&defs);
    execute_buy(&mut state, ShopId(1), &item("arrow"));
    execute_buy(&mut state, ShopId(1), &item("arrow"));
    // 1 remaining — still purchasable
    assert_eq!(
        can_buy(&state, ShopId(1), &item("arrow"), Gold::new(100), &defs),
        Ok(())
    );
    execute_buy(&mut state, ShopId(1), &item("arrow"));
    assert_eq!(
        can_buy(&state, ShopId(1), &item("arrow"), Gold::new(100), &defs),
        Err(ShopError::OutOfStock)
    );
}

#[test]
fn unlimited_never_depletes() {
    let defs = vec![make_def(1, "herb", 5, ShopStock::Unlimited)];
    let mut state = init_shop_state(&defs);
    for _ in 0..10 {
        execute_buy(&mut state, ShopId(1), &item("herb"));
    }
    assert_eq!(
        can_buy(&state, ShopId(1), &item("herb"), Gold::new(100), &defs),
        Ok(())
    );
}

#[test]
fn sell_price_is_half() {
    assert_eq!(sell_price(Gold::new(100)).get(), 50);
    assert_eq!(sell_price(Gold::new(101)).get(), 50); // rounds down
    assert_eq!(sell_price(Gold::new(1)).get(), 0);
    assert_eq!(sell_price(Gold::new(0)).get(), 0);
}

#[test]
fn execute_sell_emits_event() {
    let id = item("herb");
    let count = ItemCount::new(3);
    match execute_sell(&id, count) {
        ShopEvent::Sell { item: i, count: c } => {
            assert_eq!(i.0, "herb");
            assert_eq!(c.get(), 3);
        }
        _ => panic!("expected Sell event"),
    }
}

#[test]
fn execute_buy_emits_event() {
    let defs = vec![make_def(1, "sword", 100, ShopStock::Unlimited)];
    let mut state = init_shop_state(&defs);
    match execute_buy(&mut state, ShopId(1), &item("sword")) {
        ShopEvent::Buy { shop, item: i, count } => {
            assert_eq!(shop, ShopId(1));
            assert_eq!(i.0, "sword");
            assert_eq!(count.get(), 1);
        }
        _ => panic!("expected Buy event"),
    }
}

#[test]
fn later_definition_of_a_shop_replaces_earlier() {
    let defs = vec![
        make_def(1, "sword", 100, ShopStock::Unlimited),
        make_def(1, "herb", 5, ShopStock::Limited(ItemCount::new(1))),
    ];
    let mut state = init_shop_state(&defs);
    // The first definition lists the sword, but the stock comes from the last one.
    assert_eq!(
        can_buy(&state, ShopId(1), &item("sword"), Gold::new(500), &defs),
        Err(ShopError::OutOfStock)
    );
    execute_buy(&mut state, ShopId(1), &item("herb"));
    assert_eq!(
        can_buy(&state, ShopId(1), &item("herb"), Gold::new(500), &defs),
        Err(ShopError::ItemNotInShop)
    );
}

#[test]
fn buying_in_one_shop_leaves_another_alone() {
    let defs = vec![
        make_def(1, "potion", 10, ShopStock::Limited(ItemCount::new(1))),
        make_def(2, "potion", 10, ShopStock::Limited(ItemCount::new(1))),
    ];
    let mut state = init_shop_state(&defs);
    execute_buy(&mut state, ShopId(1), &item("potion"));
    assert_eq!(
        can_buy(&state, ShopId(1), &item("potion"), Gold::new(100), &defs),
        Err(ShopError::OutOfStock)
    );
    assert_eq!(
        can_buy(&state, ShopId(2), &item("potion"), Gold::new(100), &defs),
        Ok(())
    );
}

#[test]
fn unknown_shop_is_item_not_in_shop() {
    let defs = vec![make_def(1, "sword", 100, ShopStock::Unlimited)];
    let state = init_shop_state(&defs);
    assert_eq!(
        can_buy(&state, ShopId(9), &item("sword"), Gold::new(200), &defs),
        Err(ShopError::ItemNotInShop)
    );
}

#[test]
fn gold_is_checked_before_stock() {
    let defs = vec![make_def(1, "potion", 10, ShopStock::Limited(ItemCount::new(1)))];
    let mut state = init_shop_state(&defs);
    execute_buy(&mut state, ShopId(1), &item("potion"));
    assert_eq!(
        can_buy(&state, ShopId(1), &item("potion"), Gold::new(5), &defs),
        Err(ShopError::NotEnoughGold)
    );
}

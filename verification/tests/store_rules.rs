use sprk::error::ServerError;
use sprk::forms::Request;
use sprk::inventory::{
    capacity, check_open_count, open_package, consume_check, expand_price, extension_after, package_reward,
    potion_effect, sale_gold, stamina_kind, transcend_points_after, InventoryExtension, PackageData,
    PotionData, PotionEffect, SaleLine, SaleTerms, StaminaKind,
};
use sprk::shop::{
    pick_stock_row, purchase_count, purchase_totals, restock_check, shop_open_check, shop_price,
    sold_out_check, stock_current_check, ItemPrices, ShopData, ShopRow,
};

fn code<T>(r: Result<T, ServerError>) -> String {
    match r {
        Err(ServerError::InvalidRequest(c)) => c,
        Err(e) => panic!("unexpected error {:?}", e),
        Ok(_) => panic!("expected a refusal"),
    }
}

fn req(pairs: &[(&str, &str)]) -> Request {
    Request(pairs.iter().map(|(k, v)| (k.to_string(), v.to_string())).collect())
}

fn exts() -> Vec<InventoryExtension> {
    vec![
        InventoryExtension { inventory_type: 0, extend_count: 5, extend_size: 10, extend_price: 100 },
        InventoryExtension { inventory_type: 0, extend_count: 10, extend_size: 20, extend_price: 200 },
        InventoryExtension { inventory_type: 1, extend_count: 3, extend_size: 5, extend_price: 50 },
    ]
}

#[test]
fn inventory_capacity_grows_with_each_extension() {
    assert!(capacity(&exts(), 0, 2, 100, 115, 5).is_ok());
    assert_eq!(code(capacity(&exts(), 0, 2, 100, 115, 6)), "EquipItemFull");
    assert!(capacity(&exts(), 0, 6, 100, 220, 0).is_ok());
    assert!(capacity(&exts(), 2, 1, 100, 108, 0).is_ok());
    assert_eq!(expand_price(&exts(), false, 2, 100).unwrap(), 100);
    assert_eq!(expand_price(&exts(), false, 6, 200).unwrap(), 200);
    assert_eq!(code(expand_price(&exts(), false, 6, 100)), "ReqGemError");
    assert_eq!(code(expand_price(&exts(), false, 10, 200)), "ReqGemError");
    assert_eq!(expand_price(&exts(), true, 0, 50).unwrap(), 50);
}

#[test]
fn items_are_consumed_only_when_held_and_unlocked() {
    assert_eq!(consume_check(5, 0, 3).unwrap(), 2);
    assert_eq!(code(consume_check(5, 0, 0)), "InvalidItemCount");
    assert_eq!(code(consume_check(2, 0, 3)), "ItemNotOwned");
    assert_eq!(code(consume_check(5, 1, 3)), "ItemNotOwned");
}

#[test]
fn potions_act_by_their_type() {
    assert!(matches!(stamina_kind("").unwrap(), StaminaKind::Chicken));
    assert!(matches!(stamina_kind("Sword2").unwrap(), StaminaKind::Sword2));
    assert_eq!(code(stamina_kind("Mana")), "InvalidStaminaType");
    assert_eq!(StaminaKind::GuildRaidTicket.wire(), "GuildRaidTicket");
    let full = PotionData { action_type: 2, action_value: 50, action_sub_value: "Stamina".to_string() };
    assert!(matches!(potion_effect(&full, 2, 300).unwrap(), PotionEffect::Stamina { kind: StaminaKind::Chicken, amount: 300 }));
    assert_eq!(code(potion_effect(&full, 1, 0)), "InvalidActionValue");
    let gem = PotionData { action_type: 4, action_value: 10, action_sub_value: String::new() };
    assert!(matches!(potion_effect(&gem, 3, 0).unwrap(), PotionEffect::Gem { amount: 30 }));
    let chest = PotionData { action_type: 10, action_value: 1, action_sub_value: String::new() };
    assert!(matches!(potion_effect(&chest, 2, 0).unwrap(), PotionEffect::Extend { chest: true, amount: 2 }));
    let odd = PotionData { action_type: 9, action_value: 1, action_sub_value: String::new() };
    assert_eq!(code(potion_effect(&odd, 1, 0)), "InvalidAction");
    let none = PotionData { action_type: 4, action_value: 0, action_sub_value: String::new() };
    assert_eq!(code(potion_effect(&none, 1, 0)), "InvalidActionValue");
    assert_eq!(extension_after(3, 2, 5).unwrap(), 5);
    assert_eq!(code(extension_after(3, 3, 5)), "InvalidActionValue");
    assert_eq!(transcend_points_after(3, 2, 5).unwrap(), 5);
    assert_eq!(code(transcend_points_after(3, 3, 5)), "MaxHeroTranscendPoint");
    assert_eq!(code(transcend_points_after(3, 0, 5)), "InvalidHeroTranscendPoint");
}

#[test]
fn packages_open_the_reward_their_roll_lands_on() {
    let pkg = PackageData { max_open_count: 5, rates: vec![600, 400], rewards: vec![11, 22] };
    assert_eq!(package_reward(&pkg, 0).unwrap(), 11);
    assert_eq!(package_reward(&pkg, 599).unwrap(), 11);
    assert_eq!(package_reward(&pkg, 600).unwrap(), 22);
    assert_eq!(code(package_reward(&pkg, 1000)), "PackageDataNotFound");
    let empty = PackageData { max_open_count: 0, rates: vec![500, 500], rewards: vec![11, 0] };
    assert_eq!(code(package_reward(&empty, 700)), "PackageDataNotFound");
    assert!(check_open_count(&pkg, 5).is_ok());
    assert_eq!(code(check_open_count(&pkg, 6)), "InvalidItemCount");
    assert!(check_open_count(&empty, 99).is_ok());
}

fn line(count: i32, gold: i64, lock: Option<i32>) -> SaleLine {
    SaleLine {
        item: 1,
        count,
        terms: Some(SaleTerms { breakable: true, not_for_sale: false, sell_gold: gold }),
        lock,
        break_reward: Some(5),
    }
}

#[test]
fn sales_add_up_and_stop_at_the_first_bad_line() {
    assert_eq!(sale_gold(false, &vec![line(2, 10, Some(0)), line(3, 5, Some(0))]).unwrap(), 35);
    assert_eq!(sale_gold(true, &vec![line(2, 10, Some(0))]).unwrap(), 0);
    assert_eq!(code(sale_gold(false, &vec![line(2, 10, Some(1))])), "LockedItemExists");
    assert_eq!(code(sale_gold(false, &vec![line(2, 10, None)])), "NotOwned");
    assert_eq!(code(sale_gold(true, &vec![line(2, 10, None)])), "ItemNotOwned");
    assert_eq!(code(sale_gold(false, &vec![line(2, 0, Some(0))])), "NotForSale");
    assert_eq!(code(sale_gold(true, &vec![line(1001, 1, Some(0))])), "NotBreakableItemExists");
    let unknown = SaleLine { terms: None, ..line(1, 1, Some(0)) };
    assert_eq!(code(sale_gold(false, &vec![line(1, 1, Some(0)), unknown])), "ItemDataNotFound");
    let no_reward = SaleLine { break_reward: None, ..line(1, 1, Some(0)) };
    assert_eq!(code(sale_gold(true, &vec![no_reward])), "ItemBreakDataNotFound");
}

fn shop() -> ShopData {
    ShopData { index: 1, buy_cost_type: 2, max_stock: 3, restock_second: 3600, restock_gem: 50, event_only: 0, use_group_for_level: true }
}

fn row(index: i64, group: i64, target: i64, count: i64) -> ShopRow {
    ShopRow {
        index, shop_index: 1, item: 900, condition: 0, cost_type_for_item: 0, daily_reset: false,
        weekly_reset: false, monthly_days: vec![], purchasable_count: 5, target_price: target, count,
        star: 0, group_index: group,
    }
}

fn prices() -> ItemPrices {
    ItemPrices { gold: 7, gem: 50, pvp_coin: 0, guild_point: 0, royal_point: 0, mileage: 0, friendship_point: 0, raid_point: 0, guild_arena_point: 0 }
}

#[test]
fn shops_check_their_stock_and_price_their_rows() {
    assert!(shop_open_check(&Some(shop())).is_ok());
    assert_eq!(code(shop_open_check(&None)), "NoShopData");
    assert_eq!(code(shop_open_check(&Some(ShopData { event_only: 1, ..shop() }))), "ContentsDisabled");
    assert!(stock_current_check(Some(500), 100).is_ok());
    assert_eq!(code(stock_current_check(Some(100), 100)), "InvalidShopItemListIndex");
    assert_eq!(code(stock_current_check(None, 100)), "InvalidShopItemListIndex");
    assert!(restock_check(&shop()).is_ok());
    assert_eq!(code(restock_check(&ShopData { restock_gem: 0, ..shop() })), "CannotRestock");
    let stock = vec![row(1, 5, 0, 1), row(2, 1, 0, 1), row(2, 2, 0, 1)];
    assert_eq!(pick_stock_row(&shop(), &stock, Some(2), 2).unwrap(), 1);
    assert_eq!(code(pick_stock_row(&shop(), &stock, Some(2), 1)), "ShopItemDataNotFound");
    assert_eq!(pick_stock_row(&shop(), &stock, None, 1).unwrap(), 0);
    assert_eq!(purchase_count(&req(&[("ShopItemPurchaseCount", "3")]), false).unwrap(), 3);
    assert_eq!(purchase_count(&req(&[]), true).unwrap(), 1);
    assert_eq!(code(purchase_count(&req(&[("ShopItemPurchaseCount", "3")]), true)), "InvalidValue");
    assert_eq!(code(purchase_count(&req(&[("ShopItemPurchaseCount", "1001")]), false)), "InvalidItemCount");
    assert!(sold_out_check(5, 3, 2).is_ok());
    assert_eq!(code(sold_out_check(5, 3, 3)), "SoldOut");
    assert!(sold_out_check(0, 99, 99).is_ok());
    assert_eq!(shop_price(&shop(), &row(1, 0, 0, 3), &Some(prices()), false, None).unwrap(), ("Gem", 150));
    assert_eq!(shop_price(&shop(), &row(1, 0, 70, 3), &Some(prices()), false, None).unwrap(), ("Gem", 70));
    assert_eq!(shop_price(&shop(), &row(1, 0, 0, 3), &Some(prices()), true, Some(1500)).unwrap(), ("Gem", 225));
    let gold_row = ShopRow { cost_type_for_item: 1, ..row(1, 0, 0, 2) };
    assert_eq!(shop_price(&shop(), &gold_row, &Some(prices()), false, None).unwrap(), ("Gold", 14));
    let odd_row = ShopRow { cost_type_for_item: 9, ..row(1, 0, 0, 2) };
    assert_eq!(code(shop_price(&shop(), &odd_row, &Some(prices()), false, None)), "InvalidCost");
    assert_eq!(code(shop_price(&shop(), &row(1, 0, 0, 0), &Some(prices()), false, None)), "InvalidCost");
    assert_eq!(code(shop_price(&shop(), &row(1, 0, 0, 3), &None, false, None)), "ItemDataNotFound");
    assert_eq!(purchase_totals(150, 2, 3).unwrap(), (450, 6));
    assert_eq!(code(purchase_totals(i64::MAX, 1, 2)), "InvalidCost");
    assert_eq!(code(purchase_totals(1, i64::from(i32::MAX), 2)), "InvalidValue");
}

#[test]
fn opened_packages_give_the_reward_every_roll_lands_on() {
    let sure = PackageData { max_open_count: 0, rates: vec![1000], rewards: vec![42] };
    assert_eq!(open_package(&sure).unwrap(), 42);
    let never = PackageData { max_open_count: 0, rates: vec![], rewards: vec![] };
    assert_eq!(code(open_package(&never)), "PackageDataNotFound");
}

use sprk::consumables::{rename_check, trim};
use sprk::equip::EquipBoard;
use sprk::error::ServerError;
use sprk::events::{craft_count, group_progress, EventStepRow};
use sprk::forms::Request;
use sprk::gear::item_pairs;
use sprk::inn::reset_times;
use sprk::inventory::{merge_counts, pairs};
use sprk::live::{field_default, flag, live_family, result_code, FieldDefault, LiveFamily};
use sprk::offers::{offer_price, purchase_limit_check};
use sprk::pets::{feed, hatch_time, soul_counts};
use sprk::presets::{apply_preset, preset_name, preset_slot_check, preset_slot_step, HeroPreset};
use sprk::shop::{shop_period, ShopRow};
use sprk::summons::{ceiling_claim, draw_price};

fn code<T>(r: Result<T, ServerError>) -> String {
    match r {
        Err(ServerError::InvalidRequest(c)) => c,
        Err(e) => panic!("unexpected error {:?}", e),
        Ok(_) => panic!("expected a refusal"),
    }
}

fn req(pairs: &[(&str, &str)]) -> Request {
    Request(pairs.iter().map(|(k, v)| (k.to_string(), v.to_string())).collect())
}

#[test]
fn offers_take_the_server_wide_discount_while_it_lasts() {
    assert_eq!(offer_price(1000, 10, 20, 3).unwrap(), (800, true, 7));
    assert_eq!(offer_price(1000, 10, 20, 10).unwrap(), (1000, false, 0));
    assert_eq!(offer_price(1000, 10, 150, 0).unwrap(), (10, true, 10));
    assert_eq!(offer_price(999, 5, 50, 0).unwrap(), (499, true, 5));
    assert_eq!(code(offer_price(0, 10, 20, 0)), "InvalidCost");
    assert!(purchase_limit_check(0, 99).is_ok());
    assert_eq!(code(purchase_limit_check(3, 3)), "ExceededPurchaseCount");
}

#[test]
fn draws_are_priced_after_their_discount() {
    assert_eq!(draw_price(false, 1000, 0, 50, 10).unwrap(), (900, 0, 45));
    assert_eq!(draw_price(false, 0, 300, 0, -5).unwrap(), (0, 300, 0));
    assert_eq!(code(draw_price(true, 1000, 0, 50, 0)), "ItemNotOwned");
    assert_eq!(code(draw_price(false, 1000, 0, 0, 100)), "InvalidCost");
}

#[test]
fn group_tracks_report_the_next_target() {
    let rows = vec![
        EventStepRow { kind: 2, step: 1, target: 100 },
        EventStepRow { kind: 2, step: 2, target: 300 },
        EventStepRow { kind: 0, step: 1, target: 50 },
    ];
    assert_eq!(group_progress(&rows, 150), (1, 300, 150));
    assert_eq!(group_progress(&rows, 20), (0, 100, 80));
    assert_eq!(group_progress(&rows, 400), (2, 400, 0));
    assert_eq!(craft_count(3, 9, 3, 1, 10).unwrap(), 10);
    assert_eq!(craft_count(2, 9, 3, 1, 10).unwrap(), 1);
    assert_eq!(code(craft_count(3, 9, 3, 2, 10)), "InvalidItemCount");
}

fn row(daily: bool, weekly: bool, monthly: Vec<i64>) -> ShopRow {
    ShopRow {
        index: 1, shop_index: 1, item: 1, condition: 0, cost_type_for_item: 0, daily_reset: daily,
        weekly_reset: weekly, monthly_days: monthly, purchasable_count: 1, target_price: 1, count: 1,
        star: 0, group_index: 0,
    }
}

#[test]
fn purchase_periods_follow_the_calendar() {
    let now = 1_700_000_000; // 2023-11-14 22:13:20 UTC
    assert_eq!(shop_period(&row(false, false, vec![]), now, 5, true), "stock:5");
    assert_eq!(shop_period(&row(true, false, vec![]), now, 5, false), "day:2023-11-14");
    assert_eq!(shop_period(&row(false, true, vec![]), now, 5, false), "week:2023:46");
    assert_eq!(shop_period(&row(false, false, vec![1]), now, 5, false), "month:2023-11-01");
    assert_eq!(shop_period(&row(false, false, vec![15]), now, 5, false), "month:2023-10-15");
    assert_eq!(shop_period(&row(false, false, vec![]), now, 5, false), "all");
}

#[test]
fn times_are_written_by_chrono() {
    assert_eq!(reset_times(0).last_reset_time, "1970-01-01 00:00:00");
    let r = reset_times(1_700_000_000);
    assert_eq!(r.last_reset_time, "2023-11-14 00:00:00");
    assert_eq!(r.next_reset_time, "2023-11-15 00:00:00");
    let before_epoch = reset_times(-1);
    assert_eq!(before_epoch.last_reset_time, "1969-12-31 00:00:00");
}

#[test]
fn item_counts_are_merged_by_item() {
    assert_eq!(merge_counts(&vec![5, 3, 5], &vec![1, 2, 3]).unwrap(), vec![(3, 2), (5, 4)]);
    assert_eq!(code(merge_counts(&vec![5], &vec![0])), "InvalidItemCount");
    assert_eq!(code(merge_counts(&vec![], &vec![])), "InvalidItemCount");
    assert_eq!(code(merge_counts(&vec![5, 5], &vec![2147483647, 1])), "InvalidItemCount");
    let r = req(&[("ItemIndices", "[7,7]"), ("ItemCount", "[1,1]")]);
    assert_eq!(pairs(&r, "ItemCount").unwrap(), vec![(7, 2)]);
    assert_eq!(code(pairs(&req(&[("ItemIndices", "x")]), "ItemCount")), "InvalidItemCount");
    assert_eq!(item_pairs(&req(&[("M", "[10,2,11,3]")]), "M").unwrap(), vec![(10, 2), (11, 3)]);
    assert_eq!(item_pairs(&req(&[]), "M").unwrap(), vec![]);
    assert_eq!(code(item_pairs(&req(&[("M", "[10,2,10,3]")]), "M")), "InvalidMaterial");
    assert_eq!(code(item_pairs(&req(&[("M", "[10]")]), "M")), "InvalidMaterial");
}

#[test]
fn pets_eat_hatch_and_count_their_souls() {
    assert_eq!(hatch_time(1000, 3600, 25), 3700);
    assert_eq!(hatch_time(1000, 3600, 100), 1036);
    assert_eq!(hatch_time(1000, 3600, -50), 4600);
    assert_eq!(feed(10, 100, 30, 3).unwrap(), 100);
    assert_eq!(feed(10, 100, 30, 2).unwrap(), 70);
    assert_eq!(code(feed(10, 100, 30, 4)), "InvalidValue");
    assert_eq!(code(feed(100, 100, 30, 1)), "InvalidValue");
    assert_eq!(soul_counts(&vec![9, 4, 9, 9]), vec![(4, 1), (9, 3)]);
}

#[test]
fn names_are_trimmed_and_checked() {
    assert_eq!(trim("  hi \t"), "hi");
    assert_eq!(trim("   "), "");
    assert_eq!(rename_check(Some(24), false, " Bob ", 2, 10).unwrap(), "Bob");
    assert_eq!(code(rename_check(Some(25), false, "Bob", 2, 10)), "ItemTypeMismatch");
    assert_eq!(code(rename_check(None, true, "Bob", 2, 10)), "ItemDataNotFound");
    assert_eq!(code(rename_check(Some(25), true, "B", 2, 10)), "TooShortName");
    assert_eq!(code(rename_check(Some(24), false, "Bobbobbobbob", 2, 10)), "TooLongName");
    assert_eq!(code(rename_check(Some(24), false, "<b>", 2, 10)), "InvalidName");
}

#[test]
fn live_requests_are_routed_and_answered() {
    assert!(live_family("pet/exec_pet_gacha") == LiveFamily::Summons);
    assert!(live_family("pet/feed_pet") == LiveFamily::Pets);
    assert!(live_family("equip_gacha/exec") == LiveFamily::Summons);
    assert!(live_family("shop/buy_product") == LiveFamily::Offers);
    assert!(live_family("event/get_event") == LiveFamily::Events);
    assert!(live_family("pet") == LiveFamily::Pets);
    assert!(field_default("int[]") == FieldDefault::EmptyList);
    assert!(field_default("bool") == FieldDefault::False);
    assert!(field_default("sbyte") == FieldDefault::Zero);
    assert!(field_default("string") == FieldDefault::Null);
    let allowed = vec!["NotYet".to_string(), "InvalidValue".to_string()];
    assert_eq!(result_code(&allowed, "NotYet"), "NotYet");
    assert_eq!(result_code(&allowed, "Other"), "Fail");
    assert_eq!(flag(&req(&[("F", "True")]), "F").unwrap(), true);
    assert_eq!(flag(&req(&[]), "F").unwrap(), false);
    assert_eq!(code(flag(&req(&[("F", "yes")]), "F")), "InvalidValue");
}

#[test]
fn presets_are_bought_named_and_applied() {
    assert_eq!(code(preset_slot_check(false, false, true, 10, true)), "InvalidHeroStorageKey");
    assert_eq!(code(preset_slot_check(true, true, true, 10, true)), "AlreadyHasHeroStorageKey");
    assert_eq!(code(preset_slot_check(true, false, true, 0, true)), "InvalidHeroStorageKey");
    assert_eq!(code(preset_slot_check(true, false, false, 0, true)), "InvalidHeroStorageKey");
    assert!(preset_slot_check(true, false, false, 0, false).is_ok());
    assert!(preset_slot_check(true, false, true, 5, true).is_ok());
    assert_eq!(preset_name("", "Old").unwrap(), "Old");
    assert_eq!(preset_name("New", "Old").unwrap(), "New");
    assert_eq!(code(preset_name(&"n".repeat(81), "Old")), "InvalidHeroStorageKey");
    let mut used = vec![];
    assert_eq!(preset_slot_step(&mut used, Some(4)).unwrap(), Some(4));
    assert_eq!(preset_slot_step(&mut used, Some(0)).unwrap(), None);
    assert_eq!(code(preset_slot_step(&mut used, Some(4))), "EquipSlotDataNotFound");
    assert_eq!(code(preset_slot_step(&mut used, None)), "EquipSlotDataNotFound");
    let mut slots = vec![0; 20];
    slots[0] = 11;
    slots[10] = 12;
    slots[11] = 13;
    let board = EquipBoard { heroes: vec![1, 2], slots };
    let mut saved = vec![0; 10];
    saved[0] = 13;
    let (after, removed) = apply_preset(&board, &vec![HeroPreset { hero: 1, slots: saved }]);
    assert_eq!(after.slots[0], 13);
    assert_eq!(after.slots[10], 12);
    assert_eq!(after.slots[11], 0);
    assert_eq!(removed, vec![11, 13]);
}

#[test]
fn ceilings_are_claimed_once_per_threshold() {
    let after = ceiling_claim(false, false, false, 100, 0, 150, 0, false).unwrap();
    assert_eq!(after, 100);
    assert_eq!(code(ceiling_claim(false, false, false, 100, 0, 150, after, false)), "NotEnoughCount");
    assert_eq!(ceiling_claim(false, false, false, 100, 0, 200, after, false).unwrap(), 200);
    assert_eq!(code(ceiling_claim(false, true, false, 100, 0, 500, 0, false)), "InvalidValue");
    assert_eq!(ceiling_claim(true, false, false, 10, 10, 0, 3, false).unwrap(), 3);
    assert_eq!(code(ceiling_claim(true, false, false, 10, 10, 0, 3, true)), "NotEnoughCount");
}

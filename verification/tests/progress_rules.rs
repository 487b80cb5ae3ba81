use sprk::events::{forge_with, ForgeOutcome};
use sprk::soul::soul_stones_with;
use sprk::gear::{break_drop_with, roll_with, BreakDrop};
use sprk::item_use::rune_drop_with;
use sprk::forge::raise_steps_with;
use sprk::equip::{equip_request, EquipBoard};
use sprk::error::ServerError;
use sprk::extensions::{compatible_in, soul_stats, EquipFit, SoulTables};
use sprk::forms::Request;
use sprk::growth::{purify, purify_with, StarRow};
use sprk::hero::{bookmark_heroes, bookmark_ranks, shop_buy_hero, HeroItemRow, HeroPriceRow, ShopHeroRow};
use sprk::inn::{do_hero_friendly, hero_friendly, DoHeroFriendlyResult, FriendlyActionType, FriendlyState, FriendlyTable};
use sprk::live::{timestamp, PetState};
use sprk::pets::feed;
use sprk::renewal::{renew_choice, EquipRenewState, OptionRow, RenewData};
use sprk::soul::{draw_soul_stones, RestoreProgress};

fn code<T>(r: Result<T, ServerError>) -> String {
    match r {
        Err(ServerError::InvalidRequest(c)) => c,
        Err(e) => panic!("unexpected error {:?}", e),
        Ok(_) => panic!("expected a refusal"),
    }
}

fn req(pairs: &[(&str, &str)]) -> Request {
    Request(pairs.iter().map(|(k, v)| (k.to_string(), v.to_string())).collect())
}

fn stage(rates: Vec<i64>) -> StarRow {
    StarRow {
        star: 6,
        transcended: 0,
        awake_hero_team_exp: 0,
        max_purified: 50,
        gold: 100,
        rates,
        purify_amounts: vec![10, 20, 30],
        awake_item_count: 1,
        transcend_item_index: 0,
        transcend_item_count: 0,
    }
}

#[test]
fn purification_adds_each_roll_up_to_the_maximum() {
    let next = stage(vec![50, 30, 20]);
    // 10, then 20, then 30 capped at 50: three steps, the fourth roll unused.
    assert_eq!(purify_with(&next, 0, 2, false, &vec![10, 60, 95, 5]).unwrap(), (50, 300));
    assert_eq!(purify_with(&next, 0, 2, true, &vec![60, 95]).unwrap(), (20, 100));
    assert_eq!(purify_with(&next, 45, 2, true, &vec![95]).unwrap(), (50, 100));
    assert_eq!(purify_with(&next, 0, 2, false, &vec![10]).unwrap(), (10, 100));
    assert_eq!(code(purify_with(&next, 0, 1, false, &vec![10])), "NotEnoughAwakeItem");
    assert_eq!(code(purify_with(&next, 50, 2, false, &vec![10])), "AlreadyMaxPurified");
    let gap = stage(vec![50, 30, 0]);
    assert_eq!(code(purify_with(&gap, 0, 2, false, &vec![10, 90])), "AwakeDataNotFound");
    let (value, gold) = purify(&next, 0, 2, false).unwrap();
    assert_eq!(value, 50);
    assert!(gold >= 200 && gold <= 500 && gold % 100 == 0);
    let (value, gold) = purify(&next, 0, 2, true).unwrap();
    assert!(value == 10 || value == 20 || value == 30);
    assert_eq!(gold, 100);
}

#[test]
fn bookmarks_replace_selection_and_reject_unowned_heroes() {
    let owned = vec![1, 2, 3];
    assert_eq!(bookmark_ranks("[1]", &owned).unwrap(), vec![(1, 1)]);
    assert_eq!(code(bookmark_ranks("[1,9999]", &owned)), "InvalidHeroIndex");
    assert_eq!(bookmark_ranks("[]", &owned).unwrap(), vec![]);
    assert_eq!(bookmark_ranks("[3,1,2]", &owned).unwrap(), vec![(3, 3), (1, 2), (2, 1)]);
    assert_eq!(code(bookmark_ranks("[1,1]", &owned)), "InvalidHeroIndex");
    assert_eq!(code(bookmark_ranks("x", &owned)), "InvalidHeroIndex");
    assert_eq!(code(bookmark_ranks("[4294967297]", &owned)), "InvalidHeroIndex");
    let many: Vec<i32> = (1..=104).collect();
    let text = format!("[{}]", many.iter().map(|i| i.to_string()).collect::<Vec<_>>().join(","));
    assert_eq!(code(bookmark_ranks(&text, &many)), "InvalidHeroIndex");
    let text = format!("[{}]", many[..103].iter().map(|i| i.to_string()).collect::<Vec<_>>().join(","));
    let ranks = bookmark_ranks(&text, &many).unwrap();
    assert_eq!(ranks[0], (1, 103));
    assert_eq!(ranks[102], (103, 1));
}

fn shop() -> (Vec<ShopHeroRow>, Vec<HeroItemRow>, Vec<HeroPriceRow>) {
    (
        vec![ShopHeroRow { hero_index: 1, buyable: true, start_hero_star: 2, start_hero_level: 0, open_status: 1 }],
        vec![HeroItemRow { item_index: 5001, is_hero: true, hero_index: 1, star: 2, transcend: 0, level: 1 }],
        vec![
            HeroPriceRow { star: 2, open_status: 0, buy_gem: 3000, mileage: 5 },
            HeroPriceRow { star: 2, open_status: 1, buy_gem: 6000, mileage: 10 },
        ],
    )
}

#[test]
fn heroes_are_bought_at_their_table_price() {
    let (heroes, items, prices) = shop();
    let ok = req(&[("HeroIndex", "1"), ("ItemIndex", "5001"), ("BuyGem", "6000")]);
    let p = shop_buy_hero(&ok, &heroes, &items, &prices, &vec![]).unwrap();
    assert_eq!((p.hero_index, p.item_index, p.gem, p.mileage), (1, 5001, 6000, 10));
    let cheap = req(&[("HeroIndex", "1"), ("ItemIndex", "5001"), ("BuyGem", "3000")]);
    assert_eq!(code(shop_buy_hero(&cheap, &heroes, &items, &prices, &vec![])), "InvalidPrice");
    let unpriced = req(&[("HeroIndex", "1"), ("ItemIndex", "5001")]);
    assert_eq!(code(shop_buy_hero(&unpriced, &heroes, &items, &prices, &vec![])), "InvalidPrice");
    assert_eq!(code(shop_buy_hero(&ok, &heroes, &items, &prices, &vec![1])), "HeroAlreadyExist");
    let other = req(&[("HeroIndex", "2"), ("ItemIndex", "5001"), ("BuyGem", "6000")]);
    assert_eq!(code(shop_buy_hero(&other, &heroes, &items, &prices, &vec![])), "CreatureDataNotFound");
    let wrong_item = req(&[("HeroIndex", "1"), ("ItemIndex", "5002"), ("BuyGem", "6000")]);
    assert_eq!(code(shop_buy_hero(&wrong_item, &heroes, &items, &prices, &vec![])), "InvalidItemIndex");
    let starred = vec![HeroItemRow { item_index: 5001, is_hero: true, hero_index: 1, star: 3, transcend: 0, level: 1 }];
    assert_eq!(code(shop_buy_hero(&ok, &heroes, &starred, &prices, &vec![])), "InvalidItemIndex");
    let closed = vec![ShopHeroRow { hero_index: 1, buyable: false, start_hero_star: 2, start_hero_level: 0, open_status: 1 }];
    assert_eq!(code(shop_buy_hero(&ok, &closed, &items, &prices, &vec![])), "InvalidItemData");
    let unlisted = vec![HeroPriceRow { star: 3, open_status: 1, buy_gem: 6000, mileage: 10 }];
    assert_eq!(code(shop_buy_hero(&ok, &heroes, &items, &unlisted, &vec![])), "InvalidItemData");
}

#[test]
fn stored_times_are_read_as_utc_seconds() {
    assert_eq!(timestamp(Some("2024-01-02 03:04:05")), 1704164645);
    assert_eq!(timestamp(Some("1970-01-01 00:00:00")), 0);
    assert_eq!(timestamp(Some("yesterday")), 0);
    assert_eq!(timestamp(None), 0);
    let pet = PetState::from_record(1, Some("1970-01-01 00:01:00"));
    assert_eq!((pet.status, pet.end_penalty_time), (1, 60));
}

#[test]
fn equipping_rejects_another_players_item_and_chest_items() {
    let mut board = EquipBoard { heroes: vec![1, 2], slots: vec![0; 20] };
    // An item of another player, or one in the chest, is not in the bag.
    let r = equip_request(&mut board, 0, &vec![0], &vec![500], true, &vec![None]);
    assert_eq!(code(r), "EquipNotOwned");
    assert_eq!(board.slots, vec![0; 20]);
    let (equipped, off) = equip_request(&mut board, 0, &vec![0], &vec![500], true, &vec![Some(true)]).unwrap();
    assert_eq!(equipped, vec![500]);
    assert!(off.is_empty());
    assert_eq!(board.slots[0], 500);
    assert_eq!(code(equip_request(&mut board, 0, &vec![1], &vec![600], false, &vec![Some(true)])), "HeroNotOwned");
    assert_eq!(code(equip_request(&mut board, 0, &vec![1], &vec![600], true, &vec![Some(false)])), "ImpossibleEquipItem");
    assert_eq!(board.slots[1], 0);
}

#[test]
fn friendly_actions_need_a_hero_index() {
    let table = FriendlyTable { greeting: 10, conversation: 20, gift: 30, max_friendly_point: 100 };
    let greet = Some("Greeting".to_string());
    for index in [None, Some("0".to_string()), Some("abc".to_string())] {
        let r = hero_friendly(&index, &greet, &table, &vec![], Some(5), 0, 0);
        assert!(matches!(r, Err(DoHeroFriendlyResult::HeroIndexMismatch)));
    }
    let seven = Some("7".to_string());
    let plan = hero_friendly(&seven, &greet, &table, &vec![], Some(95), 0, 0).ok().unwrap();
    assert_eq!(plan.friendly_point, 100);
    let gift = Some("Closeness_Gift".to_string());
    let plan = hero_friendly(&seven, &gift, &table, &vec![(3, 10), (7, 990)], Some(5), 0, 30000).ok().unwrap();
    assert_eq!(plan.closeness, Some(1000));
    assert_eq!(plan.gold_after, Some(5000));
    let r = hero_friendly(&seven, &greet, &table, &vec![], None, 0, 0);
    assert!(matches!(r, Err(DoHeroFriendlyResult::HeroNotExistInFriendlyTable)));
}

fn soul_tables() -> SoulTables {
    SoulTables {
        items: vec![(900, 3)],
        options: vec![(3, (10, 20))],
        reinforces: vec![(2, 100), (5, 3_000_000_000)],
        upgrades: vec![(0, 0), (1, 50)],
    }
}

#[test]
fn soul_stats_follow_their_rows() {
    let t = soul_tables();
    // factor (1000 + 100) * (1000 + 50) / 1000 = 1155.
    assert_eq!(soul_stats(&t, 900, 2, 1, (480, 520), (500, 1000)).unwrap(), ((5, 2), (12, 12)));
    // A stat rate past 2^31 still fits the arithmetic.
    assert_eq!(soul_stats(&t, 900, 5, 0, (100, 0), (0, 0)).unwrap(), ((3000001, 0), (0, 0)));
    assert_eq!(code(soul_stats(&t, 901, 2, 1, (480, 520), (0, 0))), "ItemDataNotFound");
    assert_eq!(code(soul_stats(&t, 900, 3, 1, (480, 520), (0, 0))), "ItemDataNotFound");
    assert_eq!(code(soul_stats(&t, 900, 2, 9, (480, 520), (0, 0))), "ItemDataNotFound");
}

#[test]
fn compatibility_needs_the_item_row() {
    let fits = vec![(700, EquipFit { part_type: 1, req_level: 10, creature_indices: vec![], tag_types: vec![2] })];
    let tags = vec![(5, 2), (6, 3)];
    assert_eq!(code(compatible_in(&fits, &tags, 701, 1, 1, 5, 20)), "ItemDataNotFound");
    assert!(compatible_in(&fits, &tags, 700, 1, 1, 5, 20).is_ok());
    assert_eq!(code(compatible_in(&fits, &tags, 700, 1, 1, 6, 20)), "NotCorrectHero");
    assert_eq!(code(compatible_in(&fits, &tags, 700, 1, 1, 8, 20)), "NoHero");
    assert_eq!(code(compatible_in(&fits, &tags, 700, 1, 2, 5, 20)), "InvalidEquipItem");
}

#[test]
fn large_pets_still_eat() {
    assert_eq!(feed(0, 10_000_000_000, 25, 4).unwrap(), 100);
    assert_eq!(feed(9_999_999_990, 10_000_000_000, 25, 1).unwrap(), 10_000_000_000);
    assert_eq!(code(feed(9_999_999_990, 10_000_000_000, 25, 2)), "InvalidValue");
}

#[test]
fn renewal_draws_a_candidate_option() {
    let rows = vec![
        OptionRow { id: 11, option_type: 1, ratio: 10, steps: 3 },
        OptionRow { id: 12, option_type: 2, ratio: 5, steps: 2 },
        OptionRow { id: 13, option_type: 1, ratio: 0, steps: 2 },
    ];
    let eq = EquipRenewState { options: vec![11, 0, 0, 0], renewed_options: vec![], option_renew_counts: vec![], skills: vec![] };
    let slot = req(&[("OptionSlotIndex", "1")]);
    let data = RenewData { direct: vec![12], grouped: vec![11], enable_same: false, enable_duplication: false };
    let (s, option, step) = renew_choice(&slot, false, &eq, &data, &rows).unwrap();
    assert_eq!((s, option), (1, 12));
    assert!(0 <= step && step <= 2);
    let none = RenewData { direct: vec![11, 13], grouped: vec![], enable_same: false, enable_duplication: false };
    assert_eq!(code(renew_choice(&slot, false, &eq, &none, &rows)), "InvalidOption");
    let empty_slot = req(&[("OptionSlotIndex", "2")]);
    assert_eq!(code(renew_choice(&empty_slot, false, &eq, &data, &rows)), "InvalidOption");
}

#[test]
fn restore_soul_stone_persists_choices_and_rejects_replayed_claims() {
    let mut p = RestoreProgress { mileage: 0, choices: vec![] };
    let first = req(&[("SoulStoneRestoreIndex", "1")]);
    assert_eq!(p.restore_start(&first, 3).unwrap(), 0);
    let drawn = draw_soul_stones(&vec![2001, 2002, 2003, 2004], &vec![true; 4], 3).unwrap();
    assert_eq!(drawn.len(), 3);
    p.offer(drawn.clone());
    assert_eq!(p.mileage, 1);
    assert_eq!(code(p.restore_start(&first, 3)), "UnconfirmedSoulStone");
    assert_eq!(code(p.confirm(1001)), "InvalidSoulStoneIndex");
    assert_eq!(p.choices, drawn);
    assert!(p.confirm(drawn[0]).is_ok());
    assert!(p.choices.is_empty());
    assert_eq!(code(p.confirm(drawn[0])), "InvalidSoulStoneIndex");
    assert_eq!(p.mileage, 1);
    assert_eq!(p.restore_start(&first, 3).unwrap(), 0);
}

#[test]
fn bookmarks_keep_only_the_listed_heroes() {
    let mut marks = vec![(1, 0), (2, 0), (3, 5)];
    assert!(bookmark_heroes(&mut marks, "[1]").is_ok());
    assert_eq!(marks, vec![(1, 1), (2, 0), (3, 0)]);
    assert_eq!(code(bookmark_heroes(&mut marks, "[1,9999]")), "InvalidHeroIndex");
    assert_eq!(marks, vec![(1, 1), (2, 0), (3, 0)]);
    assert!(bookmark_heroes(&mut marks, "[3,2]").is_ok());
    assert_eq!(marks, vec![(1, 0), (2, 1), (3, 2)]);
    assert!(bookmark_heroes(&mut marks, "[]").is_ok());
    assert_eq!(marks, vec![(1, 0), (2, 0), (3, 0)]);
}

#[test]
fn friendly_actions_check_only_the_balance_they_charge() {
    let table = FriendlyTable { greeting: 10, conversation: 20, gift: 30, max_friendly_point: 100 };
    let broke = FriendlyState { owned_closeness: None, friendly_point: Some(0), friendship_point: -1, gold: -5 };
    let plan = do_hero_friendly(FriendlyActionType::Greeting, &table, &broke).ok().unwrap();
    assert_eq!(plan.friendly_point, 10);
    let talker = FriendlyState { owned_closeness: None, friendly_point: Some(0), friendship_point: 200, gold: -5 };
    let plan = do_hero_friendly(FriendlyActionType::Conversation, &table, &talker).ok().unwrap();
    assert_eq!(plan.friendship_after, Some(40));
    assert_eq!(plan.gold_after, None);
    let giver = FriendlyState { owned_closeness: None, friendly_point: Some(0), friendship_point: -1, gold: 40000 };
    let plan = do_hero_friendly(FriendlyActionType::Gift, &table, &giver).ok().unwrap();
    assert_eq!(plan.gold_after, Some(0));
    assert!(matches!(do_hero_friendly(FriendlyActionType::Gift, &table, &talker), Err(DoHeroFriendlyResult::CostMismatch)));
}

#[test]
fn event_forges_follow_their_roll() {
    assert!(matches!(forge_with(3, 2, 5, false, 500, 0, 1, 499).ok().unwrap(), ForgeOutcome::Success));
    assert!(matches!(forge_with(3, 2, 5, false, 500, 0, 1, 500).ok().unwrap(), ForgeOutcome::Break));
    assert!(matches!(forge_with(3, 2, 5, false, 500, 600, 1, 999).ok().unwrap(), ForgeOutcome::Fail));
    assert!(matches!(forge_with(3, 2, 5, false, 500, 600, 0, 100).ok().unwrap(), ForgeOutcome::Success));
    assert!(matches!(forge_with(3, 2, 5, false, 500, 0, 0, 700).ok().unwrap(), ForgeOutcome::Fail));
    assert!(matches!(forge_with(3, 2, 5, true, 0, 0, 1, 999).ok().unwrap(), ForgeOutcome::Success));
    assert_eq!(code(forge_with(4, 2, 5, false, 500, 0, 1, 0)), "InvalidValue");
}

#[test]
fn soul_stones_follow_their_picks() {
    let pool = vec![2001, 2002, 2003, 2004];
    let all = vec![true; 4];
    assert_eq!(soul_stones_with(&pool, &all, 3, &vec![1, 0, 5]).unwrap(), vec![2001, 2002, 2004]);
    assert_eq!(soul_stones_with(&pool, &all, 0, &vec![]).unwrap(), Vec::<i64>::new());
    let some = vec![true, false, true, true];
    assert_eq!(code(soul_stones_with(&pool, &some, 3, &vec![1, 0, 0])), "ItemDataNotFound");
    assert_eq!(code(soul_stones_with(&pool, &all, 5, &vec![0; 5])), "ItemDataNotFound");
    assert_eq!(code(soul_stones_with(&pool, &all, -1, &vec![])), "ItemDataNotFound");
    let big: Vec<i64> = (1..=150).collect();
    assert_eq!(code(soul_stones_with(&big, &vec![true; 150], 101, &vec![0; 101])), "ItemDataNotFound");
    assert_eq!(code(draw_soul_stones(&big, &vec![true; 150], 101)), "ItemDataNotFound");
}

#[test]
fn breaks_and_runes_follow_their_draws() {
    assert!(roll_with(300, 1000, 299));
    assert!(!roll_with(300, 1000, 300));
    assert!(!roll_with(-5, 1000, 0));
    assert!(roll_with(2000, 1000, 999));
    let d = BreakDrop { item: 1, min: 2, max: 5, rate1: 500, count1: 10, rate2: 0, count2: 7 };
    assert_eq!(break_drop_with(&d, 3, 100, 0), 13);
    assert_eq!(break_drop_with(&d, 3, 600, 0), 3);
    let flat = BreakDrop { item: 1, min: 0, max: 0, rate1: 1000, count1: 4, rate2: 1000, count2: 7 };
    assert_eq!(break_drop_with(&flat, 99, 999, 999), 11);
    assert_eq!(rune_drop_with(&vec![1, 2, 3]).unwrap(), 6);
    assert_eq!(code(rune_drop_with(&vec![i32::MAX as i64, 1])), "InvalidItemCount");
}

#[test]
fn option_steps_rise_by_their_picks() {
    let caps = vec![Some(2), None, Some(1), Some(0)];
    assert_eq!(raise_steps_with(&vec![0, 0, 0, 0], &caps, 5, &vec![1, 0, 0]), (vec![2, 0, 1, 0], 3));
    assert_eq!(raise_steps_with(&vec![0, 0, 0, 0], &caps, 1, &vec![0]), (vec![1, 0, 0, 0], 1));
    assert_eq!(raise_steps_with(&vec![2, 0, 1, 0], &caps, 3, &vec![]), (vec![2, 0, 1, 0], 0));
}

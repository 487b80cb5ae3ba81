use sprk::cosmetics::{
    accessory_check, add_bill, body_costume_index, buy_body, costume_price_check, hide_weapon_check,
    part_costume, unset_accessories, Accessory, BodyCostume, CostumeBill, PartCostume,
};
use sprk::equip::EquipBoard;
use sprk::error::ServerError;
use sprk::extensions::{
    accessory_key, currency_type, extension_family, kind, material_check, slot_ids,
    storage_extend_count, ExtensionFamily,
};
use sprk::forms::Request;
use sprk::npc::{npc_check, npc_claim, npc_friendship, npc_gift, npc_needed, npc_step, NpcFriendship, NpcGift, NpcStep};
use sprk::punishment::{
    punishment_break, punishment_capacity, punishment_extend, punishment_gauge, punishment_values,
    rune_gauge, tally, BreakLine,
};
use sprk::runes::{extend_rune_page, release_rune, rune_fits, rune_page_check, rune_pages, rune_slot, set_rune};
use sprk::soul_weapon::{
    inject, liberate, reinforce, reinforce_check, soul_action, soul_weapon_check, transition, upgrade,
    Ether, ReinforceRule, SoulAction, SoulPrice, SoulWeapon,
};
use sprk::storage::{
    default_slot_count, place_in_layout, storage_equip, storage_lists_check, storage_name, storage_offer,
    StorageExtend,
};

fn code<T>(r: Result<T, ServerError>) -> String {
    match r {
        Err(ServerError::InvalidRequest(c)) => c,
        Err(e) => panic!("unexpected error {:?}", e),
        Ok(_) => panic!("expected a refusal"),
    }
}

fn req(pairs: &[(&str, &str)]) -> Request {
    Request(pairs.iter().map(|(k, v)| (k.to_string(), v.to_string())).collect())
}

#[test]
fn accessory_keys_pack_hero_and_accessory() {
    assert_eq!(accessory_key(1, 3100013).unwrap(), (1i64 << 32) | 3100013);
    assert_eq!(accessory_key(7, 1).unwrap(), 7 * 4294967296 + 1);
    assert_eq!(code(accessory_key(0, 5)), "InvalidCostume");
    assert_eq!(code(accessory_key(3, 0)), "InvalidCostume");
    assert_eq!(code(accessory_key(3, 2147483648)), "InvalidCostume");
}

#[test]
fn currency_codes_name_their_currency() {
    assert_eq!(currency_type(2).unwrap(), "Gem");
    assert_eq!(currency_type(14).unwrap(), "RaidPoint");
    assert_eq!(code(currency_type(5)), "InvalidCurrencyType");
    assert_eq!(kind(17).unwrap(), "GuildArenaPoint");
    assert_eq!(code(kind(9)), "InvalidCost");
}

#[test]
fn extension_requests_go_to_their_service() {
    assert!(extension_family(false, "craft_punishment_rune") == ExtensionFamily::Punishment);
    assert!(extension_family(true, "use_flask") == ExtensionFamily::Consumables);
    assert!(extension_family(false, "level_up_class_buff") == ExtensionFamily::Buffs);
    assert!(extension_family(false, "set_equip_storage_slot") == ExtensionFamily::Storage);
    assert!(extension_family(false, "reset_all_customizing_costumes") == ExtensionFamily::Cosmetics);
    assert!(extension_family(false, "valance_craft") == ExtensionFamily::Valance);
    assert!(extension_family(false, "equip_rune") == ExtensionFamily::Runes);
    assert!(extension_family(false, "give_gift_item") == ExtensionFamily::Npc);
    assert!(extension_family(false, "soul_weapon_upgrade") == ExtensionFamily::Soul);
    assert!(extension_family(false, "upgrade_equip") == ExtensionFamily::Equipment);
}

#[test]
fn identifier_lists_must_be_short_positive_and_distinct() {
    assert_eq!(slot_ids(&req(&[("L", "[3,1]")]), "L").unwrap(), vec![3, 1]);
    assert_eq!(slot_ids(&req(&[]), "L").unwrap(), Vec::<i64>::new());
    assert_eq!(code(slot_ids(&req(&[("L", "[3,3]")]), "L")), "InvalidItemCount");
    assert_eq!(code(slot_ids(&req(&[("L", "[0]")]), "L")), "InvalidItemCount");
    assert_eq!(code(slot_ids(&req(&[("L", "nope")]), "L")), "InvalidItemCount");
}

#[test]
fn materials_must_be_free() {
    assert!(material_check(false, false, false, false, false).is_ok());
    assert_eq!(code(material_check(true, true, false, false, true)), "LockedEquip");
    assert_eq!(code(material_check(false, false, true, false, false)), "EquippedItem");
    assert_eq!(code(material_check(false, false, false, false, true)), "InvalidMaterial");
    assert_eq!(storage_extend_count(6), 2);
    assert_eq!(storage_extend_count(3), 0);
}

#[test]
fn storage_slots_start_from_the_default_rows_and_are_priced_by_the_next_row() {
    let rows = vec![
        StorageExtend { slot_count: 4, default_open: true, price: 0 },
        StorageExtend { slot_count: 8, default_open: false, price: 300 },
        StorageExtend { slot_count: 6, default_open: false, price: 200 },
    ];
    assert_eq!(default_slot_count(&rows), 4);
    assert_eq!(storage_offer(&vec![1, 2, 3, 4], &rows).unwrap(), (5, 200));
    assert_eq!(storage_offer(&vec![], &rows).unwrap(), (1, 0));
    assert_eq!(code(storage_offer(&vec![8], &rows)), "MaxSlotCount");
    assert_eq!(storage_name("  Raid set  ").unwrap(), "Raid set");
    assert_eq!(code(storage_name("bad\u{7}name")), "InvalidName");
    assert_eq!(code(storage_name(&"x".repeat(41))), "InvalidName");
}

#[test]
fn storage_layouts_check_their_parts() {
    assert!(storage_lists_check(Some(&vec![0, 3]), &vec![10, 11]).is_ok());
    assert_eq!(code(storage_lists_check(None, &vec![10])), "InvalidEquipItem");
    assert_eq!(code(storage_lists_check(Some(&vec![1, 1]), &vec![10, 11])), "InvalidEquipItem");
    assert_eq!(code(storage_lists_check(Some(&vec![1]), &vec![])), "InvalidEquipItem");
    let mut layout = vec![0i64; 10];
    place_in_layout(&mut layout, 9, 77).unwrap();
    assert_eq!(layout[9], 77);
    assert_eq!(code(place_in_layout(&mut layout, 10, 1)), "InvalidEquipItem");
}

#[test]
fn a_stored_set_moves_items_from_other_heroes() {
    let mut slots = vec![0; 30];
    slots[0] = 5;
    slots[12] = 7;
    slots[25] = 7;
    let mut board = EquipBoard { heroes: vec![100, 200, 300], slots };
    let mut set = vec![0; 10];
    set[1] = 7;
    let out = storage_equip(&mut board, 0, &set);
    assert_eq!(out.equipped, vec![7]);
    assert_eq!(out.removed, vec![5]);
    assert_eq!(out.taken, vec![7, 7]);
    assert_eq!(out.old_hero, Some(300));
    assert_eq!(board.slots[0], 0);
    assert_eq!(board.slots[1], 7);
    assert_eq!(board.slots[12], 0);
    assert_eq!(board.slots[25], 0);
}

fn npc_rows() -> Vec<NpcStep> {
    vec![
        NpcStep { step: 1, req_point: 100, limit: true, restriction: vec![], end_repeat: 0, reward: 1 },
        NpcStep { step: 2, req_point: 200, limit: false, restriction: vec![55], end_repeat: 2, reward: 2 },
    ]
}

#[test]
fn npc_friendship_follows_its_steps() {
    let rows = npc_rows();
    assert!(npc_check(95, &rows).is_ok());
    assert_eq!(code(npc_check(100, &rows)), "NPCNotFound");
    assert_eq!(code(npc_check(95, &vec![])), "NPCNotFound");
    let f = npc_friendship(95, None);
    assert_eq!((f.step, f.point, f.end_count), (1, 0, 0));
    assert_eq!(npc_step(&rows, 2).unwrap(), 1);
    assert_eq!(code(npc_step(&rows, 3)), "MaxFriendlyPoint");
    assert_eq!(npc_needed(&rows, 1), 100);
    assert_eq!(npc_needed(&rows, 2), 300);
}

#[test]
fn npc_gifts_add_points_up_to_the_limit() {
    let rows = npc_rows();
    let f = NpcFriendship { hero: 95, step: 1, point: 10, end_count: 0 };
    let gifts = vec![Some(NpcGift { heroes: vec![95], event_point: 0, code: 55, point: 20 })];
    let (g, points) = npc_gift(f, &rows[0], 100, &vec![900], &vec![3], &gifts).unwrap();
    assert_eq!((g.point, points), (70, 60));
    assert_eq!(code(npc_gift(f, &rows[0], 100, &vec![900], &vec![5], &gifts)), "MaxFriendlyPoint");
    assert_eq!(code(npc_gift(f, &rows[0], 100, &vec![900], &vec![0], &gifts)), "InvalidItemCount");
    assert_eq!(code(npc_gift(f, &rows[0], 100, &vec![900], &vec![1], &vec![None])), "ItemDataNotFound");
    let other = vec![Some(NpcGift { heroes: vec![96], event_point: 0, code: 55, point: 20 })];
    assert_eq!(code(npc_gift(f, &rows[0], 100, &vec![900], &vec![1], &other)), "InvalidItem");
    let wrong_code = vec![Some(NpcGift { heroes: vec![95], event_point: 0, code: 56, point: 20 })];
    assert_eq!(code(npc_gift(f, &rows[1], 300, &vec![900], &vec![1], &wrong_code)), "InvalidItem");
}

#[test]
fn npc_rewards_advance_or_repeat_the_end() {
    let rows = npc_rows();
    let f = NpcFriendship { hero: 95, step: 1, point: 120, end_count: 0 };
    let next = npc_claim(f, 1, 100, &rows, 0).unwrap();
    assert_eq!(next.step, 2);
    assert_eq!(code(npc_claim(f, 2, 100, &rows, 0)), "NotEnoughFriendlyPoint");
    let last = NpcFriendship { hero: 95, step: 2, point: 350, end_count: 0 };
    let again = npc_claim(last, 2, 300, &rows, 1).unwrap();
    assert_eq!((again.step, again.end_count, again.point), (2, 1, 150));
    let done = NpcFriendship { hero: 95, step: 2, point: 350, end_count: 2 };
    assert_eq!(npc_claim(done, 2, 300, &rows, 1).unwrap().step, 3);
}

#[test]
fn rune_pages_open_in_order() {
    let pages = rune_pages(None, 5, 3);
    assert_eq!(pages.len(), 3);
    assert_eq!((pages[2].rune_page, pages[2].slot_num), (1, 3));
    let more = extend_rune_page(pages, 5, 2, 6, 3).unwrap();
    assert_eq!(more.len(), 6);
    assert_eq!((more[3].rune_page, more[3].slot_num, more[3].item_index), (2, 1, 0));
    assert_eq!(code(extend_rune_page(more.clone(), 5, 4, 6, 3)), "InvalidRunePage");
    assert_eq!(code(extend_rune_page(more.clone(), 5, 3, 2, 3)), "InvalidRunePage");
    assert!(rune_page_check(&more, 2).is_ok());
    assert_eq!(code(rune_page_check(&more, 3)), "InvalidRunePage");
    assert_eq!(rune_slot(&more, 2, 3).unwrap(), 5);
    assert_eq!(code(rune_slot(&more, 2, 4)), "InvalidRuneSlot");
    let mut set = more;
    set_rune(&mut set, 5, 3001, 0);
    assert_eq!(set[5].item_index, 3001);
}

#[test]
fn replaced_runes_are_kept_paid_for_or_lost() {
    let r = release_rune(3001, 0, true, false).unwrap();
    assert!(r.pay_plain_price && !r.pay_punishment_price && r.give_back == 3001);
    let r = release_rune(4001, 12, true, false).unwrap();
    assert!(r.pay_punishment_price && r.give_back == 0 && r.destroy_equip == 0);
    let r = release_rune(4001, 12, false, true).unwrap();
    assert_eq!(r.destroy_equip, 12);
    assert_eq!(code(release_rune(0, 0, false, true)), "RuneNotFound");
    assert!(rune_fits(3001, None, Some(&vec![1, 2]), 2).is_ok());
    assert_eq!(code(rune_fits(3001, Some(3002), Some(&vec![1]), 1)), "InvalidRune");
    assert_eq!(code(rune_fits(3001, None, None, 1)), "ItemDataNotFound");
    assert_eq!(code(rune_fits(3001, None, Some(&vec![1]), 2)), "InvalidRuneSlot");
}

#[test]
fn body_costumes_are_bought_with_their_bonus_costumes() {
    let c = BodyCostume { hero: 5, is_default: false, buyable: true, req_mileage: 0, gold: 10, gem: 20, mileage: 3, bonus: vec![61, 62] };
    let (bill, added) = buy_body(5, 60, Some(&c), false, &vec![true, true]).unwrap();
    assert!(bill == CostumeBill { gold: 10, gem: 20, mileage: 3 });
    assert_eq!(added, vec![60, 61, 62]);
    assert_eq!(code(buy_body(5, 60, Some(&c), false, &vec![true, false])), "CostumeDataNotFound");
    assert_eq!(code(buy_body(6, 60, Some(&c), false, &vec![true, true])), "NotCorrectHero");
    assert_eq!(code(buy_body(5, 60, None, false, &vec![])), "CostumeDataNotFound");
    let (free, none) = buy_body(5, 60, Some(&c), true, &vec![]).unwrap();
    assert!(free == CostumeBill { gold: 0, gem: 0, mileage: 0 } && none.is_empty());
    let unsold = BodyCostume { buyable: false, bonus: vec![], ..c };
    assert_eq!(code(buy_body(5, 60, Some(&unsold), false, &vec![])), "NotForSale");
    assert_eq!(body_costume_index(-3).unwrap(), -3);
    assert_eq!(code(body_costume_index(1 << 40)), "InvalidCostume");
    assert!(hide_weapon_check(1).is_ok());
    assert_eq!(code(hide_weapon_check(2)), "InvalidCostume");
}

#[test]
fn hair_weapon_and_accessory_costumes_are_checked_and_priced() {
    let hair = PartCostume { hero: 5, star: 3, is_default: false, open: true, gem: 50, mileage: 2 };
    assert!(part_costume(5, 3, 8, Some(&hair), false, &vec![false]).unwrap() == CostumeBill { gold: 0, gem: 50, mileage: 2 });
    assert!(part_costume(5, 3, 8, Some(&hair), false, &vec![false, true]).unwrap() == CostumeBill { gold: 0, gem: 0, mileage: 0 });
    assert_eq!(code(part_costume(5, 2, 8, Some(&hair), false, &vec![])), "NotCorrectHero");
    assert_eq!(code(part_costume(5, 3, -1, Some(&hair), false, &vec![])), "InvalidCostume");
    assert_eq!(code(part_costume(5, 3, 8, None, false, &vec![])), "ItemDataNotFound");
    let closed = PartCostume { open: false, ..hair };
    assert_eq!(code(part_costume(5, 3, 8, Some(&closed), false, &vec![])), "CostumeNotOwned");
    let mut places = vec![4, 9, 4, 0, 0, 0];
    unset_accessories(&mut places, &vec![4]);
    assert_eq!(places, vec![0, 9, 0, 0, 0, 0]);
    let mut parts = vec![];
    let ring = Accessory { part: 2, unable: false, open: true, buyable: true, gem: 30, mileage: 1 };
    assert!(accessory_check(&mut parts, &ring, false, true).unwrap() == CostumeBill { gold: 0, gem: 30, mileage: 1 });
    assert_eq!(code(accessory_check(&mut parts, &ring, true, true)), "InvalidCostume");
    assert_eq!(code(accessory_check(&mut vec![], &ring, false, false)), "CostumeNotOwned");
    let total = add_bill(CostumeBill { gold: 1, gem: 2, mileage: 3 }, CostumeBill { gold: 10, gem: 20, mileage: 30 });
    assert!(total == CostumeBill { gold: 11, gem: 22, mileage: 33 });
    assert!(costume_price_check(11, 22, total).is_ok());
    assert_eq!(code(costume_price_check(11, 21, total)), "InvalidPrice");
}

#[test]
fn punishment_runes_fill_their_gauge_exactly() {
    assert_eq!(punishment_extend(500, 500, 1, 3).unwrap(), 2);
    assert_eq!(code(punishment_extend(400, 500, 1, 3)), "InvalidPrice");
    assert_eq!(code(punishment_extend(500, 500, 3, 3)), "InvalidPrice");
    assert!(punishment_capacity(104, 100, 1, 5).is_ok());
    assert_eq!(code(punishment_capacity(105, 100, 1, 5)), "EquipItemFull");
    let tags = vec!["Legend".to_string(), "Epic".to_string(), "Rare".to_string()];
    let gauges = vec![500, 250];
    assert_eq!(rune_gauge(&vec!["Epic".to_string(), "Legend".to_string()], &tags, &gauges), Some(500));
    assert_eq!(rune_gauge(&vec!["Rare".to_string()], &tags, &gauges), None);
    let legend = Some(vec!["Legend".to_string()]);
    let epic = Some(vec!["Epic".to_string()]);
    assert!(punishment_gauge(&vec![1, 2, 3], &vec![legend.clone(), epic.clone(), epic.clone()], Some(&tags), Some(&gauges), 1000).is_ok());
    assert_eq!(code(punishment_gauge(&vec![1, 2], &vec![legend.clone(), epic.clone()], Some(&tags), Some(&gauges), 1000)), "InvalidMaterial");
    assert_eq!(code(punishment_gauge(&vec![1], &vec![None], Some(&tags), Some(&gauges), 1000)), "ItemDataNotFound");
    assert_eq!(code(punishment_gauge(&vec![1], &vec![Some(vec!["Rare".to_string()])], Some(&tags), Some(&gauges), 1000)), "InvalidMaterial");
    assert_eq!(code(punishment_gauge(&vec![], &vec![], Some(&tags), Some(&gauges), 1000)), "InvalidMaterial");
    assert_eq!(code(punishment_gauge(&vec![1], &vec![legend], None, Some(&gauges), 1000)), "ItemDataNotFound");
}

#[test]
fn punishment_crafts_consume_each_material_once() {
    let t = tally(&vec![7, 3, 7, 45005], &vec![1, 1, 1, 4]);
    assert_eq!(t, vec![(3, 1), (7, 2), (45005, 4)]);
    let (main, extra) = punishment_values((10, 20), &vec![(1, 1), (0, 5)]);
    assert!(10 <= main && main <= 20);
    assert_eq!(extra[0], 1);
    assert!(0 <= extra[1] && extra[1] <= 5);
    let drops = punishment_break(&vec![
        BreakLine { item: 1, min: 2, max: 2 },
        BreakLine { item: 2, min: 0, max: 0 },
        BreakLine { item: 3, min: 1, max: 4 },
    ]);
    assert_eq!(drops.len(), 2);
    assert_eq!(drops[0], (1, 2));
    assert_eq!(drops[1].0, 3);
    assert!(1 <= drops[1].1 && drops[1].1 <= 4);
}

fn weapon() -> SoulWeapon {
    SoulWeapon {
        slot: 7, item_index: 900, grade: 1, reinforce_level: 10, reinforce_ratio: 50, exp: 40,
        option_ratios: (500, 500), bonus_ratios: (0, 0), renew_count: 0, pending: false,
        renew_ratios: (0, 0), renew_bonus: (0, 0),
    }
}

#[test]
fn soul_weapons_are_liberated_and_upgraded_by_the_rules() {
    let price = SoulPrice { gold: 100, material: 5, count: 2 };
    let (w, p) = liberate(false, 7, 900, Some(price)).unwrap();
    assert_eq!((w.grade, w.option_ratios, w.slot), (0, (500, 500), 7));
    assert_eq!(p.gold, 100);
    assert_eq!(code(liberate(true, 7, 900, Some(price))), "AlreadyLiberated");
    assert_eq!(code(liberate(false, 7, 900, None)), "ItemDataNotFound");
    let (up, _) = upgrade(weapon(), true, 5, Some(price)).unwrap();
    assert_eq!(up.grade, 2);
    assert_eq!(code(upgrade(weapon(), true, 6, Some(price))), "NotEnoughReinforceLevel");
    assert_eq!(code(upgrade(weapon(), false, 1, Some(price))), "ItemDataNotFound");
}

#[test]
fn ether_injection_adds_experience_and_rate_up_to_their_caps() {
    let level = ReinforceRule { required_exp: 100, success_mark: 3, gold: 70, refused_codes: vec![9] };
    let ether = Ether { code: 1, gold: 10, exp: 25, bonus: Some(40) };
    let (w, gold) = inject(weapon(), true, Some(&level), &vec![(501, 2)], &vec![Some(ether)], 100).unwrap();
    assert_eq!((w.exp, w.reinforce_ratio, gold), (90, 100, 20));
    let (w, _) = inject(weapon(), true, Some(&level), &vec![(501, 3)], &vec![Some(ether)], 1000).unwrap();
    assert_eq!((w.exp, w.reinforce_ratio), (100, 170));
    assert_eq!(code(inject(weapon(), true, Some(&level), &vec![], &vec![], 100)), "InvalidMaterial");
    let refused = Ether { code: 9, ..ether };
    assert_eq!(code(inject(weapon(), true, Some(&level), &vec![(501, 1)], &vec![Some(refused)], 100)), "InvalidMaterial");
    assert_eq!(code(inject(weapon(), true, Some(&level), &vec![(501, 1)], &vec![None], 100)), "ItemDataNotFound");
    let full = SoulWeapon { exp: 100, reinforce_ratio: 100, ..weapon() };
    assert_eq!(code(inject(full, true, Some(&level), &vec![(501, 1)], &vec![Some(ether)], 100)), "AlreadyMax");
    assert_eq!(code(inject(weapon(), false, Some(&level), &vec![(501, 1)], &vec![Some(ether)], 100)), "ItemDataNotFound");
}

#[test]
fn reinforcement_needs_experience_and_rate() {
    let level = ReinforceRule { required_exp: 40, success_mark: 5, gold: 70, refused_codes: vec![] };
    assert_eq!(reinforce_check(weapon(), true, Some(&level)).unwrap(), 70);
    let strict = ReinforceRule { success_mark: 6, ..level };
    assert_eq!(code(reinforce_check(weapon(), true, Some(&strict))), "NotEnoughExp");
    let sure = SoulWeapon { reinforce_ratio: 100000, ..weapon() };
    let (w, ok) = reinforce(sure, 100000);
    assert!(ok);
    assert_eq!((w.reinforce_level, w.exp, w.reinforce_ratio), (11, 0, 0));
    let hopeless = SoulWeapon { reinforce_ratio: 0, ..weapon() };
    let (w, ok) = reinforce(hopeless, 100000);
    assert!(!ok);
    assert_eq!(w.reinforce_level, 10);
}

#[test]
fn soul_weapons_move_only_to_a_free_twin() {
    let moved = transition(weapon(), 8, false, Some((false, 900)), false).unwrap();
    assert_eq!(moved.slot, 8);
    assert_eq!(code(transition(weapon(), 7, false, Some((false, 900)), false)), "InvalidEquipItem");
    assert_eq!(code(transition(weapon(), 8, false, None, false)), "EquipItemNotFound");
    assert_eq!(code(transition(weapon(), 8, false, Some((false, 901)), false)), "InvalidEquipItem");
    assert_eq!(code(transition(weapon(), 8, false, Some((false, 900)), true)), "InvalidEquipItem");
    assert!(soul_action("soul_weapon_upgrade") == Some(SoulAction::Upgrade));
    assert!(soul_action("confirm_soul_stone") == Some(SoulAction::Restore));
    assert!(soul_action("soul_weapon_dance").is_none());
    assert_eq!(code(soul_weapon_check(false, true, Some(SoulAction::Upgrade))), "InvalidEquipItem");
    assert_eq!(code(soul_weapon_check(true, false, Some(SoulAction::Upgrade))), "SoulWeaponNotFound");
    assert_eq!(code(soul_weapon_check(true, true, None)), "Fail");
    assert!(soul_weapon_check(true, false, Some(SoulAction::Liberation)).is_ok());
}

use sprk::renewal::OptionRow;
use sprk::soul_weapon::{
    limit_break_gold, limit_break_items, limit_break_slots, limit_break_stones,
    soul_break_rewards, soul_break_target, SoulBreakReward,
};
use sprk::valance::{select_unique, unique_options, unique_pool, unique_weights_fit, UniqueData};

fn unique_item(grade: i64, duplicates: bool) -> UniqueData {
    UniqueData { equip_type: 1, equip_grade: grade, unique_ids: vec![30, 10], unique_groups: vec![2], duplicates }
}

fn option_rows() -> Vec<OptionRow> {
    vec![
        OptionRow { id: 10, option_type: 1, ratio: 5, steps: 3 },
        OptionRow { id: 20, option_type: 1, ratio: 0, steps: 3 },
        OptionRow { id: 30, option_type: 2, ratio: 7, steps: 0 },
    ]
}

#[test]
fn unique_options_come_from_the_items_pool() {
    let groups = vec![(2, vec![20, 10])];
    assert_eq!(unique_pool(&unique_item(1, false), &groups), vec![10, 20, 30]);
    assert!(unique_weights_fit(&unique_item(1, false), &groups, &option_rows()));
    let v = unique_options(&unique_item(1, false), &groups, &option_rows()).unwrap();
    assert_eq!(v.len(), 2);
    assert!(v[0].0 == 10 || v[0].0 == 30);
    assert!(v[1].0 == 10 || v[1].0 == 30);
    assert_ne!(v[0].0, v[1].0);
    for (id, step) in &v {
        assert!(*step >= 0 && *step <= if *id == 10 { 3 } else { 0 });
    }
    let single = unique_options(&unique_item(2, false), &groups, &option_rows()).unwrap();
    assert_eq!(single.len(), 1);
    let only = vec![OptionRow { id: 10, option_type: 1, ratio: 5, steps: 3 }];
    assert_eq!(code(unique_options(&unique_item(1, false), &vec![], &only)), "InvalidOption");
    let twice = unique_options(&unique_item(1, true), &vec![], &only).unwrap();
    assert_eq!((twice[0].0, twice[1].0), (10, 10));
    assert_eq!(code(unique_options(&unique_item(2, false), &vec![], &vec![])), "InvalidOption");
    let chosen = select_unique(&unique_item(1, false), &groups, &option_rows(), &vec![30, 10]).unwrap();
    assert_eq!(chosen, vec![(30, 0), (10, 3)]);
    assert_eq!(code(select_unique(&unique_item(1, false), &groups, &option_rows(), &vec![30, 30])), "NoAvailableOption");
    assert_eq!(code(select_unique(&unique_item(1, false), &groups, &option_rows(), &vec![30])), "NoAvailableOption");
}

#[test]
fn soul_breaks_and_limit_breaks_follow_their_tables() {
    assert_eq!(code(soul_break_target(None)), "SoulWeaponNotFound");
    let pending = SoulWeapon { pending: true, ..weapon() };
    assert_eq!(code(soul_break_target(Some(pending))), "SoulWeaponNotFound");
    assert_eq!(soul_break_target(Some(weapon())).unwrap().slot, 7);
    let got = soul_break_rewards(&vec![
        SoulBreakReward { item: 1, min: 3, max: 3 },
        SoulBreakReward { item: 2, min: 0, max: 0 },
    ]);
    assert_eq!(got, vec![(1, 3)]);
    assert!(limit_break_slots(7, &vec![8, 9], 2).is_ok());
    assert_eq!(code(limit_break_slots(7, &vec![8], 2)), "InvalidMaterial");
    assert_eq!(code(limit_break_slots(7, &vec![7, 9], 2)), "InvalidMaterial");
    assert!(limit_break_items(900, &vec![900, 900]).is_ok());
    assert_eq!(code(limit_break_items(900, &vec![900, 901])), "InvalidMaterial");
    assert_eq!(limit_break_stones(50, 3, 40, 1, &vec![(50, 3), (40, 1)]).unwrap(), vec![(40, 1), (50, 3)]);
    assert_eq!(limit_break_stones(50, 3, 40, 0, &vec![(50, 3)]).unwrap(), vec![(50, 3)]);
    assert_eq!(code(limit_break_stones(50, 3, 40, 1, &vec![(50, 3)])), "InvalidMaterial");
    assert_eq!(code(limit_break_stones(50, 3, 40, 1, &vec![(50, 2), (40, 1)])), "InvalidMaterial");
    assert_eq!(limit_break_stones(50, 3, 50, 2, &vec![(50, 2)]).unwrap(), vec![(50, 2)]);
    assert_eq!(limit_break_gold(1500, 3), 4500);
    let up = sprk::forge::awaken_roll(2, 10, 100, 5);
    assert!(up.success && up.star == 3 && up.fail_bonus == 0);
    let down = sprk::forge::awaken_roll(2, 10, -20, 5);
    assert!(!down.success && down.star == 2 && down.fail_bonus == 15);
}

#[test]
fn npc_step_rewards_cannot_be_claimed_twice() {
    let rows = npc_rows();
    let f = NpcFriendship { hero: 95, step: 1, point: 150, end_count: 0 };
    let once = npc_claim(f, 1, 100, &rows, 0).unwrap();
    assert_eq!(once.step, 2);
    assert_eq!(code(npc_claim(once, 1, 100, &rows, 0)), "NotEnoughFriendlyPoint");
}

#[test]
fn unique_option_ratios_must_fit_a_draw() {
    let groups = vec![(2, vec![20, 10])];
    let heavy = vec![
        OptionRow { id: 10, option_type: 1, ratio: i64::MAX, steps: 3 },
        OptionRow { id: 30, option_type: 2, ratio: 1, steps: 0 },
    ];
    assert!(!unique_weights_fit(&unique_item(1, false), &groups, &heavy));
    assert!(unique_weights_fit(&unique_item(1, false), &groups, &vec![]));
}

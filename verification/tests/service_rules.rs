use sprk::error::ServerError;
use sprk::events::{forge, ForgeOutcome};
use sprk::forge::{awaken_material_check, awaken_start, level_target_check, tier_upgrade_check};
use sprk::forms::Request;
use sprk::hero::{bookmark_flag, buy_hero_check, buy_hero_response, BuyHeroPlan};
use sprk::offers::{dungeon_booster, selection_restock};
use sprk::potion::{get_stamina_item_info, use_potion_item};
use sprk::social::{
    accept_friend_result, add_friend_result, join_guild_check, leave_guild_check, leave_guild_result,
    like_pattern, LeavePlan,
};
use sprk::soul::{confirm_soul_stone, mileage_reward, restore_row};
use sprk::summons::{draw_plan, draw_start_check, free_draw_check};

fn code<T>(r: Result<T, ServerError>) -> String {
    match r {
        Err(ServerError::InvalidRequest(c)) => c,
        Err(e) => panic!("unexpected error {:?}", e),
        Ok(_) => panic!("expected a refusal"),
    }
}

fn req(pairs: &[(&str, &str)]) -> Request {
    Request(pairs.iter().map(|(k, v)| (k.to_string(), v.to_string())).collect())
}

#[test]
fn stamina_potions_restore_their_table_amount() {
    assert_eq!(get_stamina_item_info(41003), Some((90, "Chicken")));
    assert_eq!(get_stamina_item_info(7), None);
    let used = use_potion_item(41002, 2, 5, 100);
    assert_eq!(used.response.result, "Success");
    assert_eq!(used.new_stamina, Some(220));
    assert_eq!(used.new_count, 3);
    let full = use_potion_item(120004, 1, 1, 400);
    assert_eq!(full.new_stamina, Some(999));
    let short = use_potion_item(41002, 6, 5, 100);
    assert_eq!(short.response.result, "NotEnoughItem");
    assert_eq!(short.new_count, 5);
    assert!(short.new_stamina.is_none());
}

#[test]
fn heroes_cost_six_thousand_gems() {
    assert!(matches!(buy_hero_check(true, 9000), BuyHeroPlan::Refused(1)));
    assert!(matches!(buy_hero_check(false, 5999), BuyHeroPlan::Refused(2)));
    let plan = buy_hero_check(false, 6500);
    assert!(matches!(plan, BuyHeroPlan::Buy { new_gem: 500 }));
    let answer = buy_hero_response(&plan, 6500, 77, 12);
    assert_eq!(answer.result, 0);
    let hero = answer.hero_info.unwrap();
    assert_eq!((hero.hero_id, hero.hero_index, hero.star, hero.level), (77, 12, 2, 1));
    assert_eq!(bookmark_flag(Some(false)), 0);
    assert_eq!(bookmark_flag(None), 1);
}

#[test]
fn friends_and_guilds_answer_with_their_codes() {
    assert_eq!(add_friend_result(true).result, 1);
    assert_eq!(add_friend_result(false).result, 0);
    assert!(matches!(accept_friend_result(0), Err(ServerError::NotFound(_))));
    assert_eq!(accept_friend_result(1).unwrap().result, 0);
    assert_eq!(like_pattern("ab"), "%ab%");
    assert_eq!(join_guild_check(true, None).unwrap().result, 1);
    assert!(matches!(join_guild_check(false, None), Err(ServerError::NotFound(_))));
    assert_eq!(join_guild_check(false, Some((30, 30))).unwrap().result, 2);
    assert_eq!(join_guild_check(false, Some((3, 30))).unwrap().result, 0);
    let master = leave_guild_check(Some((2, 5))).unwrap();
    assert!(matches!(master, LeavePlan::MasterMustHandOver));
    assert_eq!(leave_guild_result(&master).result, 1);
    assert!(matches!(leave_guild_check(Some((2, 1))).unwrap(), LeavePlan::Leave { disband: true }));
    assert!(matches!(leave_guild_check(Some((1, 9))).unwrap(), LeavePlan::Leave { disband: false }));
}

#[test]
fn soul_stones_are_restored_from_the_table() {
    assert!(confirm_soul_stone(&vec![4, 8], 8).is_ok());
    assert_eq!(code(confirm_soul_stone(&vec![4, 8], 5)), "InvalidSoulStoneIndex");
    assert_eq!(restore_row(&req(&[("SoulStoneRestoreIndex", "2")]), false, 3).unwrap(), 1);
    assert_eq!(code(restore_row(&req(&[("SoulStoneRestoreIndex", "4")]), false, 3)), "InvalidSoulStoneRestoreIndex");
    assert_eq!(code(restore_row(&req(&[("SoulStoneRestoreIndex", "1")]), true, 3)), "UnconfirmedSoulStone");
    assert_eq!(code(restore_row(&req(&[("SoulStoneRestoreIndex", "x")]), false, 3)), "InvalidValue");
    assert_eq!(mileage_reward(130, 100).unwrap(), 30);
    assert_eq!(code(mileage_reward(99, 100)), "NotEnoughMileage");
}

#[test]
fn selection_shops_restock_within_their_limit() {
    assert_eq!(selection_restock(Some((500, 1)), 100, false, 3).unwrap(), None);
    assert_eq!(selection_restock(Some((500, 1)), 100, true, 3).unwrap(), Some(2));
    assert_eq!(code(selection_restock(Some((500, 3)), 100, true, 3)), "InvalidValue");
    assert_eq!(selection_restock(Some((50, 3)), 100, true, 3).unwrap(), Some(1));
    assert_eq!(selection_restock(None, 100, false, 3).unwrap(), Some(0));
    assert_eq!(dungeon_booster(true, 300, 300, Some(3600), 1000, 500).unwrap(), 4600);
    assert_eq!(dungeon_booster(true, 300, 300, Some(3600), 100, 500).unwrap(), 4100);
    assert_eq!(code(dungeon_booster(true, 300, 200, Some(3600), 100, 500)), "InvalidCost");
    assert_eq!(code(dungeon_booster(true, 300, 300, None, 100, 500)), "BoosterDataNotFound");
    assert_eq!(code(dungeon_booster(true, 300, 300, Some(0), 100, 500)), "InvalidValue");
}

#[test]
fn summons_plan_pity_and_bonus_draws() {
    let plan = draw_plan(3, 1, 2, 1).unwrap();
    assert_eq!(plan, vec![(true, false), (false, false), (true, false), (false, true)]);
    assert_eq!(code(draw_plan(0, 0, 2, 0)), "InvalidValue");
    assert_eq!(code(draw_plan(100, 1, 2, 0)), "InvalidValue");
    assert!(free_draw_check(2, 1, 0, 60, 100).is_ok());
    assert_eq!(code(free_draw_check(2, 2, 0, 60, 100)), "NotFreeTime");
    assert_eq!(code(free_draw_check(2, 1, 50, 60, 100)), "NotFreeTime");
    assert!(draw_start_check(0, 0, false, false, 0, true).is_ok());
    assert_eq!(code(draw_start_check(3, 3, false, false, 0, false)), "StartPickupLimitOver");
    assert_eq!(code(draw_start_check(0, 0, true, false, 0, false)), "GachaDataNotFound");
    assert_eq!(code(draw_start_check(0, 0, false, false, 5, true)), "InvalidValue");
}

#[test]
fn equipment_work_checks_its_targets() {
    assert!(matches!(forge(3, 2, 5, true, 0, 0, 0).ok().unwrap(), ForgeOutcome::Success));
    assert!(matches!(forge(3, 2, 5, false, 0, 0, 1).ok().unwrap(), ForgeOutcome::Break));
    assert_eq!(code(forge(4, 2, 5, true, 0, 0, 0)), "InvalidValue");
    assert_eq!(code(forge(6, 5, 5, true, 0, 0, 0)), "InvalidValue");
    assert!(awaken_start(1, 5, 0, 1, 0).is_ok());
    assert_eq!(code(awaken_start(5, 5, 0, 1, 0)), "MaxStar");
    assert_eq!(code(awaken_start(1, 5, 0, 0, 0)), "NotEnoughMaterial");
    assert_eq!(code(awaken_material_check(3, 3, 9, 9, 1, 1)), "InvalidMaterial");
    assert!(awaken_material_check(4, 3, 9, 9, 1, 1).is_ok());
    assert_eq!(code(level_target_check(5, 5, 10, false)), "MaxLevel");
    assert!(level_target_check(6, 5, 10, false).is_ok());
    assert!(tier_upgrade_check(false, 5, 5).is_ok());
    assert_eq!(code(tier_upgrade_check(true, 5, 5)), "UnconfirmedOption");
    assert_eq!(code(tier_upgrade_check(false, 4, 5)), "NotEnoughStar");
}

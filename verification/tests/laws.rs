use sprk::equip::{set_equip, unset_equip, EquipBoard};
use sprk::inn::{
    do_hero_friendly, join_heroes, selected_heroes, DoHeroFriendlyResult, FriendlyActionType,
    FriendlyState, FriendlyTable,
};
use sprk::mail::{receive_all_mail, receive_mail};
use sprk::pets::{join_pets, read_pets};
use sprk::soul_weapon::{confirm_renew, renew_option, RenewPayment, SoulWeapon};
use sprk::forms::Request;

#[test]
fn hero_lists_read_back_what_was_written() {
    let heroes = vec![3, -1, 27, 2147483647];
    let text = join_heroes(&heroes);
    assert_eq!(text, "3,-1,27,2147483647");
    assert_eq!(selected_heroes(&text), heroes);
    assert_eq!(join_heroes(&vec![]), "");
    assert_eq!(selected_heroes(""), Vec::<i32>::new());
    assert_eq!(selected_heroes("5,x,6,"), vec![5, 6]);
}

#[test]
fn pet_lists_read_back_what_was_written() {
    let pets = vec![10, 0, -4, 9007199254740993];
    let text = join_pets(&pets);
    assert_eq!(text, "10,0,-4,9007199254740993");
    assert_eq!(read_pets(&text), pets);
    assert_eq!(read_pets("1,,2"), vec![1, 2]);
}

#[test]
fn collecting_all_mail_pays_what_collecting_each_pays() {
    let mails = vec![(Some(100), None), (None, Some(5)), (Some(-20), Some(1))];
    let (all, paid) = receive_all_mail(&mails, 1000, 10);
    assert_eq!(all.received_mail_count, 3);
    let (g, e, changed) = paid.unwrap();
    let mut gold = 1000;
    let mut gem = 10;
    for m in &mails {
        let (_, (ng, ne, _)) = receive_mail(*m, gold, gem);
        gold = ng;
        gem = ne;
    }
    assert_eq!((g, e), (gold, gem));
    assert_eq!((g, e), (1080, 16));
    assert!(changed);
    let (none, nothing) = receive_all_mail(&vec![], 1, 1);
    assert_eq!(none.received_mail_count, 0);
    assert!(nothing.is_none());
}

#[test]
fn equipped_items_sit_where_they_were_put() {
    let mut board = EquipBoard { heroes: vec![11, 22], slots: vec![0; 20] };
    board.slots[10 + 3] = 500;
    let (on, off) = set_equip(&mut board, 0, &vec![3, 4], &vec![500, 600]);
    assert_eq!(on, vec![500, 600]);
    assert_eq!(board.slots[3], 500);
    assert_eq!(board.slots[4], 600);
    assert_eq!(board.slots[13], 0);
    assert_eq!(off, vec![500]);
    let removed = unset_equip(&mut board, &vec![600]);
    assert_eq!(removed, vec![600]);
    assert_eq!(board.slots[4], 0);
}

#[test]
fn friendly_points_stop_at_the_table_maximum() {
    let table = FriendlyTable { greeting: 10, conversation: 20, gift: 30, max_friendly_point: 100 };
    let st = FriendlyState { owned_closeness: None, friendly_point: Some(95), friendship_point: 0, gold: 0 };
    let plan = do_hero_friendly(FriendlyActionType::Greeting, &table, &st).ok().unwrap();
    assert_eq!(plan.friendly_point, 100);
    let owned = FriendlyState { owned_closeness: Some(990), friendly_point: Some(5), friendship_point: 0, gold: 30000 };
    let plan = do_hero_friendly(FriendlyActionType::ClosenessGift, &table, &owned).ok().unwrap();
    assert_eq!(plan.closeness, Some(1000));
    assert_eq!(plan.gold_after, Some(5000));
    let poor = FriendlyState { owned_closeness: None, friendly_point: Some(0), friendship_point: 159, gold: 0 };
    assert!(matches!(do_hero_friendly(FriendlyActionType::Conversation, &table, &poor), Err(DoHeroFriendlyResult::CostMismatch)));
    let stranger = FriendlyState { owned_closeness: None, friendly_point: None, friendship_point: 0, gold: 0 };
    assert!(matches!(do_hero_friendly(FriendlyActionType::Greeting, &table, &stranger), Err(DoHeroFriendlyResult::HeroNotExistInFriendlyTable)));
}

fn weapon() -> SoulWeapon {
    SoulWeapon {
        slot: 7, item_index: 900, grade: 1, reinforce_level: 3, reinforce_ratio: 0, exp: 0,
        option_ratios: (480, 520), bonus_ratios: (10, 20), renew_count: 0, pending: false,
        renew_ratios: (0, 0), renew_bonus: (0, 0),
    }
}

#[test]
fn declining_a_renewal_keeps_the_options() {
    let (renewed, pay) = renew_option(weapon(), 0, 2202, Some(&vec![100, 200])).unwrap();
    assert!(matches!(pay, RenewPayment::Gems(100)));
    assert!(renewed.pending);
    assert!(300 <= renewed.renew_ratios.0 && renewed.renew_ratios.0 <= 700);
    assert_eq!(renewed.renew_ratios.0 + renewed.renew_ratios.1, 1000);
    let keep = Request(vec![("IsNew".to_string(), "false".to_string())]);
    let back = confirm_renew(renewed, &keep).unwrap();
    assert_eq!(back.option_ratios, (480, 520));
    assert_eq!(back.bonus_ratios, (10, 20));
    assert!(!back.pending);
    assert_eq!(back.renew_count, 1);
    let take = Request(vec![("IsNew".to_string(), "True".to_string())]);
    let new = confirm_renew(renewed, &take).unwrap();
    assert_eq!(new.option_ratios, renewed.renew_ratios);
    assert_eq!(new.bonus_ratios, renewed.renew_bonus);
}

#[test]
fn roulette_spins_left_never_go_negative() {
    let selected = vec![3, 4, 5];
    let owned = vec![4, 5, 9];
    let fresh = sprk::inn::request_hero_inn_roulette(2, &selected, &owned, 0);
    assert_eq!((fresh.roulette_info_index, fresh.remain_count, fresh.max_count), (2, 3, 3));
    let spent = sprk::inn::request_hero_inn_roulette(2, &selected, &owned, 5);
    assert_eq!((spent.remain_count, spent.max_count), (0, 3));
    let one = sprk::inn::request_hero_inn_roulette(1, &vec![], &owned, 1);
    assert_eq!((one.remain_count, one.max_count), (0, 1));
}

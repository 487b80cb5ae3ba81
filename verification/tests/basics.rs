use sprk::error::ServerError;
use sprk::forms::{parse_form_body, session_of, get_session_key, Request};
use sprk::lists::{int_array, short_list, text_array, is_distinct, is_within};
use sprk::text::{parse_i64, parse_i32, push_int, str_eq};
use sprk::wallet::{currency, money, Wallet};

fn code<T>(r: Result<T, ServerError>) -> String {
    match r {
        Err(ServerError::InvalidRequest(c)) => c,
        Err(e) => panic!("unexpected error {:?}", e),
        Ok(_) => panic!("expected a refusal"),
    }
}

fn req(pairs: &[(&str, &str)]) -> Request {
    Request(pairs.iter().map(|(k, v)| (k.to_string(), v.to_string())).collect())
}

fn wallet() -> Wallet {
    Wallet {
        gold: 1000, gem: 30, pay_gem: 50, mileage: 7, friendship_point: 0, pvp_coin: 0,
        royal_point: 0, raid_point: 0, world_boss_point: 0, shakmeh_middle_boss_point: 0,
        guild_point: 0, guild_arena_point: 0,
    }
}

#[test]
fn numbers_are_read_as_rust_reads_them() {
    assert_eq!(parse_i64("42"), Some(42));
    assert_eq!(parse_i64("-7"), Some(-7));
    assert_eq!(parse_i64("+3"), Some(3));
    assert_eq!(parse_i64("9223372036854775807"), Some(i64::MAX));
    assert_eq!(parse_i64("9223372036854775808"), None);
    assert_eq!(parse_i64(""), None);
    assert_eq!(parse_i64("1x"), None);
    assert_eq!(parse_i32("2147483648"), None);
    assert_eq!(parse_i32("-2147483648"), Some(i32::MIN));
}

#[test]
fn integers_are_written_in_decimal() {
    let mut s = String::from("n=");
    push_int(&mut s, -120);
    assert_eq!(s, "n=-120");
    let mut t = String::new();
    push_int(&mut t, i64::MIN);
    assert_eq!(t, "-9223372036854775808");
    assert!(str_eq("abc", "abc"));
    assert!(!str_eq("abc", "abd"));
}

#[test]
fn form_bodies_are_split_and_percent_decoded() {
    let r = parse_form_body("SessionKey=abc%20d&HeroIndex=12&Name=a%2Bb&Empty=");
    assert_eq!(r.text("SessionKey"), "abc d");
    assert_eq!(r.text("Name"), "a+b");
    assert_eq!(r.text("Empty"), "");
    assert_eq!(r.text("Missing"), "");
    assert_eq!(r.number("HeroIndex", 0).unwrap(), 12);
    assert_eq!(r.number("Missing", 5).unwrap(), 5);
    assert_eq!(code(r.number("SessionKey", 0)), "InvalidValue");
}

#[test]
fn the_last_field_of_a_name_wins() {
    let r = parse_form_body("A=1&A=2");
    assert_eq!(r.text("A"), "2");
}

#[test]
fn sessions_prefer_the_session_key() {
    assert_eq!(session_of(Some("k".into()), Some("i".into())).unwrap(), "k");
    assert_eq!(session_of(None, Some("i".into())).unwrap(), "i");
    assert!(matches!(session_of(None, None), Err(ServerError::SessionExpired)));
    assert_eq!(get_session_key(&req(&[("SessionId", "x")])), Some("x".to_string()));
    assert_eq!(get_session_key(&req(&[("SessionId", "x"), ("SessionKey", "y")])), Some("y".to_string()));
    assert_eq!(get_session_key(&req(&[])), None);
}

#[test]
fn json_lists_are_read_through_serde_json() {
    assert_eq!(int_array("[1, 2, -3]", "Bad").unwrap(), vec![1, 2, -3]);
    assert_eq!(code(int_array("[1, \"x\"]", "Bad")), "Bad");
    assert_eq!(code(int_array("", "Bad")), "Bad");
    assert_eq!(text_array("[\"a\",\"b c\"]", "Bad").unwrap(), vec!["a".to_string(), "b c".to_string()]);
    assert_eq!(code(text_array("[1]", "Bad")), "Bad");
    assert_eq!(short_list(&req(&[("L", "[4,5]")]), "L").unwrap(), vec![4, 5]);
    assert_eq!(code(short_list(&req(&[("L", "[]")]), "L")), "InvalidValue");
    assert!(is_distinct(&vec![1, 2, 3]));
    assert!(!is_distinct(&vec![1, 2, 1]));
    assert!(is_within(&vec![1, 5], 1, 5));
    assert!(!is_within(&vec![0, 5], 1, 5));
}

#[test]
fn gems_spend_free_ones_first() {
    let w = currency(&wallet(), "Gem", -40).unwrap();
    assert_eq!((w.gem, w.pay_gem), (0, 40));
    let w = currency(&wallet(), "Gem", -10).unwrap();
    assert_eq!((w.gem, w.pay_gem), (20, 50));
    assert_eq!(code(currency(&wallet(), "Gem", -81)), "NotEnoughGem");
    let w = currency(&wallet(), "Gem", 5).unwrap();
    assert_eq!((w.gem, w.pay_gem), (35, 50));
}

#[test]
fn single_column_currencies_stay_within_bounds() {
    let w = currency(&wallet(), "Gold", -1000).unwrap();
    assert_eq!(w.gold, 0);
    assert_eq!(code(currency(&wallet(), "Gold", -1001)), "NotEnoughGold");
    assert_eq!(code(currency(&wallet(), "Mileage", 2147483647)), "NotEnoughMileage");
    assert_eq!(code(currency(&wallet(), "Diamonds", 1)), "InvalidCost");
    assert_eq!(code(money(&wallet(), "Mileage", 1)), "Fail");
    assert_eq!(money(&wallet(), "Gold", 1).unwrap().gold, 1001);
}

#[test]
fn spending_then_refunding_restores_the_balance() {
    let spent = currency(&wallet(), "Mileage", -7).unwrap();
    let back = currency(&spent, "Mileage", 7).unwrap();
    assert_eq!(back.mileage, 7);
    assert_eq!(back.gold, 1000);
}

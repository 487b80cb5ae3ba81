use sprk::inn::{parse_action_string, FriendlyActionType, DoHeroFriendlyResult};

#[test]
fn action_names_and_numbers_are_read() {
    assert!(matches!(parse_action_string("Greeting"), FriendlyActionType::Greeting));
    assert!(matches!(parse_action_string("Closeness_Gift"), FriendlyActionType::ClosenessGift));
    assert!(matches!(parse_action_string("3"), FriendlyActionType::Gift));
    assert!(matches!(parse_action_string("oops"), FriendlyActionType::NoAction));
    assert_eq!(DoHeroFriendlyResult::CostMismatch.as_str(), "CostMismatch");
}

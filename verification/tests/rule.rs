use game_of_life::Rule;

#[test]
fn test_rule_display_birth() {
    let normal = Rule::normal();
    let normal_birth = String::from("3");

    assert_eq!(normal.display_birth(), normal_birth);
}

#[test]
fn test_rule_display_survival() {
    let normal = Rule::normal();
    let normal_survival = String::from("23");

    assert_eq!(normal.display_survival(), normal_survival);
}

#[test]
fn test_rule_empty_and_set() {
    let mut rule = Rule::empty();
    for n in 0..9 {
        assert!(!rule.survival(n));
        assert!(!rule.birth(n));
    }
    rule.set_survival(4, true);
    rule.set_birth(6, true);
    assert!(rule.survival(4));
    assert!(!rule.survival(5));
    assert!(rule.birth(6));
    assert!(!rule.birth(3));
    rule.set_survival(4, false);
    assert!(!rule.survival(4));
}

#[test]
fn test_rule_display_ascending_order() {
    // Digits are emitted in ascending numeric order regardless of the
    // order in which the entries were set.
    let mut rule = Rule::empty();
    rule.set_birth(8, true);
    rule.set_birth(1, true);
    rule.set_birth(5, true);
    assert_eq!(rule.display_birth(), String::from("158"));
    assert_eq!(rule.display_survival(), String::new());
}

#[test]
fn test_rule_default_is_normal() {
    let rule = Rule::default();
    assert!(rule.survival(2));
    assert!(rule.survival(3));
    assert!(rule.birth(3));
    assert!(!rule.survival(1));
    assert!(!rule.birth(2));
}

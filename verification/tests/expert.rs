use mivi::expert::{make_key, parse_key, should_pin_expert, ExpertKey, ExpertPinningStrategy};

#[test]
fn expert_key_names_round_trip() {
    assert_eq!(make_key(0, 3), "L0_E3");
    assert_eq!(make_key(12, 105), "L12_E105");
    assert_eq!(parse_key("L12_E105"), Some(ExpertKey { layer: 12, expert_id: 105 }));
    assert_eq!(parse_key(&make_key(7, 0)), Some(ExpertKey { layer: 7, expert_id: 0 }));
    assert_eq!(parse_key("L+1_E2"), Some(ExpertKey { layer: 1, expert_id: 2 }));
}

#[test]
fn malformed_expert_names() {
    assert_eq!(parse_key("L1E2"), None);
    assert_eq!(parse_key("L1_E2_x"), None);
    assert_eq!(parse_key("X1_E2"), None);
    assert_eq!(parse_key("L1_F2"), None);
    assert_eq!(parse_key("L_E2"), None);
    assert_eq!(parse_key("L1_E99999999999999999999999"), None);
}

#[test]
fn pinning_policies() {
    let k = |l, e| ExpertKey { layer: l, expert_id: e };
    let ranked = vec![k(1, 2), k(0, 3), k(0, 1), k(1, 0), k(0, 4)];
    assert!(should_pin_expert(ExpertPinningStrategy::TopGlobal(2), &ranked, 1, 2));
    assert!(should_pin_expert(ExpertPinningStrategy::TopGlobal(2), &ranked, 0, 3));
    assert!(!should_pin_expert(ExpertPinningStrategy::TopGlobal(2), &ranked, 0, 1));
    assert!(should_pin_expert(ExpertPinningStrategy::TopPerLayer(2), &ranked, 0, 1));
    assert!(!should_pin_expert(ExpertPinningStrategy::TopPerLayer(2), &ranked, 0, 4));
    assert!(should_pin_expert(ExpertPinningStrategy::TopPerLayer(2), &ranked, 1, 0));
    assert!(!should_pin_expert(ExpertPinningStrategy::Disabled, &ranked, 1, 2));
}

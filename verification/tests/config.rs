use testing_framework::key::Key;
use testing_framework::types::{
    default_amount, AmountRange, ConfigFault, PaymentMethodDetails, PaymentMethods,
    PaymentRecorderData, PspSimulationConfig, SimulationConfig, SimulationError, Status,
    UserSimulationConfig,
};

fn key(text: &str) -> Key {
    Key(text.to_string())
}

fn leaf(name: &str, share: u8) -> (Key, PaymentMethodDetails) {
    (key(name), PaymentMethodDetails::Percentage(share))
}

fn composite(name: &str, share: u8, next: SimulationConfig) -> (Key, PaymentMethodDetails) {
    (key(name), PaymentMethodDetails::Composite { percentage: share, next, extra_fields: None })
}

fn level(name: &str, children: Vec<(Key, PaymentMethodDetails)>) -> SimulationConfig {
    SimulationConfig(vec![(key(name), PaymentMethods(children))])
}

fn user(tree: SimulationConfig, amount: Option<AmountRange>) -> UserSimulationConfig {
    UserSimulationConfig { amount, currency: None, payment_methods: tree, extra_fields: None }
}

fn path_of(error: &SimulationError) -> Vec<String> {
    match error {
        SimulationError::ConfigInvalid { path, .. } => path.iter().map(|k| k.0.clone()).collect(),
        SimulationError::SamplerExhausted => panic!("not a configuration error"),
    }
}

#[test]
fn keys_compare_by_their_characters() {
    assert_eq!(key("card"), key("card"));
    assert_ne!(key("card"), key("Card"));
    assert_eq!(key("card").clone(), key("card"));
    assert_eq!(Key::new("wallet"), key("wallet"));
}

#[test]
fn default_amount_is_zero_to_two_thousand() {
    let range = default_amount().unwrap();
    assert_eq!((range.min, range.max), (0, 2000));
}

#[test]
fn shares_that_add_up_to_hundred_are_valid() {
    let node = PaymentMethods(vec![leaf("card", 60), leaf("wallet", 40)]);
    assert!(node.validate().is_ok());
}

#[test]
fn a_single_share_of_hundred_is_valid() {
    let node = PaymentMethods(vec![leaf("card", 100)]);
    assert!(node.validate().is_ok());
}

#[test]
fn shares_below_hundred_are_rejected_at_the_node() {
    let node = PaymentMethods(vec![leaf("card", 60), leaf("wallet", 39)]);
    let error = node.validate().unwrap_err();
    assert!(matches!(
        error,
        SimulationError::ConfigInvalid { reason: ConfigFault::TotalNotHundred, .. }
    ));
    assert_eq!(path_of(&error), Vec::<String>::new());
}

#[test]
fn shares_above_hundred_are_rejected() {
    let node = PaymentMethods(vec![leaf("card", 60), leaf("wallet", 41)]);
    assert!(node.validate().is_err());
}

#[test]
fn shares_that_would_wrap_around_are_rejected() {
    // 200 + 156 is 356, which is 100 modulo 256.
    let node = PaymentMethods(vec![leaf("card", 200), leaf("wallet", 156)]);
    assert!(node.validate().is_err());
}

#[test]
fn an_empty_node_is_rejected() {
    let node = PaymentMethods(vec![]);
    assert!(node.validate().is_err());
}

#[test]
fn an_empty_level_is_valid() {
    assert!(SimulationConfig(vec![]).validate().is_ok());
}

#[test]
fn a_fault_below_is_named_by_its_path() {
    let inner = level("payment_method_type", vec![leaf("credit", 50), leaf("debit", 49)]);
    let tree = level("payment_methods", vec![leaf("wallet", 40), composite("card", 60, inner)]);
    let error = tree.validate().unwrap_err();
    assert!(matches!(
        error,
        SimulationError::ConfigInvalid { reason: ConfigFault::TotalNotHundred, .. }
    ));
    assert_eq!(path_of(&error), vec!["payment_methods", "card", "payment_method_type"]);
}

#[test]
fn a_fault_below_is_found_before_the_fault_of_the_node() {
    let inner = level("payment_method_type", vec![leaf("credit", 10)]);
    let tree = level("payment_methods", vec![composite("card", 60, inner), leaf("wallet", 10)]);
    let error = tree.validate().unwrap_err();
    assert_eq!(path_of(&error), vec!["payment_methods", "card", "payment_method_type"]);
}

#[test]
fn the_first_faulty_attribute_is_named() {
    let tree = SimulationConfig(vec![
        (key("payment_methods"), PaymentMethods(vec![leaf("card", 100)])),
        (key("country"), PaymentMethods(vec![leaf("de", 30)])),
        (key("network"), PaymentMethods(vec![leaf("visa", 30)])),
    ]);
    let error = tree.validate().unwrap_err();
    assert_eq!(path_of(&error), vec!["country"]);
}

#[test]
fn a_valid_nested_tree_is_accepted() {
    let inner = level("payment_method_type", vec![leaf("credit", 50), leaf("debit", 50)]);
    let tree = level("payment_methods", vec![leaf("wallet", 40), composite("card", 60, inner)]);
    assert!(user(tree, None).validate().is_ok());
}

#[test]
fn an_empty_amount_range_is_rejected() {
    let tree = level("payment_methods", vec![leaf("card", 100)]);
    let config = user(tree, Some(AmountRange { min: 10, max: 9 }));
    let error = config.validate().unwrap_err();
    assert!(matches!(
        error,
        SimulationError::ConfigInvalid { reason: ConfigFault::EmptyAmountRange, .. }
    ));
    assert_eq!(path_of(&error), vec!["amount"]);
}

#[test]
fn an_amount_range_of_one_value_is_accepted() {
    let tree = level("payment_methods", vec![leaf("card", 100)]);
    assert!(user(tree, Some(AmountRange { min: 7, max: 7 })).validate().is_ok());
}

#[test]
fn the_amount_is_checked_before_the_tree() {
    let tree = level("payment_methods", vec![leaf("card", 99)]);
    let error = user(tree, Some(AmountRange { min: 2, max: 1 })).validate().unwrap_err();
    assert_eq!(path_of(&error), vec!["amount"]);
}

#[test]
fn a_key_that_occurs_twice_is_found() {
    let node = PaymentMethods(vec![leaf("card", 50), leaf("wallet", 25), leaf("card", 25)]);
    assert!(!node.is_unique());
    assert!(node.validate().is_ok());
    let clean = PaymentMethods(vec![leaf("card", 50), leaf("wallet", 50)]);
    assert!(clean.is_unique());
    let inner = level("payment_method_type", vec![leaf("credit", 50), leaf("credit", 50)]);
    let tree = level("payment_methods", vec![composite("card", 100, inner)]);
    assert!(!tree.is_unique());
    let twice = SimulationConfig(vec![
        (key("country"), PaymentMethods(vec![leaf("de", 100)])),
        (key("country"), PaymentMethods(vec![leaf("fr", 100)])),
    ]);
    assert!(!twice.is_unique());
    assert!(SimulationConfig(vec![]).is_unique());
    let psp = |names: &[&str]| PspSimulationConfig {
        psp_variants: names
            .iter()
            .map(|n| {
                (
                    key(n),
                    testing_framework::types::PspDetails {
                        payment_methods: vec![],
                        psp_time_config: None,
                    },
                )
            })
            .collect(),
        otherwise: None,
    };
    assert!(psp(&["a", "b"]).is_unique());
    assert!(!psp(&["a", "b", "a"]).is_unique());
}

#[test]
fn percentage_reads_both_kinds_of_child() {
    assert_eq!(PaymentMethodDetails::Percentage(30).percentage(), 30);
    let child = PaymentMethodDetails::Composite {
        percentage: 70,
        next: SimulationConfig(vec![]),
        extra_fields: None,
    };
    assert_eq!(child.percentage(), 70);
}

#[test]
fn default_status_is_success_only_for_the_word_success() {
    let with = |otherwise: Option<&str>| PspSimulationConfig {
        psp_variants: vec![],
        otherwise: otherwise.map(|s| s.to_string()),
    };
    assert_eq!(with(Some("success")).default_status(), Status::Success);
    assert_eq!(with(Some("failure")).default_status(), Status::Failure);
    assert_eq!(with(Some("Success")).default_status(), Status::Failure);
    assert_eq!(with(Some("")).default_status(), Status::Failure);
    assert_eq!(with(None).default_status(), Status::Failure);
}

#[test]
fn set_values_keeps_the_three_parts() {
    let data = PaymentRecorderData::set_values(key("stripe"), Status::Success, key("{}"));
    assert_eq!(data.connector, key("stripe"));
    assert_eq!(data.verdict, Status::Success);
    assert_eq!(data.payment_data, key("{}"));
}

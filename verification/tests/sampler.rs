use rand::rngs::StdRng;
use rand::SeedableRng;
use testing_framework::context::Context;
use testing_framework::key::Key;
use testing_framework::sampler::{
    choose_payment_method, generate_random_amount, list_payment_methods, Sampler,
};
use testing_framework::text::decimal_text;
use testing_framework::types::{
    AmountRange, ConfigFault, PaymentMethodDetails, PaymentMethods, SimulationConfig,
    SimulationError, UserSimulationConfig,
};

fn key(text: &str) -> Key {
    Key(text.to_string())
}

fn leaf(name: &str, share: u8) -> (Key, PaymentMethodDetails) {
    (key(name), PaymentMethodDetails::Percentage(share))
}

fn composite(name: &str, share: u8, next: SimulationConfig) -> (Key, PaymentMethodDetails) {
    (key(name), PaymentMethodDetails::Composite { percentage: share, next, extra_fields: None })
}

fn level(name: &str, children: Vec<(Key, PaymentMethodDetails)>) -> SimulationConfig {
    SimulationConfig(vec![(key(name), PaymentMethods(children))])
}

fn value(context: &Context, name: &str) -> Option<String> {
    context.get(&key(name)).map(|k| k.0.clone())
}

#[test]
fn decimal_text_writes_numerals() {
    assert_eq!(decimal_text(0), "0");
    assert_eq!(decimal_text(7), "7");
    assert_eq!(decimal_text(10), "10");
    assert_eq!(decimal_text(2000), "2000");
    assert_eq!(decimal_text(1234567890), "1234567890");
    assert_eq!(decimal_text(u32::MAX), "4294967295");
}

#[test]
fn pick_child_follows_the_running_sum() {
    let node = PaymentMethods(vec![leaf("card", 60), leaf("wallet", 30), leaf("upi", 10)]);
    assert_eq!(node.pick_child(0), Some(0));
    assert_eq!(node.pick_child(59), Some(0));
    assert_eq!(node.pick_child(60), Some(1));
    assert_eq!(node.pick_child(89), Some(1));
    assert_eq!(node.pick_child(90), Some(2));
    assert_eq!(node.pick_child(99), Some(2));
    assert_eq!(node.pick_child(100), None);
    assert_eq!(node.pick_child(255), None);
}

#[test]
fn pick_child_skips_children_without_share() {
    let node = PaymentMethods(vec![leaf("card", 0), leaf("wallet", 100)]);
    assert_eq!(node.pick_child(0), Some(1));
    assert_eq!(node.pick_child(99), Some(1));
}

#[test]
fn pick_child_finds_none_beyond_the_shares() {
    let node = PaymentMethods(vec![leaf("card", 20), leaf("wallet", 30)]);
    assert_eq!(node.pick_child(49), Some(1));
    assert_eq!(node.pick_child(50), None);
    assert_eq!(PaymentMethods(vec![]).pick_child(0), None);
}

#[test]
fn a_valid_node_always_yields_a_child() {
    let node = PaymentMethods(vec![leaf("card", 60), leaf("wallet", 30), leaf("upi", 10)]);
    for draw in 0..100u8 {
        assert!(node.pick_child(draw).is_some());
    }
}

#[test]
fn choose_payment_method_draws_every_child_of_a_valid_node() {
    let node = PaymentMethods(vec![leaf("card", 50), leaf("wallet", 50)]);
    let mut rng = StdRng::seed_from_u64(7);
    let mut seen_card = 0;
    let mut seen_wallet = 0;
    for _ in 0..1000 {
        let (chosen, next) = choose_payment_method(&node, &mut rng).unwrap();
        assert!(next.is_none());
        if chosen.0 == "card" {
            seen_card += 1;
        } else {
            assert_eq!(chosen.0, "wallet");
            seen_wallet += 1;
        }
    }
    assert!(seen_card > 400 && seen_wallet > 400);
}

#[test]
fn choose_payment_method_hands_out_what_follows() {
    let inner = level("payment_method_type", vec![leaf("credit", 100)]);
    let node = PaymentMethods(vec![composite("card", 100, inner)]);
    let mut rng = StdRng::seed_from_u64(1);
    let (chosen, next) = choose_payment_method(&node, &mut rng).unwrap();
    assert_eq!(chosen.0, "card");
    assert_eq!(next.unwrap().0[0].0 .0, "payment_method_type");
}

#[test]
fn a_node_without_shares_exhausts_the_sampler() {
    let node = PaymentMethods(vec![leaf("card", 0)]);
    let mut rng = StdRng::seed_from_u64(3);
    for _ in 0..50 {
        assert!(matches!(
            choose_payment_method(&node, &mut rng),
            Err(SimulationError::SamplerExhausted)
        ));
    }
}

#[test]
fn deterministic_sampler() {
    let inner = level("payment_method_type", vec![leaf("credit", 100)]);
    let tree = level("payment_methods", vec![composite("card", 100, inner)]);
    let config = UserSimulationConfig {
        amount: None,
        currency: None,
        payment_methods: tree,
        extra_fields: None,
    };
    let mut rng = StdRng::seed_from_u64(42);
    for _ in 0..200 {
        let context = config.generate_sample(&mut rng).unwrap();
        assert_eq!(value(&context, "payment_methods").unwrap(), "card");
        assert_eq!(value(&context, "payment_method_type").unwrap(), "credit");
        assert_eq!(value(&context, "currency").unwrap(), "USD");
        let amount: u32 = value(&context, "amount").unwrap().parse().unwrap();
        assert!(amount <= 2000);
        assert_eq!(context.len(), 4);
    }
}

#[test]
fn the_same_seed_gives_the_same_samples() {
    let inner = level("payment_method_type", vec![leaf("credit", 30), leaf("debit", 70)]);
    let tree = level("payment_methods", vec![composite("card", 60, inner), leaf("wallet", 40)]);
    let config = UserSimulationConfig {
        amount: Some(AmountRange { min: 1, max: 1_000_000 }),
        currency: Some("EUR".to_string()),
        payment_methods: tree,
        extra_fields: None,
    };
    let mut first = StdRng::seed_from_u64(42);
    let mut second = StdRng::seed_from_u64(42);
    let mut amounts = std::collections::BTreeSet::new();
    for _ in 0..100 {
        let a = config.generate_sample(&mut first).unwrap();
        let b = config.generate_sample(&mut second).unwrap();
        assert_eq!(a.entries(), b.entries());
        assert_eq!(value(&a, "currency").unwrap(), "EUR");
        amounts.insert(value(&a, "amount").unwrap());
    }
    assert!(amounts.len() > 1);
}

#[test]
fn sampled_amounts_lie_in_the_range() {
    let mut rng = StdRng::seed_from_u64(11);
    let range = Some(AmountRange { min: 5, max: 8 });
    let mut seen = [false; 4];
    for _ in 0..500 {
        let amount = generate_random_amount(&range, &mut rng);
        assert!((5..=8).contains(&amount));
        seen[(amount - 5) as usize] = true;
    }
    assert_eq!(seen, [true; 4]);
}

#[test]
fn an_amount_range_of_one_value_gives_that_value() {
    let mut rng = StdRng::seed_from_u64(11);
    let range = Some(AmountRange { min: 1234, max: 1234 });
    for _ in 0..20 {
        assert_eq!(generate_random_amount(&range, &mut rng), 1234);
    }
}

#[test]
fn the_default_amount_range_is_zero_to_two_thousand() {
    let mut rng = StdRng::seed_from_u64(5);
    let mut above_thousand = false;
    for _ in 0..500 {
        let amount = generate_random_amount(&None, &mut rng);
        assert!(amount <= 2000);
        above_thousand |= amount > 1000;
    }
    assert!(above_thousand);
}

#[test]
fn the_whole_amount_range_of_the_machine_is_accepted() {
    let mut rng = StdRng::seed_from_u64(5);
    let range = Some(AmountRange { min: 0, max: u32::MAX });
    let _ = generate_random_amount(&range, &mut rng);
    let top = Some(AmountRange { min: u32::MAX, max: u32::MAX });
    assert_eq!(generate_random_amount(&top, &mut rng), u32::MAX);
}

#[test]
fn generate_sample_rejects_an_empty_amount_range() {
    let config = UserSimulationConfig {
        amount: Some(AmountRange { min: 3, max: 2 }),
        currency: None,
        payment_methods: level("payment_methods", vec![leaf("card", 100)]),
        extra_fields: None,
    };
    let mut rng = StdRng::seed_from_u64(1);
    assert!(matches!(
        config.generate_sample(&mut rng),
        Err(SimulationError::ConfigInvalid { reason: ConfigFault::EmptyAmountRange, .. })
    ));
}

#[test]
fn generate_sample_reports_an_exhausted_sampler() {
    let config = UserSimulationConfig {
        amount: None,
        currency: None,
        payment_methods: level("payment_methods", vec![leaf("card", 0)]),
        extra_fields: None,
    };
    let mut rng = StdRng::seed_from_u64(1);
    assert!(matches!(
        config.generate_sample(&mut rng),
        Err(SimulationError::SamplerExhausted)
    ));
}

#[test]
fn a_child_attribute_shadows_the_parent_attribute() {
    // Below `card` the attribute `payment_methods` is sampled again.
    let inner = level("payment_methods", vec![leaf("corporate_card", 100)]);
    let tree = level("payment_methods", vec![composite("card", 100, inner)]);
    let mut rng = StdRng::seed_from_u64(9);
    let context = list_payment_methods(&tree, &mut rng).unwrap();
    assert_eq!(value(&context, "payment_methods").unwrap(), "corporate_card");
    assert_eq!(context.len(), 1);
}

#[test]
fn a_tree_attribute_shadows_amount_and_currency() {
    let tree = SimulationConfig(vec![
        (key("currency"), PaymentMethods(vec![leaf("INR", 100)])),
        (key("amount"), PaymentMethods(vec![leaf("free", 100)])),
    ]);
    let config = UserSimulationConfig {
        amount: None,
        currency: Some("EUR".to_string()),
        payment_methods: tree,
        extra_fields: None,
    };
    let mut rng = StdRng::seed_from_u64(9);
    let context = config.generate_sample(&mut rng).unwrap();
    assert_eq!(value(&context, "currency").unwrap(), "INR");
    assert_eq!(value(&context, "amount").unwrap(), "free");
}

#[test]
fn every_attribute_of_a_level_is_sampled() {
    let tree = SimulationConfig(vec![
        (key("payment_methods"), PaymentMethods(vec![leaf("card", 100)])),
        (key("country"), PaymentMethods(vec![leaf("de", 100)])),
    ]);
    let mut rng = StdRng::seed_from_u64(2);
    let context = list_payment_methods(&tree, &mut rng).unwrap();
    assert_eq!(value(&context, "payment_methods").unwrap(), "card");
    assert_eq!(value(&context, "country").unwrap(), "de");
    let names: Vec<&str> = context.entries().iter().map(|e| e.0 .0.as_str()).collect();
    assert_eq!(names, vec!["payment_methods", "country"]);
}

#[test]
fn an_empty_tree_gives_an_empty_context() {
    let mut rng = StdRng::seed_from_u64(2);
    let context = list_payment_methods(&SimulationConfig(vec![]), &mut rng).unwrap();
    assert_eq!(context.len(), 0);
}

#[test]
fn a_context_replaces_and_extends() {
    let mut context = Context::new();
    assert_eq!(context.len(), 0);
    assert!(context.get(&key("a")).is_none());
    context.insert(key("a"), key("1"));
    context.insert(key("b"), key("2"));
    context.insert(key("a"), key("3"));
    assert_eq!(context.len(), 2);
    assert_eq!(value(&context, "a").unwrap(), "3");
    let mut other = Context::new();
    other.insert(key("b"), key("4"));
    other.insert(key("c"), key("5"));
    context.extend(&other);
    assert_eq!(context.len(), 3);
    assert_eq!(value(&context, "a").unwrap(), "3");
    assert_eq!(value(&context, "b").unwrap(), "4");
    assert_eq!(value(&context, "c").unwrap(), "5");
    let names: Vec<&str> = context.entries().iter().map(|e| e.0 .0.as_str()).collect();
    assert_eq!(names, vec!["a", "b", "c"]);
}

use rand::rngs::StdRng;
use rand::SeedableRng;
use testing_framework::grpc_clients::health_check_client::{
    perform_health_check, HealthCheckError, HealthCheckServices, ProbeOutcome, ServingStatus,
};
use testing_framework::context::Context;
use testing_framework::harness::{
    enroll_connectors, evaluate_transaction, find_record, generate_user_sample, prepare_sample,
    record_outcome, run_straight_through, straight_through_iteration, IterationError,
};
use testing_framework::grpc_clients::success_rate_client::DynamicRoutingError;
use testing_framework::key::Key;
use testing_framework::metrics::Metrics;
use testing_framework::recorder::RecordError;
use testing_framework::routing::{PaymentConnector, StraightThroughRouting};
use testing_framework::types::{
    Config, ConnectorDetails, MerchantConfig, PaymentMethodConfig, PaymentMethodDetails,
    PaymentMethodTypes, PaymentMethods, PspDetails, PspSimulationConfig, SimulationConfig,
    SimulationError, Status, UserSimulationConfig,
};

fn key(text: &str) -> Key {
    Key(text.to_string())
}

fn use_messages() {
    assert_eq!(
        HealthCheckError::MissingFields("[health_client]".to_string()).message(),
        "Missing fields: [health_client] for building the Health check connection"
    );
    assert_eq!(
        HealthCheckError::ConnectionError("refused".to_string()).message(),
        "Error from gRPC Server : refused"
    );
    assert_eq!(HealthCheckError::InvalidStatus.message(), "Invalid Status from server");
    assert_eq!(
        DynamicRoutingError::MissingRequiredField { field: "min_aggregates_size".to_string() }
            .message(),
        "Missing Required Field : min_aggregates_size for building the Dynamic Routing Request"
    );
    assert_eq!(
        DynamicRoutingError::SuccessRateBasedRoutingFailure("x".to_string()).message(),
        "Error from Dynamic Routing Server while perfrming success_rate analysis : x"
    );
    assert_eq!(
        DynamicRoutingError::ContractBasedRoutingFailure("y".to_string()).message(),
        "Error from Dynamic Routing Server while performing contract based routing: y"
    );
    assert_eq!(
        DynamicRoutingError::EliminationRateRoutingFailure("z".to_string()).message(),
        "Error from Dynamic Routing Server while perfrming elimination : z"
    );
}

fn config(card_share: u8, wallet_share: u8) -> Config {
    let types = SimulationConfig(vec![(
        key("payment_method_type"),
        PaymentMethods(vec![(key("credit"), PaymentMethodDetails::Percentage(100))]),
    )]);
    let user = UserSimulationConfig {
        amount: None,
        currency: None,
        payment_methods: SimulationConfig(vec![(
            key("payment_methods"),
            PaymentMethods(vec![
                (
                    key("card"),
                    PaymentMethodDetails::Composite {
                        percentage: card_share,
                        next: types,
                        extra_fields: None,
                    },
                ),
                (key("wallet"), PaymentMethodDetails::Percentage(wallet_share)),
            ]),
        )]),
        extra_fields: None,
    };
    let connector = |method: &str, sr: u32| PspDetails {
        payment_methods: vec![(key(method), PaymentMethodTypes::Simple { sr })],
        psp_time_config: None,
    };
    let psp = PspSimulationConfig {
        psp_variants: vec![(key("A"), connector("card", 100)), (key("B"), connector("card", 0))],
        otherwise: Some("failure".to_string()),
    };
    let supports = |method: &str, types: &[&str]| ConnectorDetails {
        supported_payment_methods: vec![(
            key(method),
            PaymentMethodConfig {
                payment_method_types: Some(types.iter().map(|t| t.to_string()).collect()),
                supported_behaviours: None,
            },
        )],
    };
    let merchant = MerchantConfig {
        connectors_list: vec![
            (key("A"), supports("card", &["*"])),
            (key("B"), supports("card", &["credit"])),
            (key("C"), supports("card", &["debit"])),
        ],
        extra_fields: None,
    };
    Config { user, psp, merchant }
}

#[test]
fn a_user_sample_carries_params_json_and_connectors() {
    let config = config(100, 0);
    let mut rng = StdRng::seed_from_u64(42);
    let sample = generate_user_sample(&config, &mut rng).unwrap();
    assert_eq!(sample.params, "id:card:credit:USD");
    assert_eq!(sample.connectors, vec![key("A"), key("B")]);
    assert!(sample.payment_data.contains("\"payment_methods\": \"card\""));
    assert!(sample.payment_data.contains("\"payment_method_type\": \"credit\""));
    assert!(sample.payment_data.contains("\"currency\": \"USD\""));
    assert!(sample.payment_data.contains("\"amount\": \""));
}

#[test]
fn a_sample_that_no_connector_takes_has_no_connectors() {
    let config = config(0, 100);
    let mut rng = StdRng::seed_from_u64(42);
    let sample = generate_user_sample(&config, &mut rng).unwrap();
    assert_eq!(sample.params, "id:wallet:USD");
    assert!(sample.connectors.is_empty());
}

#[test]
fn an_invalid_user_configuration_gives_no_sample() {
    let config = config(0, 0);
    let mut rng = StdRng::seed_from_u64(42);
    assert!(matches!(
        generate_user_sample(&config, &mut rng),
        Err(IterationError::Sampling(SimulationError::SamplerExhausted))
    ));
}

#[test]
fn a_sample_without_payment_method_is_incomplete() {
    let mut config = config(100, 0);
    config.user.payment_methods = SimulationConfig(vec![]);
    let mut rng = StdRng::seed_from_u64(42);
    assert!(matches!(
        generate_user_sample(&config, &mut rng),
        Err(IterationError::IncompleteSample)
    ));
}

#[test]
fn find_record_finds_the_first_record_of_a_name() {
    let states = vec![
        PaymentConnector::new("a".to_string(), 1.0f64, 1.0f64),
        PaymentConnector::new("b".to_string(), 1.0f64, 1.0f64),
        PaymentConnector::new("a".to_string(), 1.0f64, 1.0f64),
    ];
    assert_eq!(find_record(&states, &key("a")), Some(0));
    assert_eq!(find_record(&states, &key("b")), Some(1));
    assert_eq!(find_record(&states, &key("c")), None);
}

#[test]
fn new_connectors_are_enrolled_at_the_end() {
    let mut states: Vec<PaymentConnector<f64>> = Vec::new();
    let candidates = enroll_connectors(&mut states, &vec![key("A"), key("B")], 1.0, 1.0);
    assert_eq!(candidates, vec![0, 1]);
    assert_eq!(states.len(), 2);
    states[0].attempts = 4;
    states[0].successes = 3;
    states[0].window = vec![true, true, false, true];
    states[0].alpha = 2.5;
    let candidates = enroll_connectors(&mut states, &vec![key("C"), key("A")], 1.0, 1.0);
    assert_eq!(candidates, vec![2, 0]);
    let names: Vec<&str> = states.iter().map(|s| s.name.as_str()).collect();
    assert_eq!(names, vec!["A", "B", "C"]);
    assert_eq!((states[0].attempts, states[0].successes, states[0].alpha), (4, 3, 2.5));
    assert_eq!(states[0].window, vec![true, true, false, true]);
    assert_eq!((states[2].attempts, states[2].successes), (0, 0));
    assert_eq!((states[2].alpha, states[2].beta), (1.0, 1.0));
    assert!(states[2].window.is_empty());
}

#[test]
fn a_connector_named_twice_is_enrolled_once() {
    let mut states: Vec<PaymentConnector<f64>> = Vec::new();
    let candidates = enroll_connectors(&mut states, &vec![key("A"), key("A")], 1.0, 1.0);
    assert_eq!(candidates, vec![0, 0]);
    assert_eq!(states.len(), 1);
    assert!(enroll_connectors(&mut states, &vec![], 1.0, 1.0).is_empty());
    assert_eq!(states.len(), 1);
}

#[test]
fn an_evaluation_is_reported_as_one_label() {
    let config = config(100, 0);
    let mut rng = StdRng::seed_from_u64(42);
    let mut card = Context::new();
    card.insert(key("payment_methods"), key("card"));
    let (res, labels) = evaluate_transaction(&config.psp, &key("A"), &card, &mut rng);
    assert_eq!(res.unwrap(), Status::Success);
    assert_eq!(labels.len(), 1);
    assert_eq!(labels[0].label, "A");
    assert!(labels[0].status);
    let (res, labels) = evaluate_transaction(&config.psp, &key("B"), &card, &mut rng);
    assert_eq!(res.unwrap(), Status::Failure);
    assert_eq!(labels[0].label, "B");
    assert!(!labels[0].status);
}

#[test]
fn a_failed_evaluation_is_not_recorded() {
    let mut metrics = Metrics::new();
    let result =
        record_outcome(&key("A"), Err(SimulationError::SamplerExhausted), "{}", &mut metrics);
    assert!(matches!(
        result,
        Err(IterationError::Evaluation(SimulationError::SamplerExhausted))
    ));
    assert_eq!(metrics.total_events(), 0);
}

#[test]
fn an_unreadable_sample_is_not_recorded() {
    let mut metrics = Metrics::new();
    let result = record_outcome(&key("A"), Ok(Status::Success), "not json", &mut metrics);
    assert!(matches!(
        result,
        Err(IterationError::Recording(RecordError::MalformedPaymentData))
    ));
    assert_eq!(metrics.total_events(), 0);
}

#[test]
fn a_run_with_the_straight_through_policy() {
    let config = config(100, 0);
    let mut rng = StdRng::seed_from_u64(42);
    let mut metrics = Metrics::new();
    let mut rows = Vec::new();
    for _ in 0..200 {
        let sample = generate_user_sample(&config, &mut rng).unwrap();
        let routing = StraightThroughRouting { connectors: sample.connectors };
        let connector = routing.get_connector(&mut rng);
        let (res, labels) =
            evaluate_transaction(&config.psp, &connector, &sample.context, &mut rng);
        assert_eq!(labels[0].label, connector.0);
        rows.push(record_outcome(&connector, res, &sample.payment_data, &mut metrics).unwrap());
    }
    let a_success = metrics.counted(&key("A"), &key("card"), &key("credit"), Status::Success);
    let b_failure = metrics.counted(&key("B"), &key("card"), &key("credit"), Status::Failure);
    assert_eq!(metrics.counted(&key("A"), &key("card"), &key("credit"), Status::Failure), 0);
    assert_eq!(metrics.counted(&key("B"), &key("card"), &key("credit"), Status::Success), 0);
    assert_eq!(a_success + b_failure, 200);
    assert!(a_success > 50 && b_failure > 50);
    assert_eq!(metrics.total_events(), 200);
    assert_eq!(rows.len(), 200);
    for row in rows {
        assert_eq!(row.len(), 4);
        assert_eq!(row[1], if row[0] == "A" { "Success" } else { "Failure" });
        assert_eq!((row[2].as_str(), row[3].as_str()), ("card", "credit"));
    }
    let report = metrics.report();
    assert_eq!(report.total_transactions, 200);
    assert_eq!(report.total_successes, a_success);
}

#[test]
fn prepare_sample_makes_the_sample_of_a_context() {
    let config = config(100, 0);
    let mut context = Context::new();
    context.insert(key("currency"), key("EUR"));
    context.insert(key("payment_methods"), key("card"));
    context.insert(key("payment_method_type"), key("debit"));
    let sample = prepare_sample(&config, context).unwrap();
    assert_eq!(sample.context.len(), 3);
    assert_eq!(sample.params, "id:card:debit:EUR");
    assert_eq!(sample.connectors, vec![key("A"), key("C")]);
    assert_eq!(
        sample.payment_data,
        "{\n  \"currency\": \"EUR\",\n  \"payment_method_type\": \"debit\",\n  \"payment_methods\": \"card\"\n}"
    );
    let mut incomplete = Context::new();
    incomplete.insert(key("payment_methods"), key("card"));
    assert!(matches!(
        prepare_sample(&config, incomplete),
        Err(IterationError::IncompleteSample)
    ));
}

#[test]
fn an_iteration_without_connector_is_skipped() {
    let config = config(0, 100);
    let mut rng = StdRng::seed_from_u64(42);
    let mut metrics = Metrics::new();
    assert!(straight_through_iteration(&config, &mut metrics, &mut rng).unwrap().is_none());
    assert_eq!(metrics.total_events(), 0);
}

#[test]
fn an_iteration_records_one_row() {
    let config = config(100, 0);
    let mut rng = StdRng::seed_from_u64(42);
    let mut metrics = Metrics::new();
    let row = straight_through_iteration(&config, &mut metrics, &mut rng).unwrap().unwrap();
    assert_eq!(row.len(), 4);
    assert!(row[0] == "A" || row[0] == "B");
    assert_eq!(metrics.total_events(), 1);
}

#[test]
fn a_run_ends_every_iteration_in_one_way() {
    let mut rng = StdRng::seed_from_u64(42);
    let mut metrics = Metrics::new();
    let summary = run_straight_through(&config(50, 50), 300, &mut metrics, &mut rng);
    assert_eq!(summary.rows.len() + summary.skipped + summary.failed, 300);
    assert_eq!(summary.failed, 0);
    assert!(summary.rows.len() > 100 && summary.skipped > 100);
    assert_eq!(metrics.total_events(), summary.rows.len());
    let summary = run_straight_through(&config(0, 0), 10, &mut metrics, &mut rng);
    assert_eq!((summary.rows.len(), summary.skipped, summary.failed), (0, 0, 10));
    let summary = run_straight_through(&config(100, 0), 0, &mut metrics, &mut rng);
    assert_eq!((summary.rows.len(), summary.skipped, summary.failed), (0, 0, 0));
}

#[test]
fn the_errors_read_as_sentences() {
    use_messages();
}

#[test]
fn a_serving_service_lets_the_run_start() {
    let map = perform_health_check(ProbeOutcome::Answered(ServingStatus::Serving)).unwrap();
    assert_eq!(map, vec![(HealthCheckServices::DynamicRoutingService, true)]);
}

#[test]
fn any_other_status_fails_the_probe() {
    for status in
        [ServingStatus::Unknown, ServingStatus::NotServing, ServingStatus::ServiceUnknown]
    {
        assert!(matches!(
            perform_health_check(ProbeOutcome::Answered(status)),
            Err(HealthCheckError::InvalidStatus)
        ));
    }
}

#[test]
fn a_missing_client_fails_the_probe() {
    match perform_health_check(ProbeOutcome::MissingClient) {
        Err(HealthCheckError::MissingFields(what)) => assert_eq!(what, "[health_client]"),
        other => panic!("unexpected outcome: {:?}", other),
    }
}

#[test]
fn a_failed_call_fails_the_probe() {
    match perform_health_check(ProbeOutcome::CallFailed) {
        Err(HealthCheckError::ConnectionError(what)) => {
            assert_eq!(what, "Failed to call dynamic routing service")
        }
        other => panic!("unexpected outcome: {:?}", other),
    }
}

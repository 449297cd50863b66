use testing_framework::context::Context;
use testing_framework::grpc_clients::success_rate_client::{
    calculate_success_rate, convert_to_label_with_status, flatten_payment_info, foreign_try_from,
    foreign_try_from_2, get_highest_score_connector, get_required_value, invalidate_redis_keys,
    update_success_rate, CurrentBlockThreshold, DynamicRoutingError, LabelWithScore,
    LabelWithStatus, ProtoBlockThreshold, ProtoSpecificityLevel, SuccessBasedRoutingConfig,
    SuccessRateSpecificityLevel, UpdateSuccessRateWindowConfig,
};
use testing_framework::grpc_clients::{
    create_grpc_request, AddHeaders, GrpcHeaders, GrpcRequest, TENANT_HEADER, X_REQUEST_ID,
};
use testing_framework::key::Key;
use testing_framework::types::{SimulationError, Status};

fn key(text: &str) -> Key {
    Key(text.to_string())
}

fn full_config() -> SuccessBasedRoutingConfig<f64> {
    SuccessBasedRoutingConfig {
        min_aggregates_size: Some(2),
        default_success_rate: Some(100.0),
        max_aggregates_size: Some(3),
        current_block_threshold: Some(CurrentBlockThreshold {
            duration_in_mins: Some(5),
            max_total_count: Some(2),
        }),
        specificity_level: SuccessRateSpecificityLevel::Merchant,
    }
}

fn headers() -> GrpcHeaders {
    GrpcHeaders { tenant_id: "tenant_id".to_string(), request_id: Some("request_id".to_string()) }
}

fn missing_field<T: std::fmt::Debug>(result: Result<T, DynamicRoutingError>) -> String {
    match result {
        Err(DynamicRoutingError::MissingRequiredField { field }) => field,
        other => panic!("unexpected outcome: {:?}", other),
    }
}

fn pairs(entries: &[(&str, &str)]) -> Vec<(String, String)> {
    entries.iter().map(|(n, v)| (n.to_string(), v.to_string())).collect()
}

#[test]
fn get_required_value_hands_out_the_value_or_names_the_field() {
    assert_eq!(get_required_value(Some(7u32), "size").unwrap(), 7);
    assert_eq!(missing_field(get_required_value::<u32>(None, "size")), "size");
}

#[test]
fn the_calculate_config_takes_over_the_numbers() {
    let wire = foreign_try_from(full_config()).unwrap();
    assert_eq!(wire.min_aggregates_size, 2);
    assert_eq!(wire.default_success_rate, 100.0);
    assert_eq!(wire.specificity_level, Some(ProtoSpecificityLevel::Entity));
}

#[test]
fn the_global_level_stays_global() {
    let mut config = full_config();
    config.specificity_level = SuccessRateSpecificityLevel::Global;
    let wire = foreign_try_from(config).unwrap();
    assert_eq!(wire.specificity_level, Some(ProtoSpecificityLevel::Global));
}

#[test]
fn the_default_level_is_the_merchant_level() {
    assert_eq!(SuccessRateSpecificityLevel::default(), SuccessRateSpecificityLevel::Merchant);
}

#[test]
fn sr_client_missing_field() {
    let mut config = full_config();
    config.min_aggregates_size = None;
    let result = calculate_success_rate(
        "id".to_string(),
        config,
        "id:card:credit:USD".to_string(),
        vec![key("stripe")],
        headers(),
    );
    assert_eq!(missing_field(result), "min_aggregates_size");
}

#[test]
fn the_calculate_config_needs_the_default_success_rate() {
    let mut config = full_config();
    config.default_success_rate = None;
    assert_eq!(missing_field(foreign_try_from(config)), "default_success_rate");
}

#[test]
fn the_first_missing_field_is_named() {
    let mut config = full_config();
    config.min_aggregates_size = None;
    config.default_success_rate = None;
    assert_eq!(missing_field(foreign_try_from(config)), "min_aggregates_size");
}

#[test]
fn the_calculate_config_does_not_need_the_update_fields() {
    let mut config = full_config();
    config.max_aggregates_size = None;
    config.current_block_threshold = None;
    assert!(foreign_try_from(config).is_ok());
}

#[test]
fn the_update_config_takes_over_the_threshold() {
    let wire = foreign_try_from_2(full_config()).unwrap();
    assert_eq!(
        wire,
        UpdateSuccessRateWindowConfig {
            max_aggregates_size: 3,
            current_block_threshold: Some(ProtoBlockThreshold {
                duration_in_mins: Some(5),
                max_total_count: 2,
            }),
        }
    );
}

#[test]
fn the_update_config_may_lack_the_threshold_and_its_duration() {
    let mut config = full_config();
    config.current_block_threshold = None;
    assert_eq!(
        foreign_try_from_2(config).unwrap(),
        UpdateSuccessRateWindowConfig { max_aggregates_size: 3, current_block_threshold: None }
    );
    let mut config = full_config();
    config.current_block_threshold =
        Some(CurrentBlockThreshold { duration_in_mins: None, max_total_count: Some(9) });
    assert_eq!(
        foreign_try_from_2(config).unwrap().current_block_threshold,
        Some(ProtoBlockThreshold { duration_in_mins: None, max_total_count: 9 })
    );
}

#[test]
fn the_update_config_needs_the_greatest_number_of_aggregates() {
    let mut config = full_config();
    config.max_aggregates_size = None;
    assert_eq!(missing_field(foreign_try_from_2(config)), "max_aggregates_size");
}

#[test]
fn a_threshold_needs_its_count() {
    let mut config = full_config();
    config.current_block_threshold =
        Some(CurrentBlockThreshold { duration_in_mins: Some(5), max_total_count: None });
    assert_eq!(missing_field(foreign_try_from_2(config)), "max_total_count");
}

#[test]
fn the_update_config_does_not_need_the_calculate_fields() {
    let mut config = full_config();
    config.min_aggregates_size = None;
    config.default_success_rate = None;
    assert!(foreign_try_from_2(config).is_ok());
}

#[test]
fn the_calculate_request_carries_labels_config_and_headers() {
    let request = calculate_success_rate(
        "id".to_string(),
        full_config(),
        "id:card:credit:USD".to_string(),
        vec![key("stripe"), key("adyen")],
        headers(),
    )
    .unwrap();
    assert_eq!(request.message.id, "id");
    assert_eq!(request.message.params, "id:card:credit:USD");
    assert_eq!(request.message.labels, vec!["stripe", "adyen"]);
    let config = request.message.config.unwrap();
    assert_eq!(config.min_aggregates_size, 2);
    assert_eq!(config.default_success_rate, 100.0);
    assert_eq!(config.specificity_level, Some(ProtoSpecificityLevel::Entity));
    assert_eq!(
        request.metadata,
        pairs(&[("x-tenant-id", "tenant_id"), ("x-request-id", "request_id")])
    );
}

#[test]
fn the_update_request_carries_the_outcomes_twice() {
    let labels = vec![LabelWithStatus { label: "stripe".to_string(), status: true }];
    let request = update_success_rate(
        "id".to_string(),
        full_config(),
        "id:card:USD".to_string(),
        labels,
        headers(),
    )
    .unwrap();
    assert_eq!(request.message.id, "id");
    assert_eq!(request.message.params, "id:card:USD");
    for list in [&request.message.labels_with_status, &request.message.global_labels_with_status] {
        assert_eq!(list.len(), 1);
        assert_eq!(list[0].label, "stripe");
        assert!(list[0].status);
    }
    assert_eq!(request.message.config.unwrap().max_aggregates_size, 3);
    assert_eq!(request.metadata.len(), 2);
}

#[test]
fn the_update_request_fails_before_it_is_made() {
    let mut config = full_config();
    config.max_aggregates_size = None;
    let result =
        update_success_rate("id".to_string(), config, "p".to_string(), vec![], headers());
    assert_eq!(missing_field(result), "max_aggregates_size");
}

#[test]
fn the_invalidate_request_carries_the_id() {
    let request = invalidate_redis_keys("merchant_1".to_string(), headers());
    assert_eq!(request.message.id, "merchant_1");
    assert_eq!(
        request.metadata,
        pairs(&[("x-tenant-id", "tenant_id"), ("x-request-id", "request_id")])
    );
}

#[test]
fn the_header_names_are_fixed() {
    assert_eq!(TENANT_HEADER, "x-tenant-id");
    assert_eq!(X_REQUEST_ID, "x-request-id");
}

#[test]
fn the_request_id_is_optional() {
    let request = create_grpc_request(
        1u8,
        GrpcHeaders { tenant_id: "t".to_string(), request_id: None },
    );
    assert_eq!(request.message, 1);
    assert_eq!(request.metadata, pairs(&[("x-tenant-id", "t")]));
}

#[test]
fn a_header_value_with_a_control_character_is_dropped() {
    let request = create_grpc_request(
        (),
        GrpcHeaders { tenant_id: "line\nbreak".to_string(), request_id: Some("ok".to_string()) },
    );
    assert_eq!(request.metadata, pairs(&[("x-request-id", "ok")]));
    let request = create_grpc_request(
        (),
        GrpcHeaders { tenant_id: "ok".to_string(), request_id: Some("del\u{7f}".to_string()) },
    );
    assert_eq!(request.metadata, pairs(&[("x-tenant-id", "ok")]));
    let request = create_grpc_request(
        (),
        GrpcHeaders { tenant_id: "\u{0}".to_string(), request_id: Some("\r".to_string()) },
    );
    assert!(request.metadata.is_empty());
}

#[test]
fn a_header_value_may_hold_tabs_spaces_and_other_scripts() {
    let request = create_grpc_request(
        (),
        GrpcHeaders {
            tenant_id: "a\tb c~".to_string(),
            request_id: Some("h\u{e9}llo \u{4e16}\u{754c}".to_string()),
        },
    );
    assert_eq!(
        request.metadata,
        pairs(&[("x-tenant-id", "a\tb c~"), ("x-request-id", "h\u{e9}llo \u{4e16}\u{754c}")])
    );
    let request =
        create_grpc_request((), GrpcHeaders { tenant_id: String::new(), request_id: None });
    assert_eq!(request.metadata, pairs(&[("x-tenant-id", "")]));
}

#[test]
fn headers_are_added_behind_those_that_are_there() {
    let mut request =
        GrpcRequest { message: "m".to_string(), metadata: pairs(&[("x-trace", "1")]) };
    request.add_headers_to_grpc_request(headers());
    assert_eq!(request.message, "m");
    assert_eq!(
        request.metadata,
        pairs(&[("x-trace", "1"), ("x-tenant-id", "tenant_id"), ("x-request-id", "request_id")])
    );
}

#[test]
fn the_outcome_goes_out_as_one_label() {
    let success = convert_to_label_with_status("stripe".to_string(), &Ok(Status::Success));
    assert_eq!(success.len(), 1);
    assert_eq!(success[0].label, "stripe");
    assert!(success[0].status);
    let failure = convert_to_label_with_status("stripe".to_string(), &Ok(Status::Failure));
    assert!(!failure[0].status);
    let error =
        convert_to_label_with_status("adyen".to_string(), &Err(SimulationError::SamplerExhausted));
    assert_eq!(error.len(), 1);
    assert_eq!(error[0].label, "adyen");
    assert!(!error[0].status);
}

fn scored(entries: &[(&str, Option<u64>)]) -> Vec<LabelWithScore> {
    entries.iter().map(|(l, s)| LabelWithScore { label: l.to_string(), score: *s }).collect()
}

#[test]
fn the_highest_score_wins() {
    let labels = scored(&[("a", Some(10)), ("b", Some(30)), ("c", Some(20))]);
    assert_eq!(get_highest_score_connector(labels).unwrap(), "b");
}

#[test]
fn the_first_of_equal_scores_wins() {
    let labels = scored(&[("a", Some(30)), ("b", Some(30)), ("c", Some(30))]);
    assert_eq!(get_highest_score_connector(labels).unwrap(), "a");
    let labels = scored(&[("a", Some(1)), ("b", Some(30)), ("c", Some(30))]);
    assert_eq!(get_highest_score_connector(labels).unwrap(), "b");
}

#[test]
fn a_score_that_is_not_a_number_counts_as_equal() {
    let labels = scored(&[("a", None), ("b", Some(30))]);
    assert_eq!(get_highest_score_connector(labels).unwrap(), "a");
    let labels = scored(&[("a", Some(5)), ("b", None), ("c", Some(6))]);
    assert_eq!(get_highest_score_connector(labels).unwrap(), "c");
}

#[test]
fn there_is_no_highest_score_in_an_empty_list() {
    assert_eq!(get_highest_score_connector(vec![]), None);
}

fn context(entries: &[(&str, &str)]) -> Context {
    let mut context = Context::new();
    for (name, value) in entries {
        context.insert(key(name), key(value));
    }
    context
}

#[test]
fn the_params_name_method_type_and_currency() {
    let sample = context(&[
        ("amount", "12"),
        ("currency", "USD"),
        ("payment_methods", "card"),
        ("payment_method_type", "credit"),
    ]);
    assert_eq!(flatten_payment_info(&sample).unwrap(), "id:card:credit:USD");
}

#[test]
fn the_params_leave_out_a_missing_type() {
    let sample = context(&[("currency", "EUR"), ("payment_methods", "wallet")]);
    assert_eq!(flatten_payment_info(&sample).unwrap(), "id:wallet:EUR");
}

#[test]
fn there_are_no_params_without_method_or_currency() {
    assert_eq!(flatten_payment_info(&context(&[("currency", "EUR")])), None);
    assert_eq!(flatten_payment_info(&context(&[("payment_methods", "card")])), None);
    assert_eq!(flatten_payment_info(&Context::new()), None);
}

#[test]
fn empty_values_still_give_params() {
    let sample = context(&[("currency", ""), ("payment_methods", ""), ("payment_method_type", "")]);
    assert_eq!(flatten_payment_info(&sample).unwrap(), "id:::");
}

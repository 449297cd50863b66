use rand::SeedableRng;
use testing_framework::evaluator::Evaluator;
use testing_framework::key::Key;
use testing_framework::metrics::{success_rate, Metrics, RateLine};
use testing_framework::types::{PaymentMethodTypes, PspDetails, PspSimulationConfig};
use testing_framework::recorder::{
    record_fields, sample_to_json, verdict_text, RecordError, Recorder,
};
use testing_framework::context::Context;
use testing_framework::types::{PaymentRecorderData, Status};

fn key(text: &str) -> Key {
    Key(text.to_string())
}

fn line(l: &RateLine) -> (String, Option<String>, Option<String>, usize, usize) {
    (
        l.connector.clone(),
        l.payment_method.clone(),
        l.payment_method_type.clone(),
        l.successes,
        l.total,
    )
}

fn some(text: &str) -> Option<String> {
    Some(text.to_string())
}

fn record(metrics: &mut Metrics, connector: &str, method: &str, kind: &str, verdict: Status) {
    assert!(metrics.record(&key(connector), &key(method), &key(kind), verdict));
}

#[test]
fn new_metrics_count_nothing() {
    let metrics = Metrics::new();
    assert_eq!(metrics.total_events(), 0);
    assert_eq!(metrics.counted(&key("A"), &key("card"), &key("credit"), Status::Success), 0);
    let report = metrics.report();
    assert!(report.rates.is_empty());
    assert!(report.shares.is_empty());
    assert_eq!(report.total_transactions, 0);
    assert_eq!(report.total_successes, 0);
}

#[test]
fn record_counts_in_one_cell_only() {
    let mut metrics = Metrics::new();
    record(&mut metrics, "A", "card", "credit", Status::Success);
    record(&mut metrics, "A", "card", "credit", Status::Success);
    record(&mut metrics, "A", "card", "credit", Status::Failure);
    record(&mut metrics, "A", "card", "debit", Status::Failure);
    record(&mut metrics, "B", "card", "credit", Status::Success);
    assert_eq!(metrics.counted(&key("A"), &key("card"), &key("credit"), Status::Success), 2);
    assert_eq!(metrics.counted(&key("A"), &key("card"), &key("credit"), Status::Failure), 1);
    assert_eq!(metrics.counted(&key("A"), &key("card"), &key("debit"), Status::Success), 0);
    assert_eq!(metrics.counted(&key("A"), &key("card"), &key("debit"), Status::Failure), 1);
    assert_eq!(metrics.counted(&key("B"), &key("card"), &key("credit"), Status::Success), 1);
    assert_eq!(metrics.counted(&key("B"), &key("card"), &key("debit"), Status::Failure), 0);
    assert_eq!(metrics.counted(&key("C"), &key("card"), &key("credit"), Status::Success), 0);
    assert_eq!(metrics.counted(&key("A"), &key("wallet"), &key("credit"), Status::Success), 0);
    assert_eq!(metrics.total_events(), 5);
}

#[test]
fn the_outcomes_of_a_cell_are_the_events_that_fell_into_it() {
    let events = [
        ("A", "card", "credit", Status::Success),
        ("B", "card", "credit", Status::Failure),
        ("A", "card", "credit", Status::Failure),
        ("A", "wallet", "N/A", Status::Success),
        ("A", "card", "credit", Status::Success),
        ("B", "card", "debit", Status::Success),
    ];
    let mut metrics = Metrics::new();
    for (connector, method, kind, verdict) in events {
        record(&mut metrics, connector, method, kind, verdict);
    }
    for (connector, method, kind) in
        [("A", "card", "credit"), ("B", "card", "credit"), ("A", "wallet", "N/A"), ("B", "upi", "x")]
    {
        let landed = events
            .iter()
            .filter(|e| e.0 == connector && e.1 == method && e.2 == kind)
            .count();
        let counted = metrics.counted(&key(connector), &key(method), &key(kind), Status::Success)
            + metrics.counted(&key(connector), &key(method), &key(kind), Status::Failure);
        assert_eq!(counted, landed);
    }
}

#[test]
fn the_report_lists_connectors_methods_and_types_in_order() {
    let mut metrics = Metrics::new();
    record(&mut metrics, "A", "card", "credit", Status::Success);
    record(&mut metrics, "A", "card", "debit", Status::Failure);
    record(&mut metrics, "B", "wallet", "N/A", Status::Success);
    record(&mut metrics, "A", "wallet", "N/A", Status::Failure);
    record(&mut metrics, "A", "card", "credit", Status::Success);
    let report = metrics.report();
    let lines: Vec<_> = report.rates.iter().map(line).collect();
    assert_eq!(
        lines,
        vec![
            ("A".to_string(), None, None, 2, 4),
            ("A".to_string(), some("card"), None, 2, 3),
            ("A".to_string(), some("card"), some("credit"), 2, 2),
            ("A".to_string(), some("card"), some("debit"), 0, 1),
            ("A".to_string(), some("wallet"), None, 0, 1),
            ("A".to_string(), some("wallet"), some("N/A"), 0, 1),
            ("B".to_string(), None, None, 1, 1),
            ("B".to_string(), some("wallet"), None, 1, 1),
            ("B".to_string(), some("wallet"), some("N/A"), 1, 1),
        ]
    );
    let shares: Vec<_> =
        report.shares.iter().map(|s| (s.connector.clone(), s.transactions)).collect();
    assert_eq!(shares, vec![("A".to_string(), 4), ("B".to_string(), 1)]);
    assert_eq!(report.total_transactions, 5);
    assert_eq!(report.total_successes, 3);
}

#[test]
fn what_is_counted_first_is_reported_first() {
    let mut metrics = Metrics::new();
    record(&mut metrics, "B", "wallet", "N/A", Status::Success);
    record(&mut metrics, "A", "card", "debit", Status::Success);
    record(&mut metrics, "B", "card", "credit", Status::Failure);
    record(&mut metrics, "A", "card", "credit", Status::Failure);
    record(&mut metrics, "B", "wallet", "N/A", Status::Failure);
    let report = metrics.report();
    let names: Vec<_> = report
        .rates
        .iter()
        .map(|l| {
            (
                l.connector.as_str(),
                l.payment_method.as_deref().unwrap_or("-"),
                l.payment_method_type.as_deref().unwrap_or("-"),
            )
        })
        .collect();
    assert_eq!(
        names,
        vec![
            ("B", "-", "-"),
            ("B", "wallet", "-"),
            ("B", "wallet", "N/A"),
            ("B", "card", "-"),
            ("B", "card", "credit"),
            ("A", "-", "-"),
            ("A", "card", "-"),
            ("A", "card", "debit"),
            ("A", "card", "credit"),
        ]
    );
}

#[test]
fn success_rate_is_in_hundredths_of_a_percent() {
    assert_eq!(success_rate(1, 3), Some(3333));
    assert_eq!(success_rate(2, 3), Some(6666));
    assert_eq!(success_rate(1, 2), Some(5000));
    assert_eq!(success_rate(0, 5), Some(0));
    assert_eq!(success_rate(5, 5), Some(10000));
    assert_eq!(success_rate(usize::MAX, usize::MAX), Some(10000));
    assert_eq!(success_rate(usize::MAX - 1, usize::MAX), Some(9999));
}

#[test]
fn there_is_no_rate_of_nothing() {
    assert_eq!(success_rate(0, 0), None);
}

#[test]
fn verdict_text_writes_the_outcome() {
    assert_eq!(verdict_text(Status::Success), "Success");
    assert_eq!(verdict_text(Status::Failure), "Failure");
}

#[test]
fn record_transaction_writes_the_row_and_counts() {
    let data = PaymentRecorderData::set_values(
        key("stripe"),
        Status::Success,
        key("{\"amount\":\"12\",\"payment_methods\":\"card\",\"payment_method_type\":\"credit\"}"),
    );
    let mut metrics = Metrics::new();
    let row = data.record_transaction(&mut metrics).unwrap();
    assert_eq!(row, vec!["stripe", "Success", "card", "credit"]);
    assert_eq!(metrics.counted(&key("stripe"), &key("card"), &key("credit"), Status::Success), 1);
    assert_eq!(metrics.total_events(), 1);
}

#[test]
fn missing_fields_are_empty_columns_and_counted_as_not_available() {
    let data =
        PaymentRecorderData::set_values(key("stripe"), Status::Failure, key("{\"amount\":\"12\"}"));
    let mut metrics = Metrics::new();
    let row = data.record_transaction(&mut metrics).unwrap();
    assert_eq!(row, vec!["stripe", "Failure", "", ""]);
    assert_eq!(metrics.counted(&key("stripe"), &key("N/A"), &key("N/A"), Status::Failure), 1);
}

#[test]
fn an_empty_field_is_counted_as_not_available() {
    let data = PaymentRecorderData::set_values(
        key("stripe"),
        Status::Failure,
        key("{\"payment_methods\":\"\",\"payment_method_type\":\"credit\"}"),
    );
    let mut metrics = Metrics::new();
    let row = data.record_transaction(&mut metrics).unwrap();
    assert_eq!(row, vec!["stripe", "Failure", "", "credit"]);
    assert_eq!(metrics.counted(&key("stripe"), &key("N/A"), &key("credit"), Status::Failure), 1);
}

#[test]
fn malformed_payment_data_is_rejected() {
    let mut metrics = Metrics::new();
    for text in ["", "card", "[1, 2]", "{\"amount\": 12}", "{\"a\":\"b\"} trailing"] {
        let data = PaymentRecorderData::set_values(key("stripe"), Status::Success, key(text));
        assert_eq!(
            data.record_transaction(&mut metrics).unwrap_err(),
            RecordError::MalformedPaymentData
        );
    }
    assert_eq!(metrics.total_events(), 0);
    assert!(metrics.report().rates.is_empty());
}

#[test]
fn record_fields_takes_the_fields_as_they_are_given() {
    let data = PaymentRecorderData::set_values(key("adyen"), Status::Success, key("unused"));
    let mut fields = Context::new();
    fields.insert(key("payment_methods"), key("wallet"));
    fields.insert(key("currency"), key("USD"));
    let mut metrics = Metrics::new();
    let row = record_fields(&data, &fields, &mut metrics).unwrap();
    assert_eq!(row, vec!["adyen", "Success", "wallet", ""]);
    assert_eq!(metrics.counted(&key("adyen"), &key("wallet"), &key("N/A"), Status::Success), 1);
}

#[test]
fn a_field_named_twice_in_the_payment_data_counts_with_its_last_value() {
    let data = PaymentRecorderData::set_values(
        key("adyen"),
        Status::Success,
        key("{\"payment_methods\":\"wallet\",\"payment_methods\":\"card\"}"),
    );
    let mut metrics = Metrics::new();
    let row = data.record_transaction(&mut metrics).unwrap();
    assert_eq!(row, vec!["adyen", "Success", "card", ""]);
}

#[test]
fn a_sample_is_written_and_read_back() {
    let mut sample = Context::new();
    sample.insert(key("payment_methods"), key("card"));
    sample.insert(key("amount"), key("17"));
    sample.insert(key("payment_method_type"), key("cre\"dit"));
    let text = sample_to_json(&sample).unwrap();
    assert_eq!(
        text,
        "{\n  \"amount\": \"17\",\n  \"payment_method_type\": \"cre\\\"dit\",\n  \"payment_methods\": \"card\"\n}"
    );
    let data = PaymentRecorderData::set_values(key("A"), Status::Success, Key(text));
    let mut metrics = Metrics::new();
    let row = data.record_transaction(&mut metrics).unwrap();
    assert_eq!(row, vec!["A", "Success", "card", "cre\"dit"]);
}

#[test]
fn an_empty_sample_is_an_empty_object() {
    assert_eq!(sample_to_json(&Context::new()).unwrap(), "{}");
}

#[test]
fn guaranteed_success_connector() {
    let psp = PspSimulationConfig {
        psp_variants: vec![(
            key("A"),
            PspDetails {
                payment_methods: vec![(key("card"), PaymentMethodTypes::Simple { sr: 100 })],
                psp_time_config: None,
            },
        )],
        otherwise: Some("failure".to_string()),
    };
    let mut sample = Context::new();
    sample.insert(key("payment_methods"), key("card"));
    sample.insert(key("payment_method_type"), key("credit"));
    let text = sample_to_json(&sample).unwrap();
    let mut rng = rand::rngs::StdRng::seed_from_u64(42);
    let mut metrics = Metrics::new();
    for _ in 0..100 {
        let verdict = psp.call_evaluator(&key("A"), &text, &mut rng).unwrap();
        let data = PaymentRecorderData::set_values(key("A"), verdict, Key(text.clone()));
        data.record_transaction(&mut metrics).unwrap();
    }
    assert_eq!(metrics.counted(&key("A"), &key("card"), &key("credit"), Status::Success), 100);
    assert_eq!(metrics.counted(&key("A"), &key("card"), &key("credit"), Status::Failure), 0);
    let report = metrics.report();
    assert_eq!(report.total_transactions, 100);
    assert_eq!(report.total_successes, 100);
    assert!(report.rates.iter().all(|l| l.successes == l.total));
    assert_eq!(success_rate(report.rates[0].successes, report.rates[0].total), Some(10000));
}

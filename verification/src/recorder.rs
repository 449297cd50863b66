//! The recorder: it turns an evaluated transaction into one row of the event
//! log and counts it in the metrics tree.

use crate::context::Context;
use crate::json::{
    json_object_text, json_text_fields, optional_text, read_json_fields, write_json_object,
};
use crate::key::Key;
use crate::metrics::{counted_once, Metrics};
use crate::types::{PaymentRecorderData, Status};
use vstd::prelude::*;
use vstd::string::StringExecFns;

verus! {

/// Why a transaction was not recorded.
#[derive(Debug, Clone, Copy, PartialEq, Eq, Structural)]
pub enum RecordError {
    /// The payment data is not a JSON object of strings.
    MalformedPaymentData,
    /// The counters cannot count any further.
    CountersFull,
}

/// The JSON text of a context, as it is handed to the evaluator and the
/// recorder. The entries are written in the order of their keys.
pub fn sample_to_json(sample: &Context) -> (r: Option<String>)
    ensures
        optional_text(r) == json_object_text(sample@),
{
    write_json_object(sample)
}

/// The word that the event log writes for an outcome.
pub open spec fn verdict_word(verdict: Status) -> Seq<char> {
    match verdict {
        Status::Success => "Success"@,
        Status::Failure => "Failure"@,
    }
}

/// The value of the field `name`, if the payment data has it.
pub open spec fn field(fields: Map<Seq<char>, Seq<char>>, name: Seq<char>) -> Option<Seq<char>> {
    if fields.contains_key(name) {
        Some(fields[name])
    } else {
        None
    }
}

/// The column that the event log holds for a field: its value, or nothing
/// where the field is missing.
pub open spec fn column(value: Option<Seq<char>>) -> Seq<char> {
    match value {
        Some(text) => text,
        None => Seq::empty(),
    }
}

/// The name under which the metrics count a field: its value, or `N/A`
/// where the field is missing or empty.
pub open spec fn metric_name(value: Option<Seq<char>>) -> Seq<char> {
    if column(value).len() == 0 {
        "N/A"@
    } else {
        column(value)
    }
}

/// The row of the event log for one transaction: the connector, the
/// outcome, the payment method and the payment method type.
pub open spec fn event_row(
    connector: Seq<char>,
    verdict: Status,
    fields: Map<Seq<char>, Seq<char>>,
) -> Seq<Seq<char>> {
    seq![
        connector,
        verdict_word(verdict),
        column(field(fields, "payment_methods"@)),
        column(field(fields, "payment_method_type"@)),
    ]
}

/// The characters of each text of a list.
pub open spec fn texts(row: Seq<String>) -> Seq<Seq<char>> {
    row.map_values(|text: String| text@)
}

/// The value of the field `name`, or the empty text where it is missing.
fn column_of(fields: &Context, name: &str) -> (r: String)
    ensures
        r@ == column(field(fields@, name@)),
{
    match fields.get(&Key::new(name)) {
        Some(value) => value.0.clone(),
        None => String::new(),
    }
}

/// The name under which the metrics count a column.
fn metric_key(column: &String) -> (r: Key)
    ensures
        r@ == if column@.len() == 0 {
            "N/A"@
        } else {
            column@
        },
{
    let empty = String::new();
    if *column == empty {
        assert(column@ =~= Seq::<char>::empty());
        Key::new("N/A")
    } else {
        assert(column@.len() != 0) by {
            if column@.len() == 0 {
                assert(column@ =~= Seq::<char>::empty());
            }
        }
        Key(column.clone())
    }
}

/// The word that the event log writes for `verdict`.
pub fn verdict_text(verdict: Status) -> (r: String)
    ensures
        r@ == verdict_word(verdict),
{
    match verdict {
        Status::Success => String::from_str("Success"),
        Status::Failure => String::from_str("Failure"),
    }
}

/// `after` counts what `before` counted and the transaction of `connector`
/// with the outcome `verdict` and the payment data `fields`, and `row` is
/// the transaction's row for the event log.
pub open spec fn recorded(
    before: Metrics,
    after: Metrics,
    row: Seq<String>,
    connector: Seq<char>,
    verdict: Status,
    fields: Map<Seq<char>, Seq<char>>,
) -> bool {
    &&& texts(row) == event_row(connector, verdict, fields)
    &&& counted_once(
        before,
        after,
        connector,
        metric_name(field(fields, "payment_methods"@)),
        metric_name(field(fields, "payment_method_type"@)),
        verdict,
    )
}

/// `after` counts what `before` counted and nothing else.
pub open spec fn untouched(before: Metrics, after: Metrics) -> bool {
    after == before
}

/// Records the transaction `data`, whose payment data reads as `fields`:
/// counts it in `metrics` and returns its row for the event log.
///
/// Nothing is recorded where the counters are full.
pub fn record_fields(data: &PaymentRecorderData, fields: &Context, metrics: &mut Metrics) -> (r:
    Result<Vec<String>, RecordError>)
    ensures
        match r {
            Ok(row) => old(metrics).events() < usize::MAX && recorded(
                *old(metrics),
                *final(metrics),
                row@,
                data.connector@,
                data.verdict,
                fields@,
            ),
            Err(error) => error == RecordError::CountersFull && old(metrics).events()
                >= usize::MAX && untouched(*old(metrics), *final(metrics)),
        },
{
    let method = column_of(fields, "payment_methods");
    let kind = column_of(fields, "payment_method_type");
    let method_key = metric_key(&method);
    let kind_key = metric_key(&kind);
    if !metrics.record(&data.connector, &method_key, &kind_key, data.verdict) {
        return Err(RecordError::CountersFull);
    }
    let mut row: Vec<String> = Vec::new();
    row.push(data.connector.0.clone());
    row.push(verdict_text(data.verdict));
    row.push(method);
    row.push(kind);
    assert(texts(row@) =~= event_row(data.connector@, data.verdict, fields@));
    Ok(row)
}

/// The transaction of `connector` with the outcome `verdict` and the
/// payment data `payment_data` is recorded as `outcome` says: with its row
/// where the data reads as a JSON object of strings and the counters have
/// room, and not at all where either fails.
pub open spec fn recorded_or_rejected(
    before: Metrics,
    after: Metrics,
    outcome: Result<Vec<String>, RecordError>,
    connector: Seq<char>,
    verdict: Status,
    payment_data: Seq<char>,
) -> bool {
    match outcome {
        Ok(row) => {
            &&& before.events() < usize::MAX
            &&& json_text_fields(payment_data) matches Some(fields)
            &&& recorded(before, after, row@, connector, verdict, fields)
        },
        Err(RecordError::MalformedPaymentData) => json_text_fields(payment_data) is None
            && untouched(before, after),
        Err(RecordError::CountersFull) => json_text_fields(payment_data) is Some
            && before.events() >= usize::MAX && untouched(before, after),
    }
}

/// Something that can be written to the event log and counted.
pub trait Recorder {
    /// Counts the transaction in `metrics` and returns its row for the event
    /// log.
    fn record_transaction(&self, metrics: &mut Metrics) -> Result<Vec<String>, RecordError>;
}

impl Recorder for PaymentRecorderData {
    /// Reads the payment data as a JSON object of strings, then records the
    /// transaction as `record_fields` does.
    ///
    /// Payment data that does not read so is rejected and nothing is
    /// recorded.
    fn record_transaction(&self, metrics: &mut Metrics) -> (r: Result<Vec<String>, RecordError>)
        ensures
            recorded_or_rejected(
                *old(metrics),
                *final(metrics),
                r,
                self.connector@,
                self.verdict,
                self.payment_data@,
            ),
    {
        match read_json_fields(self.payment_data.0.as_str()) {
            Some(fields) => record_fields(self, &fields, metrics),
            None => Err(RecordError::MalformedPaymentData),
        }
    }
}

} // verus!

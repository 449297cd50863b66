//! The client side of the success-rate service: the routing configuration
//! and the two configurations made of it that go over the wire, the
//! requests, and the choice among the scores that come back.
//!
//! The success rate that a configuration names is a real number that is
//! only passed on; its type `R` is left open. A score reaches this module as
//! a rank (see `routing`).

use crate::context::Context;
use crate::grpc_clients::{create_grpc_request, outgoing_headers, header_texts, GrpcHeaders, GrpcRequest};
use crate::key::Key;
use crate::routing::{best_ranked, leader};
use crate::types::{key_texts, SimulationError, Status};
use vstd::prelude::*;
use vstd::string::StringExecFns;

verus! {

/// Dynamic Routing Errors
#[derive(Debug)]
pub enum DynamicRoutingError {
    /// The required input is missing
    MissingRequiredField {
        /// The required field name
        field: String,
    },
    /// Error from Dynamic Routing Server while performing success_rate analysis
    SuccessRateBasedRoutingFailure(String),
    /// Error from Dynamic Routing Server while performing contract based routing
    ContractBasedRoutingFailure(String),
    /// Error from Dynamic Routing Server while performing elimination
    EliminationRateRoutingFailure(String),
}

impl DynamicRoutingError {
    /// What the error reads as.
    pub open spec fn text(self) -> Seq<char> {
        match self {
            DynamicRoutingError::MissingRequiredField { field } => "Missing Required Field : "@
                + field@ + " for building the Dynamic Routing Request"@,
            DynamicRoutingError::SuccessRateBasedRoutingFailure(detail) =>
                "Error from Dynamic Routing Server while perfrming success_rate analysis : "@
                + detail@,
            DynamicRoutingError::ContractBasedRoutingFailure(detail) =>
                "Error from Dynamic Routing Server while performing contract based routing: "@
                + detail@,
            DynamicRoutingError::EliminationRateRoutingFailure(detail) =>
                "Error from Dynamic Routing Server while perfrming elimination : "@ + detail@,
        }
    }

    /// The error in words.
    pub fn message(&self) -> (r: String)
        ensures
            r@ == self.text(),
    {
        match self {
            DynamicRoutingError::MissingRequiredField { field } => {
                let mut text = String::from_str("Missing Required Field : ");
                text.append(field.as_str());
                text.append(" for building the Dynamic Routing Request");
                text
            },
            DynamicRoutingError::SuccessRateBasedRoutingFailure(detail) => {
                let mut text = String::from_str(
                    "Error from Dynamic Routing Server while perfrming success_rate analysis : ",
                );
                text.append(detail.as_str());
                text
            },
            DynamicRoutingError::ContractBasedRoutingFailure(detail) => {
                let mut text = String::from_str(
                    "Error from Dynamic Routing Server while performing contract based routing: ",
                );
                text.append(detail.as_str());
                text
            },
            DynamicRoutingError::EliminationRateRoutingFailure(detail) => {
                let mut text = String::from_str(
                    "Error from Dynamic Routing Server while perfrming elimination : ",
                );
                text.append(detail.as_str());
                text
            },
        }
    }
}

/// `error` reports that the field `name` is missing.
pub open spec fn reports_missing(error: DynamicRoutingError, name: Seq<char>) -> bool {
    error matches DynamicRoutingError::MissingRequiredField { field } && field@ == name
}

/// When the service stops routing to a connector for a while.
#[derive(Debug, Clone, Copy)]
pub struct CurrentBlockThreshold {
    pub duration_in_mins: Option<u64>,
    pub max_total_count: Option<u64>,
}

/// Over what the service aggregates.
#[derive(Debug, Clone, Copy, PartialEq, Eq, Structural)]
pub enum SuccessRateSpecificityLevel {
    Merchant,
    Global,
}

impl Default for SuccessRateSpecificityLevel {
    fn default() -> (r: Self)
        ensures
            r == SuccessRateSpecificityLevel::Merchant,
    {
        SuccessRateSpecificityLevel::Merchant
    }
}

/// The routing configuration as the merchant states it. Every number may be
/// missing.
#[derive(Debug)]
pub struct SuccessBasedRoutingConfig<R> {
    pub min_aggregates_size: Option<u32>,
    pub default_success_rate: Option<R>,
    pub max_aggregates_size: Option<u32>,
    pub current_block_threshold: Option<CurrentBlockThreshold>,
    pub specificity_level: SuccessRateSpecificityLevel,
}

/// The parts of a transaction that the service can aggregate by.
#[derive(Debug, Clone, Copy, PartialEq, Eq, Structural)]
pub enum DynamicRoutingConfigParams {
    PaymentMethod,
    PaymentMethodType,
    AuthenticationType,
    Currency,
    Country,
    CardNetwork,
    CardBin,
}

/// Over what the service aggregates, as the wire names it.
#[derive(Debug, Clone, Copy, PartialEq, Eq, Structural)]
pub enum ProtoSpecificityLevel {
    Entity,
    Global,
}

/// The configuration that goes out with a request for scores.
#[derive(Debug)]
pub struct CalSuccessRateConfig<R> {
    pub min_aggregates_size: u32,
    pub default_success_rate: R,
    pub specificity_level: Option<ProtoSpecificityLevel>,
}

/// The block threshold as it goes over the wire.
#[derive(Debug, Clone, Copy, PartialEq, Eq, Structural)]
pub struct ProtoBlockThreshold {
    pub duration_in_mins: Option<u64>,
    pub max_total_count: u64,
}

/// The configuration that goes out with an update of the windows.
#[derive(Debug, Clone, Copy, PartialEq, Eq, Structural)]
pub struct UpdateSuccessRateWindowConfig {
    pub max_aggregates_size: u32,
    pub current_block_threshold: Option<ProtoBlockThreshold>,
}

/// The request for the scores of `labels`.
#[derive(Debug)]
pub struct CalSuccessRateRequest<R> {
    pub id: String,
    pub params: String,
    pub labels: Vec<String>,
    pub config: Option<CalSuccessRateConfig<R>>,
}

/// A connector and the outcome of the transaction routed to it.
#[derive(Debug)]
pub struct LabelWithStatus {
    pub label: String,
    pub status: bool,
}

/// A connector and the rank of its score; no rank where the score is not a
/// number.
#[derive(Debug)]
pub struct LabelWithScore {
    pub label: String,
    pub score: Option<u64>,
}

/// The update of the windows with the outcomes in `labels_with_status`.
#[derive(Debug)]
pub struct UpdateSuccessRateWindowRequest {
    pub id: String,
    pub params: String,
    pub labels_with_status: Vec<LabelWithStatus>,
    pub config: Option<UpdateSuccessRateWindowConfig>,
    pub global_labels_with_status: Vec<LabelWithStatus>,
}

/// The request to forget the windows kept under `id`.
#[derive(Debug)]
pub struct InvalidateWindowsRequest {
    pub id: String,
}

/// The value, or the error that names the missing field.
pub fn get_required_value<T>(value: Option<T>, field_name: &'static str) -> (r: Result<
    T,
    DynamicRoutingError,
>)
    ensures
        match value {
            Some(v) => r == Ok::<T, DynamicRoutingError>(v),
            None => r matches Err(error) && reports_missing(error, field_name@),
        },
{
    match value {
        Some(v) => Ok(v),
        None => Err(
            DynamicRoutingError::MissingRequiredField { field: String::from_str(field_name) },
        ),
    }
}

/// The wire's name for a specificity level: the merchant level is the
/// wire's entity level.
pub open spec fn wire_level(level: SuccessRateSpecificityLevel) -> ProtoSpecificityLevel {
    match level {
        SuccessRateSpecificityLevel::Merchant => ProtoSpecificityLevel::Entity,
        SuccessRateSpecificityLevel::Global => ProtoSpecificityLevel::Global,
    }
}

/// The configuration for a request for scores. The least number of
/// aggregates and the default success rate are required, in this order.
pub fn foreign_try_from<R>(config: SuccessBasedRoutingConfig<R>) -> (r: Result<
    CalSuccessRateConfig<R>,
    DynamicRoutingError,
>)
    ensures
        match (config.min_aggregates_size, config.default_success_rate) {
            (None, _) => r matches Err(error) && reports_missing(error, "min_aggregates_size"@),
            (Some(_), None) => r matches Err(error) && reports_missing(
                error,
                "default_success_rate"@,
            ),
            (Some(size), Some(rate)) => r matches Ok(wire) && wire.min_aggregates_size == size
                && wire.default_success_rate == rate && wire.specificity_level == Some(
                wire_level(config.specificity_level),
            ),
        },
{
    let min_aggregates_size = match get_required_value(
        config.min_aggregates_size,
        "min_aggregates_size",
    ) {
        Ok(size) => size,
        Err(error) => {
            return Err(error);
        },
    };
    let default_success_rate = match get_required_value(
        config.default_success_rate,
        "default_success_rate",
    ) {
        Ok(rate) => rate,
        Err(error) => {
            return Err(error);
        },
    };
    let specificity_level = match config.specificity_level {
        SuccessRateSpecificityLevel::Merchant => Some(ProtoSpecificityLevel::Entity),
        SuccessRateSpecificityLevel::Global => Some(ProtoSpecificityLevel::Global),
    };
    Ok(CalSuccessRateConfig { min_aggregates_size, default_success_rate, specificity_level })
}

/// The configuration for an update of the windows. The greatest number of
/// aggregates is required, and where there is a block threshold, its count.
pub fn foreign_try_from_2<R>(config: SuccessBasedRoutingConfig<R>) -> (r: Result<
    UpdateSuccessRateWindowConfig,
    DynamicRoutingError,
>)
    ensures
        match config.max_aggregates_size {
            None => r matches Err(error) && reports_missing(error, "max_aggregates_size"@),
            Some(size) => match config.current_block_threshold {
                None => r == Ok::<UpdateSuccessRateWindowConfig, DynamicRoutingError>(
                    UpdateSuccessRateWindowConfig {
                        max_aggregates_size: size,
                        current_block_threshold: None,
                    },
                ),
                Some(threshold) => match threshold.max_total_count {
                    None => r matches Err(error) && reports_missing(error, "max_total_count"@),
                    Some(count) => r == Ok::<UpdateSuccessRateWindowConfig, DynamicRoutingError>(
                        UpdateSuccessRateWindowConfig {
                            max_aggregates_size: size,
                            current_block_threshold: Some(
                                ProtoBlockThreshold {
                                    duration_in_mins: threshold.duration_in_mins,
                                    max_total_count: count,
                                },
                            ),
                        },
                    ),
                },
            },
        },
{
    let max_aggregates_size = match get_required_value(
        config.max_aggregates_size,
        "max_aggregates_size",
    ) {
        Ok(size) => size,
        Err(error) => {
            return Err(error);
        },
    };
    let current_block_threshold = match config.current_block_threshold {
        Some(threshold) => {
            let max_total_count = match get_required_value(
                threshold.max_total_count,
                "max_total_count",
            ) {
                Ok(count) => count,
                Err(error) => {
                    return Err(error);
                },
            };
            Some(
                ProtoBlockThreshold {
                    duration_in_mins: threshold.duration_in_mins,
                    max_total_count,
                },
            )
        },
        None => None,
    };
    Ok(UpdateSuccessRateWindowConfig { max_aggregates_size, current_block_threshold })
}

/// The characters of each text of a list.
pub open spec fn label_texts(labels: Seq<String>) -> Seq<Seq<char>> {
    labels.map_values(|label: String| label@)
}

/// The request for the scores of `connector_list`.
///
/// It fails, before anything is sent, where the configuration lacks a
/// field that the request needs.
pub fn calculate_success_rate<R>(
    id: String,
    success_rate_based_config: SuccessBasedRoutingConfig<R>,
    params: String,
    connector_list: Vec<Key>,
    headers: GrpcHeaders,
) -> (r: Result<GrpcRequest<CalSuccessRateRequest<R>>, DynamicRoutingError>)
    ensures
        match (
            success_rate_based_config.min_aggregates_size,
            success_rate_based_config.default_success_rate,
        ) {
            (None, _) => r matches Err(error) && reports_missing(error, "min_aggregates_size"@),
            (Some(_), None) => r matches Err(error) && reports_missing(
                error,
                "default_success_rate"@,
            ),
            (Some(size), Some(rate)) => {
                &&& r matches Ok(request)
                &&& request.message.id == id
                &&& request.message.params == params
                &&& label_texts(request.message.labels@) == key_texts(connector_list@)
                &&& request.message.config matches Some(wire)
                &&& wire.min_aggregates_size == size
                &&& wire.default_success_rate == rate
                &&& wire.specificity_level == Some(
                    wire_level(success_rate_based_config.specificity_level),
                )
                &&& header_texts(request.metadata@) == outgoing_headers(headers)
            },
        },
{
    let mut labels: Vec<String> = Vec::new();
    let mut i: usize = 0;
    assert(label_texts(labels@) =~= key_texts(connector_list@.take(0)));
    while i < connector_list.len()
        invariant
            i <= connector_list@.len(),
            labels@.len() == i,
            label_texts(labels@) == key_texts(connector_list@.take(i as int)),
        decreases connector_list@.len() - i,
    {
        let ghost before = labels@;
        labels.push(connector_list[i].0.clone());
        assert(label_texts(labels@) =~= key_texts(connector_list@.take(i + 1))) by {
            assert forall|j: int| 0 <= j < i + 1 implies label_texts(labels@)[j] == key_texts(
                connector_list@.take(i + 1),
            )[j] by {
                if j < i {
                    assert(labels@[j] == before[j]);
                    assert(label_texts(before)[j] == key_texts(connector_list@.take(i as int))[j]);
                }
            }
        }
        i += 1;
    }
    assert(connector_list@.take(i as int) =~= connector_list@);
    let config = match foreign_try_from(success_rate_based_config) {
        Ok(config) => config,
        Err(error) => {
            return Err(error);
        },
    };
    Ok(create_grpc_request(CalSuccessRateRequest { id, params, labels, config: Some(config) }, headers))
}

/// A copy of the list.
fn copy_labels(labels: &Vec<LabelWithStatus>) -> (r: Vec<LabelWithStatus>)
    ensures
        r@ == labels@,
{
    let mut copy: Vec<LabelWithStatus> = Vec::new();
    let mut i: usize = 0;
    while i < labels.len()
        invariant
            i <= labels@.len(),
            copy@ == labels@.take(i as int),
        decreases labels@.len() - i,
    {
        copy.push(LabelWithStatus { label: labels[i].label.clone(), status: labels[i].status });
        assert(copy@ =~= labels@.take(i + 1));
        i += 1;
    }
    assert(labels@.take(i as int) =~= labels@);
    copy
}

/// The update of the windows with the outcomes in
/// `connector_list_with_status`, which go out both for the merchant and for
/// the global windows.
///
/// It fails, before anything is sent, where the configuration lacks a
/// field that the request needs.
pub fn update_success_rate<R>(
    id: String,
    success_rate_based_config: SuccessBasedRoutingConfig<R>,
    params: String,
    connector_list_with_status: Vec<LabelWithStatus>,
    headers: GrpcHeaders,
) -> (r: Result<GrpcRequest<UpdateSuccessRateWindowRequest>, DynamicRoutingError>)
    ensures
        match success_rate_based_config.max_aggregates_size {
            None => r matches Err(error) && reports_missing(error, "max_aggregates_size"@),
            Some(size) => match success_rate_based_config.current_block_threshold {
                Some(CurrentBlockThreshold { max_total_count: None, .. }) => r matches Err(error)
                    && reports_missing(error, "max_total_count"@),
                threshold => {
                    &&& r matches Ok(request)
                    &&& request.message.id == id
                    &&& request.message.params == params
                    &&& request.message.labels_with_status@ == connector_list_with_status@
                    &&& request.message.global_labels_with_status@ == connector_list_with_status@
                    &&& request.message.config == Some(
                        UpdateSuccessRateWindowConfig {
                            max_aggregates_size: size,
                            current_block_threshold: match threshold {
                                Some(t) => Some(
                                    ProtoBlockThreshold {
                                        duration_in_mins: t.duration_in_mins,
                                        max_total_count: t.max_total_count->0,
                                    },
                                ),
                                None => None,
                            },
                        },
                    )
                    &&& header_texts(request.metadata@) == outgoing_headers(headers)
                },
            },
        },
{
    let config = match foreign_try_from_2(success_rate_based_config) {
        Ok(config) => config,
        Err(error) => {
            return Err(error);
        },
    };
    let global_labels_with_status = copy_labels(&connector_list_with_status);
    Ok(
        create_grpc_request(
            UpdateSuccessRateWindowRequest {
                id,
                params,
                labels_with_status: connector_list_with_status,
                config: Some(config),
                global_labels_with_status,
            },
            headers,
        ),
    )
}

/// The request to forget the windows kept under `id`.
pub fn invalidate_redis_keys(id: String, headers: GrpcHeaders) -> (r: GrpcRequest<
    InvalidateWindowsRequest,
>)
    ensures
        r.message.id == id,
        header_texts(r.metadata@) == outgoing_headers(headers),
{
    create_grpc_request(InvalidateWindowsRequest { id }, headers)
}

/// The one outcome that goes out after a transaction: a success where the
/// evaluation gave one, a failure where it gave a failure or an error.
pub fn convert_to_label_with_status(connector: String, res: &Result<Status, SimulationError>) -> (r:
    Vec<LabelWithStatus>)
    ensures
        r@ == seq![
            LabelWithStatus {
                label: connector,
                status: res matches Ok(status) && status == Status::Success,
            },
        ],
{
    let status = match res {
        Ok(Status::Success) => true,
        Ok(Status::Failure) => false,
        Err(_) => false,
    };
    let mut list: Vec<LabelWithStatus> = Vec::new();
    list.push(LabelWithStatus { label: connector, status });
    assert(list@ =~= seq![LabelWithStatus { label: connector, status }]);
    list
}

/// The rank of each score of a list.
pub open spec fn score_ranks(labels: Seq<LabelWithScore>) -> Seq<Option<u64>> {
    labels.map_values(|label: LabelWithScore| label.score)
}

/// The connector with the best score: the first one leads, and a later one
/// takes over only with a greater score. A score that is not a number
/// neither takes the lead nor loses it. There is none in an empty list.
pub fn get_highest_score_connector(labels_with_score: Vec<LabelWithScore>) -> (r: Option<String>)
    ensures
        match r {
            Some(label) => labels_with_score@.len() > 0 && label
                == labels_with_score@[leader(
                score_ranks(labels_with_score@),
                labels_with_score@.len() as int,
            )].label,
            None => labels_with_score@.len() == 0,
        },
{
    let mut ranks: Vec<Option<u64>> = Vec::new();
    let mut i: usize = 0;
    while i < labels_with_score.len()
        invariant
            i <= labels_with_score@.len(),
            ranks@ == score_ranks(labels_with_score@.take(i as int)),
        decreases labels_with_score@.len() - i,
    {
        ranks.push(labels_with_score[i].score);
        assert(ranks@ =~= score_ranks(labels_with_score@.take(i + 1)));
        i += 1;
    }
    assert(labels_with_score@.take(i as int) =~= labels_with_score@);
    match best_ranked(&ranks) {
        Some(at) => {
            proof {
                crate::routing::lemma_leader_in_range(ranks@, ranks@.len() as int);
            }
            Some(labels_with_score[at].label.clone())
        },
        None => None,
    }
}

/// The parameters of a transaction as one text: `id`, the payment method,
/// the payment method type where there is one, and the currency, with
/// colons between them.
pub open spec fn params_text(sample: Map<Seq<char>, Seq<char>>) -> Seq<char> {
    if sample.contains_key("payment_method_type"@) {
        "id:"@ + sample["payment_methods"@] + ":"@ + sample["payment_method_type"@] + ":"@
            + sample["currency"@]
    } else {
        "id:"@ + sample["payment_methods"@] + ":"@ + sample["currency"@]
    }
}

/// The parameters of the transaction `payment_info` as one text. There is
/// none where the payment method or the currency is missing.
pub fn flatten_payment_info(payment_info: &Context) -> (r: Option<String>)
    ensures
        match r {
            Some(text) => {
                &&& payment_info@.contains_key("payment_methods"@)
                &&& payment_info@.contains_key("currency"@)
                &&& text@ == params_text(payment_info@)
            },
            None => !payment_info@.contains_key("payment_methods"@) || !payment_info@.contains_key(
                "currency"@,
            ),
        },
{
    let payment_methods = match payment_info.get(&Key::new("payment_methods")) {
        Some(value) => value,
        None => {
            return None;
        },
    };
    let currency = match payment_info.get(&Key::new("currency")) {
        Some(value) => value,
        None => {
            return None;
        },
    };
    let mut text = String::from_str("id:");
    text.append(payment_methods.0.as_str());
    text.append(":");
    match payment_info.get(&Key::new("payment_method_type")) {
        Some(kind) => {
            text.append(kind.0.as_str());
            text.append(":");
        },
        None => {},
    }
    text.append(currency.0.as_str());
    assert(text@ =~= params_text(payment_info@));
    Some(text)
}

} // verus!

//! The steps of one iteration of a run: a transaction is sampled and
//! filtered, the policy's records are brought up to date with the eligible
//! connectors, the transaction is evaluated at the chosen connector, and the
//! outcome is recorded.
//!
//! The choice of the connector lies between these steps and belongs to the
//! policy. A run calls the steps in this order; where a step fails, the
//! iteration is given up and the run goes on.

use crate::context::Context;
use crate::evaluator::may_come_of;
use crate::grpc_clients::success_rate_client::{
    convert_to_label_with_status, flatten_payment_info, params_text, LabelWithStatus,
};
use crate::json::json_object_text;
use crate::key::{with_name, Key};
use crate::merchant::{eligible, find_suitable_connectors};
use crate::metrics::Metrics;
use crate::recorder::{
    recorded_or_rejected, sample_to_json, texts, untouched, RecordError, Recorder,
};
use crate::routing::{candidates_in_range, PaymentConnector, StraightThroughRouting};
use crate::sampler::{sampled, Sampler};
use crate::types::{
    key_texts, Config, ConfigFault, PaymentRecorderData, PspSimulationConfig, SimulationError,
    Status,
};
use rand::rngs::StdRng;
use vstd::prelude::*;

verus! {

/// Why an iteration was given up.
#[derive(Debug)]
pub enum IterationError {
    /// No transaction could be sampled.
    Sampling(SimulationError),
    /// The sample lacks the payment method or the currency.
    IncompleteSample,
    /// The sample could not be written as JSON.
    UnwritableSample,
    /// The transaction could not be evaluated.
    Evaluation(SimulationError),
    /// The outcome could not be recorded.
    Recording(RecordError),
}

/// A sampled transaction: its context, the parameters of the context as one
/// text, the context as JSON text, and the connectors that may take it.
#[derive(Debug)]
pub struct UserSample {
    pub context: Context,
    pub params: String,
    pub payment_data: String,
    pub connectors: Vec<Key>,
}

/// The sample is made of the context: its parameters and its JSON text are
/// those of the context, and its connectors are those that may take a
/// transaction with this context.
pub open spec fn describes(
    config: Config,
    context: Map<Seq<char>, Seq<char>>,
    sample: UserSample,
) -> bool {
    &&& sample.context@ == context
    &&& sample.params@ == params_text(context)
    &&& json_object_text(context) == Some(sample.payment_data@)
    &&& key_texts(sample.connectors@) == eligible(
        config.merchant.connectors_list@,
        context,
        config.merchant.connectors_list@.len() as int,
    )
}

/// What becomes of a sampled context: it is incomplete without a payment
/// method and a currency, it may not be writable as JSON, and in every
/// other case it makes the user sample.
pub open spec fn prepared(
    config: Config,
    context: Map<Seq<char>, Seq<char>>,
    outcome: Result<UserSample, IterationError>,
) -> bool {
    if !(context.contains_key("payment_methods"@) && context.contains_key("currency"@)) {
        outcome matches Err(IterationError::IncompleteSample)
    } else if json_object_text(context) is None {
        outcome matches Err(IterationError::UnwritableSample)
    } else {
        outcome matches Ok(sample) && describes(config, context, sample)
    }
}

/// What becomes of the sampler's outcome `drawn`: an exhausted sampler
/// gives no sample, and a context is prepared.
pub open spec fn sample_made_of(
    config: Config,
    drawn: Result<Context, SimulationError>,
    outcome: Result<UserSample, IterationError>,
) -> bool {
    match drawn {
        Ok(context) => prepared(config, context@, outcome),
        Err(_) => outcome matches Err(IterationError::Sampling(error)) && error
            is SamplerExhausted,
    }
}

/// `outcome` can come of sampling a transaction: an empty amount range is
/// rejected, and with any other range the sample is made of what the
/// sampler draws with some amount in the range and some draws.
pub open spec fn may_be_sampled(config: Config, outcome: Result<UserSample, IterationError>) -> bool {
    if config.user.amount_range().min > config.user.amount_range().max {
        &&& outcome matches Err(
            IterationError::Sampling(SimulationError::ConfigInvalid { path, reason }),
        )
        &&& reason == ConfigFault::EmptyAmountRange
        &&& key_texts(path@) == seq!["amount"@]
    } else {
        exists|amount: u32, draws: Seq<u8>, drawn: Result<Context, SimulationError>|
            #![trigger sampled(config.user, amount, draws, drawn)]
            sampled(config.user, amount, draws, drawn) && sample_made_of(config, drawn, outcome)
    }
}

/// Samples a transaction and finds the connectors that may take it.
///
/// A valid user configuration never fails in sampling.
pub fn generate_user_sample(config: &Config, rng: &mut StdRng) -> (r: Result<
    UserSample,
    IterationError,
>)
    ensures
        may_be_sampled(*config, r),
        config.user.valid() ==> !(r matches Err(IterationError::Sampling(_))),
{
    let drawn = config.user.generate_sample(rng);
    let ghost witness = drawn;
    let r = match drawn {
        Ok(context) => prepare_sample(config, context),
        Err(error) => Err(IterationError::Sampling(error)),
    };
    proof {
        if config.user.amount_range().min <= config.user.amount_range().max {
            let (amount, draws) = choose|amount: u32, draws: Seq<u8>| #[trigger]
                sampled(config.user, amount, draws, witness);
            assert(sampled(config.user, amount, draws, witness) && sample_made_of(
                *config,
                witness,
                r,
            ));
        }
    }
    r
}

/// Makes the user sample of a context.
pub fn prepare_sample(config: &Config, context: Context) -> (r: Result<UserSample, IterationError>)
    ensures
        prepared(*config, context@, r),
{
    let connectors = find_suitable_connectors(&context, &config.merchant);
    let params = match flatten_payment_info(&context) {
        Some(params) => params,
        None => {
            return Err(IterationError::IncompleteSample);
        },
    };
    let payment_data = match sample_to_json(&context) {
        Some(text) => text,
        None => {
            return Err(IterationError::UnwritableSample);
        },
    };
    Ok(UserSample { context, params, payment_data, connectors })
}

/// The position of the first record named `name`.
pub fn find_record<F>(states: &Vec<PaymentConnector<F>>, name: &Key) -> (r: Option<usize>)
    ensures
        match r {
            Some(at) => {
                &&& at < states@.len()
                &&& states@[at as int].name@ == name@
                &&& forall|i: int| 0 <= i < at ==> (#[trigger] states@[i]).name@ != name@
            },
            None => forall|i: int| 0 <= i < states@.len() ==> (#[trigger] states@[i]).name@ != name@,
        },
{
    let mut i: usize = 0;
    while i < states.len()
        invariant
            i <= states@.len(),
            forall|j: int| 0 <= j < i ==> (#[trigger] states@[j]).name@ != name@,
        decreases states@.len() - i,
    {
        if states[i].name == name.0 {
            return Some(i);
        }
        i += 1;
    }
    None
}

/// The record is new: it has the given name and parameters, and no outcome.
pub open spec fn fresh<F>(record: PaymentConnector<F>, name: Seq<char>, alpha: F, beta: F) -> bool {
    &&& record.name@ == name
    &&& record.attempts == 0
    &&& record.successes == 0
    &&& record.window@.len() == 0
    &&& record.alpha == alpha
    &&& record.beta == beta
}

/// The names of the records, in their order.
pub open spec fn record_names<F>(states: Seq<PaymentConnector<F>>) -> Seq<Seq<char>> {
    Seq::new(states.len(), |i: int| states[i].name@)
}

/// The names after the first `n` of the eligible connectors have been
/// enrolled in turn: each of them that is not among the names yet is put at
/// their end.
pub open spec fn enrolled(names: Seq<Seq<char>>, eligible: Seq<Key>, n: int) -> Seq<Seq<char>>
    decreases n,
{
    if n <= 0 {
        names
    } else {
        with_name(enrolled(names, eligible, n - 1), eligible[n - 1]@)
    }
}

/// The record at `at` is the first record named `name`.
pub open spec fn first_named<F>(states: Seq<PaymentConnector<F>>, name: Seq<char>, at: int) -> bool {
    &&& 0 <= at < states.len()
    &&& states[at].name@ == name
    &&& forall|j: int| 0 <= j < at ==> (#[trigger] states[j]).name@ != name
}

/// Brings the records up to date with the eligible connectors: a connector
/// that has no record yet gets a new one at the end. Returns, for each
/// eligible connector in turn, the position of its first record.
///
/// The records that were there stay as they are and where they are.
pub fn enroll_connectors<F: Copy>(
    states: &mut Vec<PaymentConnector<F>>,
    eligible: &Vec<Key>,
    alpha: F,
    beta: F,
) -> (candidates: Vec<usize>)
    ensures
        old(states)@.len() <= final(states)@.len(),
        final(states)@.take(old(states)@.len() as int) == old(states)@,
        record_names(final(states)@) == enrolled(
            record_names(old(states)@),
            eligible@,
            eligible@.len() as int,
        ),
        forall|i: int|
            old(states)@.len() <= i < final(states)@.len() ==> fresh(
                #[trigger] final(states)@[i],
                final(states)@[i].name@,
                alpha,
                beta,
            ),
        candidates@.len() == eligible@.len(),
        candidates_in_range(candidates@, final(states)@.len() as int),
        forall|p: int|
            0 <= p < eligible@.len() ==> first_named(
                final(states)@,
                eligible@[p]@,
                (#[trigger] candidates@[p]) as int,
            ),
{
    let mut candidates: Vec<usize> = Vec::new();
    let mut p: usize = 0;
    while p < eligible.len()
        invariant
            p <= eligible@.len(),
            old(states)@.len() <= states@.len(),
            states@.take(old(states)@.len() as int) == old(states)@,
            record_names(states@) == enrolled(record_names(old(states)@), eligible@, p as int),
            forall|i: int|
                old(states)@.len() <= i < states@.len() ==> fresh(
                    #[trigger] states@[i],
                    states@[i].name@,
                    alpha,
                    beta,
                ),
            candidates@.len() == p,
            candidates_in_range(candidates@, states@.len() as int),
            forall|q: int|
                0 <= q < p ==> first_named(states@, eligible@[q]@, (#[trigger] candidates@[q]) as int),
        decreases eligible@.len() - p,
    {
        let ghost before = states@;
        let ghost name = eligible@[p as int]@;
        let at = match find_record(states, &eligible[p]) {
            Some(at) => {
                assert(record_names(before).contains(name)) by {
                    assert(record_names(before)[at as int] == name);
                }
                at
            },
            None => {
                assert(!record_names(before).contains(name)) by {
                    if record_names(before).contains(name) {
                        let i = choose|i: int|
                            0 <= i < record_names(before).len() && record_names(before)[i] == name;
                        assert(before[i].name@ == name);
                    }
                }
                let record = PaymentConnector::new(eligible[p].0.clone(), alpha, beta);
                states.push(record);
                assert(states@.take(old(states)@.len() as int) =~= before.take(
                    old(states)@.len() as int,
                ));
                assert(record_names(states@) =~= record_names(before).push(name));
                assert forall|i: int| 0 <= i < before.len() implies #[trigger] states@[i]
                    == before[i] by {}
                states.len() - 1
            },
        };
        let ghost held = candidates@;
        candidates.push(at);
        assert forall|q: int| 0 <= q < p + 1 implies first_named(
            states@,
            eligible@[q]@,
            (#[trigger] candidates@[q]) as int,
        ) by {
            if q < p {
                assert(candidates@[q] == held[q]);
                assert(first_named(before, eligible@[q]@, held[q] as int));
                assert forall|j: int| 0 <= j < held[q] implies (#[trigger] states@[j]).name@
                    != eligible@[q]@ by {
                    assert(states@[j] == before[j]);
                }
                assert(states@[held[q] as int] == before[held[q] as int]);
            }
        }
        p += 1;
    }
    candidates
}

/// Evaluates the transaction with the context `sample` at `connector` and
/// puts the outcome in the form in which it is reported to the success-rate
/// service: an evaluation that failed is reported as a failure.
pub fn evaluate_transaction(
    psp: &PspSimulationConfig,
    connector: &Key,
    sample: &Context,
    rng: &mut StdRng,
) -> (r: (Result<Status, SimulationError>, Vec<LabelWithStatus>))
    ensures
        may_come_of(psp.named_rate(connector@, sample@), psp.fallback(), connector@, r.0),
        r.1@.len() == 1,
        r.1@[0].label@ == connector@,
        r.1@[0].status == (r.0 matches Ok(status) && status == Status::Success),
{
    let res = psp.evaluate(connector, sample, rng);
    let labels = convert_to_label_with_status(connector.0.clone(), &res);
    (res, labels)
}

/// Records the outcome of the transaction at `connector`: it is counted
/// in `metrics`, and its row for the event log is returned.
///
/// Nothing is recorded for an evaluation that failed.
pub fn record_outcome(
    connector: &Key,
    res: Result<Status, SimulationError>,
    user_sample: &str,
    metrics: &mut Metrics,
) -> (r: Result<Vec<String>, IterationError>)
    ensures
        match res {
            Err(_) => r matches Err(IterationError::Evaluation(_)) && untouched(
                *old(metrics),
                *final(metrics),
            ),
            Ok(verdict) => match r {
                Ok(row) => recorded_or_rejected(
                    *old(metrics),
                    *final(metrics),
                    Ok(row),
                    connector@,
                    verdict,
                    user_sample@,
                ),
                Err(IterationError::Recording(error)) => recorded_or_rejected(
                    *old(metrics),
                    *final(metrics),
                    Err(error),
                    connector@,
                    verdict,
                    user_sample@,
                ),
                Err(_) => false,
            },
        },
{
    let verdict = match res {
        Ok(verdict) => verdict,
        Err(error) => {
            return Err(IterationError::Evaluation(error));
        },
    };
    let data = PaymentRecorderData::set_values(connector.clone(), verdict, Key::new(user_sample));
    match data.record_transaction(metrics) {
        Ok(row) => Ok(row),
        Err(error) => Err(IterationError::Recording(error)),
    }
}

/// How a run went: the rows of the event log, and how many iterations were
/// skipped for want of a connector or given up.
#[derive(Debug)]
pub struct RunSummary {
    pub rows: Vec<Vec<String>>,
    pub skipped: usize,
    pub failed: usize,
}

/// The sample is routed to its connector at position `at`, evaluated there
/// with the outcome `res`, and recorded; `outcome` says how this went.
pub open spec fn settled(
    config: Config,
    sample: UserSample,
    at: int,
    res: Result<Status, SimulationError>,
    before: Metrics,
    after: Metrics,
    outcome: Result<Option<Vec<String>>, IterationError>,
) -> bool {
    &&& 0 <= at < sample.connectors@.len()
    &&& may_come_of(
        config.psp.named_rate(sample.connectors@[at]@, sample.context@),
        config.psp.fallback(),
        sample.connectors@[at]@,
        res,
    )
    &&& match res {
        Err(_) => outcome matches Err(IterationError::Evaluation(_)) && untouched(before, after),
        Ok(verdict) => match outcome {
            Ok(Some(row)) => recorded_or_rejected(
                before,
                after,
                Ok(row),
                sample.connectors@[at]@,
                verdict,
                sample.payment_data@,
            ),
            Err(IterationError::Recording(error)) => recorded_or_rejected(
                before,
                after,
                Err(error),
                sample.connectors@[at]@,
                verdict,
                sample.payment_data@,
            ),
            _ => false,
        },
    }
}

/// What an iteration with the straight-through policy makes of the outcome
/// of sampling: where no sample was made, the iteration is given up; a
/// sample that no connector may take is skipped; any other sample is
/// routed to one of its connectors, evaluated and recorded.
pub open spec fn iterated(
    config: Config,
    sampling: Result<UserSample, IterationError>,
    before: Metrics,
    after: Metrics,
    outcome: Result<Option<Vec<String>>, IterationError>,
) -> bool {
    match sampling {
        Err(error) => outcome == Err::<Option<Vec<String>>, IterationError>(error) && untouched(
            before,
            after,
        ),
        Ok(sample) => if sample.connectors@.len() == 0 {
            outcome matches Ok(None) && untouched(before, after)
        } else {
            exists|at: int, res: Result<Status, SimulationError>| #[trigger]
                settled(config, sample, at, res, before, after, outcome)
        },
    }
}

/// One iteration with the straight-through policy: a transaction is
/// sampled, one of the connectors that may take it is drawn, the
/// transaction is evaluated there and the outcome is recorded.
///
/// Returns the row for the event log, or nothing where no connector may
/// take the transaction. The metrics count one outcome more where a row is
/// returned, and are left as they were in every other case.
pub fn straight_through_iteration(config: &Config, metrics: &mut Metrics, rng: &mut StdRng) -> (r:
    Result<Option<Vec<String>>, IterationError>)
    ensures
        exists|sampling: Result<UserSample, IterationError>|
            #![trigger may_be_sampled(*config, sampling)]
            may_be_sampled(*config, sampling) && iterated(
                *config,
                sampling,
                *old(metrics),
                *final(metrics),
                r,
            ),
        match r {
            Ok(Some(row)) => row@.len() == 4 && final(metrics).events() == old(metrics).events()
                + 1,
            _ => untouched(*old(metrics), *final(metrics)),
        },
        r matches Err(IterationError::Sampling(_)) ==> !config.user.valid(),
{
    let sampling = generate_user_sample(config, rng);
    let ghost witness = sampling;
    let sample = match sampling {
        Ok(sample) => sample,
        Err(error) => {
            let r = Err(error);
            assert(iterated(*config, witness, *old(metrics), *metrics, r));
            return r;
        },
    };
    if sample.connectors.len() == 0 {
        let r = Ok(None);
        assert(iterated(*config, witness, *old(metrics), *metrics, r));
        return r;
    }
    let UserSample { context, params: _, payment_data, connectors } = sample;
    let routing = StraightThroughRouting { connectors };
    let connector = routing.get_connector(rng);
    let ghost at = choose|i: int|
        0 <= i < routing.connectors@.len() && connector == #[trigger] routing.connectors@[i];
    let (res, _) = evaluate_transaction(&config.psp, &connector, &context, rng);
    let ghost evaluated = res;
    let r = match record_outcome(&connector, res, payment_data.as_str(), metrics) {
        Ok(row) => {
            assert(row@.len() == texts(row@).len());
            Ok(Some(row))
        },
        Err(error) => Err(error),
    };
    proof {
        assert(settled(*config, witness->Ok_0, at, evaluated, *old(metrics), *metrics, r));
        assert(iterated(*config, witness, *old(metrics), *metrics, r));
    }
    r
}

/// The outcome of one iteration: a row, nothing for a skipped iteration, or
/// the reason for which it was given up.
pub type IterationOutcome = Result<Option<Vec<String>>, IterationError>;

/// The rows among the outcomes, in their order.
pub open spec fn rows_of(outcomes: Seq<IterationOutcome>) -> Seq<Vec<String>>
    decreases outcomes.len(),
{
    if outcomes.len() == 0 {
        Seq::empty()
    } else {
        match outcomes.last() {
            Ok(Some(row)) => rows_of(outcomes.drop_last()).push(row),
            _ => rows_of(outcomes.drop_last()),
        }
    }
}

/// How many of the outcomes are skipped iterations.
pub open spec fn skipped_in(outcomes: Seq<IterationOutcome>) -> nat
    decreases outcomes.len(),
{
    if outcomes.len() == 0 {
        0
    } else {
        skipped_in(outcomes.drop_last()) + match outcomes.last() {
            Ok(None) => 1nat,
            _ => 0nat,
        }
    }
}

/// How many of the outcomes are iterations that were given up.
pub open spec fn failed_in(outcomes: Seq<IterationOutcome>) -> nat
    decreases outcomes.len(),
{
    if outcomes.len() == 0 {
        0
    } else {
        failed_in(outcomes.drop_last()) + match outcomes.last() {
            Err(_) => 1nat,
            Ok(_) => 0nat,
        }
    }
}

/// The iterations with the outcomes `outcomes` lead from one state of the
/// metrics to the next: each of them is an iteration with the
/// straight-through policy.
pub open spec fn run_through(
    config: Config,
    states: Seq<Metrics>,
    outcomes: Seq<IterationOutcome>,
) -> bool {
    &&& states.len() == outcomes.len() + 1
    &&& forall|i: int| 0 <= i < outcomes.len() ==> #[trigger] step_taken(config, states, outcomes, i)
}

/// Iteration `i` is an iteration with the straight-through policy: it leads
/// from state `i` of the metrics to the next and ends with outcome `i`.
pub open spec fn step_taken(
    config: Config,
    states: Seq<Metrics>,
    outcomes: Seq<IterationOutcome>,
    i: int,
) -> bool {
    exists|sampling: Result<UserSample, IterationError>|
        #![trigger may_be_sampled(config, sampling)]
        may_be_sampled(config, sampling) && iterated(
            config,
            sampling,
            states[i],
            states[i + 1],
            outcomes[i],
        )
}

/// A run of `iterations` iterations with the straight-through policy. An
/// iteration that is given up does not end the run.
///
/// Every iteration ends in exactly one way: with a row, skipped, or given
/// up; the summary holds the rows in their order and counts the others, and
/// the metrics count one outcome for each row.
pub fn run_straight_through(
    config: &Config,
    iterations: usize,
    metrics: &mut Metrics,
    rng: &mut StdRng,
) -> (r: RunSummary)
    ensures
        exists|states: Seq<Metrics>, outcomes: Seq<IterationOutcome>|
            #![trigger run_through(*config, states, outcomes)]
            {
                &&& run_through(*config, states, outcomes)
                &&& outcomes.len() == iterations
                &&& states[0] == *old(metrics)
                &&& states[iterations as int] == *final(metrics)
                &&& r.rows@ == rows_of(outcomes)
                &&& r.skipped == skipped_in(outcomes)
                &&& r.failed == failed_in(outcomes)
            },
        r.rows@.len() + r.skipped + r.failed == iterations,
        final(metrics).events() == old(metrics).events() + r.rows@.len(),
        forall|i: int| 0 <= i < r.rows@.len() ==> (#[trigger] r.rows@[i])@.len() == 4,
{
    let mut summary = RunSummary { rows: Vec::new(), skipped: 0, failed: 0 };
    let ghost mut states: Seq<Metrics> = seq![*metrics];
    let ghost mut outcomes: Seq<IterationOutcome> = Seq::empty();
    let mut i: usize = 0;
    while i < iterations
        invariant
            i <= iterations,
            run_through(*config, states, outcomes),
            outcomes.len() == i,
            states[0] == *old(metrics),
            states[i as int] == *metrics,
            summary.rows@ == rows_of(outcomes),
            summary.skipped == skipped_in(outcomes),
            summary.failed == failed_in(outcomes),
            summary.rows@.len() + summary.skipped + summary.failed == i,
            metrics.events() == old(metrics).events() + summary.rows@.len(),
            forall|j: int| 0 <= j < summary.rows@.len() ==> (#[trigger] summary.rows@[j])@.len() == 4,
        decreases iterations - i,
    {
        let ghost before = *metrics;
        let ghost earlier_states = states;
        let ghost earlier = outcomes;
        let outcome = straight_through_iteration(config, metrics, rng);
        proof {
            outcomes = earlier.push(outcome);
            states = earlier_states.push(*metrics);
            assert(outcomes.drop_last() =~= earlier);
            let sampling = choose|sampling: Result<UserSample, IterationError>|
                #![trigger may_be_sampled(*config, sampling)]
                may_be_sampled(*config, sampling) && iterated(
                    *config,
                    sampling,
                    before,
                    *metrics,
                    outcome,
                );
            assert forall|k: int| 0 <= k < outcomes.len() implies #[trigger] step_taken(
                *config,
                states,
                outcomes,
                k,
            ) by {
                if k < earlier.len() {
                    assert(step_taken(*config, earlier_states, earlier, k));
                    assert(states[k] == earlier_states[k]);
                    assert(states[k + 1] == earlier_states[k + 1]);
                    assert(outcomes[k] == earlier[k]);
                } else {
                    assert(may_be_sampled(*config, sampling) && iterated(
                        *config,
                        sampling,
                        states[k],
                        states[k + 1],
                        outcomes[k],
                    ));
                }
            }
        }
        match outcome {
            Ok(Some(row)) => {
                summary.rows.push(row);
            },
            Ok(None) => {
                summary.skipped = summary.skipped + 1;
            },
            Err(_) => {
                summary.failed = summary.failed + 1;
            },
        }
        i += 1;
    }
    summary
}

} // verus!

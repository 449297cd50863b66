//! The connector simulator: it finds the rule that applies to a transaction
//! and draws the outcome from the rule's success rate.
//!
//! A rule is found in one of two ways. `evaluate` takes the context of the
//! transaction and compares its payment method and payment method type
//! with the rule's; the harness evaluates so. `call_evaluator` takes the
//! transaction as a text, as it is stored as JSON, and searches the text for
//! the rule's payment method and type; `card` is then found in
//! `credit_card` too. Both know the wildcard `*` for the type.

use crate::context::Context;
use crate::key::{find_key, has_key, key_position, lemma_key_position, Key};
use crate::random::draw_ratio;
use crate::text::{occurs_in, text_contains};
use crate::types::{
    key_texts, ConfigFault, PaymentMethodTypes, PaymentTypeDetails, PspSimulationConfig,
    SimulationError, Status,
};
use rand::rngs::StdRng;
use vstd::prelude::*;
use vstd::string::StringExecFns;

verus! {

/// A rule for the payment method type `kind` applies to `sample`: the type
/// is the wildcard `*`, or its name stands in the sample.
pub open spec fn type_applies(kind: Seq<char>, sample: Seq<char>) -> bool {
    occurs_in(kind, sample) || kind == "*"@
}

/// The success rate of the first rule among `details`, from position `from`
/// on, whose type applies to `sample`.
pub open spec fn type_rate(details: Seq<PaymentTypeDetails>, sample: Seq<char>, from: int) -> Option<
    u32,
>
    decreases details.len() - from,
{
    if from < 0 || from >= details.len() {
        None
    } else if type_applies(details[from].payment_method_type@, sample) {
        Some(details[from].sr)
    } else {
        type_rate(details, sample, from + 1)
    }
}

/// The success rate that the rules of the payment method `method` give for
/// `sample`: none unless the method's name stands in the sample.
pub open spec fn method_rate(method: Seq<char>, rules: PaymentMethodTypes, sample: Seq<char>) -> Option<
    u32,
> {
    if !occurs_in(method, sample) {
        None
    } else {
        match rules {
            PaymentMethodTypes::Simple { sr } => Some(sr),
            PaymentMethodTypes::PaymentTypes(details) => type_rate(details@, sample, 0),
        }
    }
}

/// The success rate of the first payment method, from position `from` on,
/// that has a rule for `sample`.
pub open spec fn connector_rate(
    methods: Seq<(Key, PaymentMethodTypes)>,
    sample: Seq<char>,
    from: int,
) -> Option<u32>
    decreases methods.len() - from,
{
    if from < 0 || from >= methods.len() {
        None
    } else {
        match method_rate(methods[from].0@, methods[from].1, sample) {
            Some(sr) => Some(sr),
            None => connector_rate(methods, sample, from + 1),
        }
    }
}

impl PspSimulationConfig {
    /// The success rate of the rule that applies to `sample` at `connector`:
    /// the first rule, in the order of the configuration, whose payment
    /// method and type stand in the sample. None where the connector is
    /// unknown or none of its rules applies.
    pub open spec fn matching_rate(self, connector: Seq<char>, sample: Seq<char>) -> Option<u32> {
        if has_key(self.psp_variants@, connector) {
            connector_rate(
                self.psp_variants@[key_position(self.psp_variants@, connector)].1.payment_methods@,
                sample,
                0,
            )
        } else {
            None
        }
    }

    /// Finds the rule that applies to `user_sample` at `connector`.
    pub fn find_rate(&self, connector: &Key, user_sample: &str) -> (r: Option<u32>)
        ensures
            r == self.matching_rate(connector@, user_sample@),
    {
        proof {
            lemma_key_position(self.psp_variants@, connector@);
        }
        match find_key(&self.psp_variants, connector) {
            Some(at) => find_connector_rate(&self.psp_variants[at].1.payment_methods, user_sample),
            None => None,
        }
    }
}

/// Finds the first rule among `details` whose type applies to `sample`.
fn find_type_rate(details: &Vec<PaymentTypeDetails>, sample: &str) -> (r: Option<u32>)
    ensures
        r == type_rate(details@, sample@, 0),
{
    let mut j: usize = 0;
    while j < details.len()
        invariant
            j <= details@.len(),
            type_rate(details@, sample@, 0) == type_rate(details@, sample@, j as int),
        decreases details@.len() - j,
    {
        let kind = &details[j].payment_method_type;
        if text_contains(sample, kind.0.as_str()) || is_wildcard(kind) {
            return Some(details[j].sr);
        }
        j += 1;
    }
    None
}

/// Finds the first payment method among `methods` that has a rule for
/// `sample`.
fn find_connector_rate(methods: &Vec<(Key, PaymentMethodTypes)>, sample: &str) -> (r: Option<u32>)
    ensures
        r == connector_rate(methods@, sample@, 0),
{
    let mut i: usize = 0;
    while i < methods.len()
        invariant
            i <= methods@.len(),
            connector_rate(methods@, sample@, 0) == connector_rate(methods@, sample@, i as int),
        decreases methods@.len() - i,
    {
        if text_contains(sample, methods[i].0.0.as_str()) {
            let found = match &methods[i].1 {
                PaymentMethodTypes::Simple { sr } => Some(*sr),
                PaymentMethodTypes::PaymentTypes(details) => find_type_rate(details, sample),
            };
            if found.is_some() {
                return found;
            }
        }
        i += 1;
    }
    None
}

/// A rule for the payment method type `kind` applies to the context
/// `sample`: the type is the wildcard `*`, or it is the sample's payment
/// method type.
pub open spec fn type_named(kind: Seq<char>, sample: Map<Seq<char>, Seq<char>>) -> bool {
    kind == "*"@ || (sample.contains_key("payment_method_type"@) && sample["payment_method_type"@]
        == kind)
}

/// The success rate of the first rule among `details`, from position `from`
/// on, whose type applies to the context `sample`.
pub open spec fn named_type_rate(
    details: Seq<PaymentTypeDetails>,
    sample: Map<Seq<char>, Seq<char>>,
    from: int,
) -> Option<u32>
    decreases details.len() - from,
{
    if from < 0 || from >= details.len() {
        None
    } else if type_named(details[from].payment_method_type@, sample) {
        Some(details[from].sr)
    } else {
        named_type_rate(details, sample, from + 1)
    }
}

/// The success rate that the rules of the payment method `method` give for
/// the context `sample`: none unless `method` is the sample's payment
/// method.
pub open spec fn named_method_rate(
    method: Seq<char>,
    rules: PaymentMethodTypes,
    sample: Map<Seq<char>, Seq<char>>,
) -> Option<u32> {
    if !(sample.contains_key("payment_methods"@) && sample["payment_methods"@] == method) {
        None
    } else {
        match rules {
            PaymentMethodTypes::Simple { sr } => Some(sr),
            PaymentMethodTypes::PaymentTypes(details) => named_type_rate(details@, sample, 0),
        }
    }
}

/// The success rate of the first payment method, from position `from` on,
/// that has a rule for the context `sample`.
pub open spec fn named_connector_rate(
    methods: Seq<(Key, PaymentMethodTypes)>,
    sample: Map<Seq<char>, Seq<char>>,
    from: int,
) -> Option<u32>
    decreases methods.len() - from,
{
    if from < 0 || from >= methods.len() {
        None
    } else {
        match named_method_rate(methods[from].0@, methods[from].1, sample) {
            Some(sr) => Some(sr),
            None => named_connector_rate(methods, sample, from + 1),
        }
    }
}

impl PspSimulationConfig {
    /// The success rate of the rule that applies to the context `sample` at
    /// `connector`: the first rule, in the order of the configuration, for
    /// the sample's payment method and for its payment method type or for
    /// the wildcard. None where the connector is unknown or none of its
    /// rules applies.
    pub open spec fn named_rate(self, connector: Seq<char>, sample: Map<Seq<char>, Seq<char>>) -> Option<
        u32,
    > {
        if has_key(self.psp_variants@, connector) {
            named_connector_rate(
                self.psp_variants@[key_position(self.psp_variants@, connector)].1.payment_methods@,
                sample,
                0,
            )
        } else {
            None
        }
    }

    /// Finds the rule that applies to the context `sample` at `connector`.
    pub fn find_named_rate(&self, connector: &Key, sample: &Context) -> (r: Option<u32>)
        ensures
            r == self.named_rate(connector@, sample@),
    {
        proof {
            lemma_key_position(self.psp_variants@, connector@);
        }
        let methods = match find_key(&self.psp_variants, connector) {
            Some(at) => &self.psp_variants[at].1.payment_methods,
            None => {
                return None;
            },
        };
        let method = match sample.get(&Key::new("payment_methods")) {
            Some(method) => method,
            None => {
                assert(named_connector_rate(methods@, sample@, 0) is None) by {
                    lemma_no_method_no_rate(methods@, sample@, 0);
                }
                return None;
            },
        };
        let kind = sample.get(&Key::new("payment_method_type"));
        let mut i: usize = 0;
        while i < methods.len()
            invariant
                i <= methods@.len(),
                self.named_rate(connector@, sample@) == named_connector_rate(methods@, sample@, 0),
                sample@.contains_key("payment_methods"@),
                sample@["payment_methods"@] == method@,
                match kind {
                    Some(k) => sample@.contains_key("payment_method_type"@)
                        && sample@["payment_method_type"@] == k@,
                    None => !sample@.contains_key("payment_method_type"@),
                },
                named_connector_rate(methods@, sample@, 0) == named_connector_rate(
                    methods@,
                    sample@,
                    i as int,
                ),
            decreases methods@.len() - i,
        {
            if methods[i].0 == *method {
                let found = match &methods[i].1 {
                    PaymentMethodTypes::Simple { sr } => Some(*sr),
                    PaymentMethodTypes::PaymentTypes(details) => find_named_type_rate(
                        details,
                        kind,
                        Ghost(sample@),
                    ),
                };
                if found.is_some() {
                    return found;
                }
            }
            i += 1;
        }
        None
    }

    /// The outcome of the transaction with the context `sample` at
    /// `connector`. It is decided as `call_evaluator` decides it, but the
    /// rule is found by comparing the sample's payment method and payment
    /// method type with the rule's, not by searching a text for them.
    pub fn evaluate(&self, connector: &Key, sample: &Context, rng: &mut StdRng) -> (r: Result<
        Status,
        SimulationError,
    >)
        ensures
            may_come_of(self.named_rate(connector@, sample@), self.fallback(), connector@, r),
    {
        settle(self.find_named_rate(connector, sample), self.default_status(), connector, rng)
    }
}

/// Without a payment method in the context no rule applies.
proof fn lemma_no_method_no_rate(
    methods: Seq<(Key, PaymentMethodTypes)>,
    sample: Map<Seq<char>, Seq<char>>,
    from: int,
)
    requires
        !sample.contains_key("payment_methods"@),
        0 <= from,
    ensures
        named_connector_rate(methods, sample, from) is None,
    decreases methods.len() - from,
{
    if from < methods.len() {
        lemma_no_method_no_rate(methods, sample, from + 1);
    }
}

/// Finds the first rule among `details` for the payment method type `kind`
/// or for the wildcard.
fn find_named_type_rate(
    details: &Vec<PaymentTypeDetails>,
    kind: Option<&Key>,
    Ghost(sample): Ghost<Map<Seq<char>, Seq<char>>>,
) -> (r: Option<u32>)
    requires
        match kind {
            Some(k) => sample.contains_key("payment_method_type"@) && sample["payment_method_type"@]
                == k@,
            None => !sample.contains_key("payment_method_type"@),
        },
    ensures
        r == named_type_rate(details@, sample, 0),
{
    let mut j: usize = 0;
    while j < details.len()
        invariant
            j <= details@.len(),
            match kind {
                Some(k) => sample.contains_key("payment_method_type"@)
                    && sample["payment_method_type"@] == k@,
                None => !sample.contains_key("payment_method_type"@),
            },
            named_type_rate(details@, sample, 0) == named_type_rate(details@, sample, j as int),
        decreases details@.len() - j,
    {
        let rule_kind = &details[j].payment_method_type;
        let named = match kind {
            Some(k) => *rule_kind == *k,
            None => false,
        };
        if named || is_wildcard(rule_kind) {
            return Some(details[j].sr);
        }
        j += 1;
    }
    None
}

/// The outcome for the rate `rate` of the rule that applies, if one does,
/// and the draw `success` that was made with that rate: the default where
/// no rule applies, an error where the rate lies above 100, and what the
/// draw says in every other case.
pub fn decide(rate: Option<u32>, success: bool, fallback: Status, connector: &Key) -> (r: Result<
    Status,
    SimulationError,
>)
    ensures
        match rate {
            None => r == Ok::<Status, SimulationError>(fallback),
            Some(sr) => if sr > 100 {
                r matches Err(error) && rejects_rate(error, connector@)
            } else {
                r == Ok::<Status, SimulationError>(
                    if success {
                        Status::Success
                    } else {
                        Status::Failure
                    },
                )
            },
        },
{
    match rate {
        Some(sr) => {
            if sr > 100 {
                let mut path: Vec<Key> = Vec::new();
                path.push(connector.clone());
                assert(key_texts(path@) =~= seq![connector@]);
                Err(SimulationError::ConfigInvalid { path, reason: ConfigFault::RateAboveHundred })
            } else {
                Ok(outcome_of(success))
            }
        },
        None => Ok(fallback),
    }
}

/// Decides the outcome once the rule is found: a draw is made with the
/// rule's rate, where there is a rule and its rate is a percentage.
fn settle(rate: Option<u32>, fallback: Status, connector: &Key, rng: &mut StdRng) -> (r: Result<
    Status,
    SimulationError,
>)
    ensures
        may_come_of(rate, fallback, connector@, r),
{
    let success = match rate {
        Some(sr) => if sr <= 100 {
            draw_ratio(rng, sr, 100)
        } else {
            false
        },
        None => false,
    };
    decide(rate, success, fallback, connector)
}

/// Tells whether `kind` is the wildcard `*`.
pub fn is_wildcard(kind: &Key) -> (r: bool)
    ensures
        r == (kind@ == "*"@),
{
    let star = String::from_str("*");
    kind.0 == star
}

/// The outcome that a draw stands for.
pub fn outcome_of(success: bool) -> (r: Status)
    ensures
        r == if success {
            Status::Success
        } else {
            Status::Failure
        },
{
    if success {
        Status::Success
    } else {
        Status::Failure
    }
}

/// `error` rejects a success rate above 100 at `connector`.
pub open spec fn rejects_rate(error: SimulationError, connector: Seq<char>) -> bool {
    &&& error matches SimulationError::ConfigInvalid { path, reason }
    &&& reason == ConfigFault::RateAboveHundred
    &&& key_texts(path@) == seq![connector]
}

/// `outcome` can come of the rate `rate` of the rule that applies, if one
/// does: the default where no rule applies, an error where the rate lies
/// above 100, a success for a rate of 100, a failure for a rate of 0, and
/// either of the two for any rate between.
pub open spec fn may_come_of(
    rate: Option<u32>,
    fallback: Status,
    connector: Seq<char>,
    outcome: Result<Status, SimulationError>,
) -> bool {
    match rate {
        None => outcome == Ok::<Status, SimulationError>(fallback),
        Some(sr) => if sr > 100 {
            outcome matches Err(error) && rejects_rate(error, connector)
        } else {
            &&& outcome is Ok
            &&& sr == 100 ==> outcome == Ok::<Status, SimulationError>(Status::Success)
            &&& sr == 0 ==> outcome == Ok::<Status, SimulationError>(Status::Failure)
        },
    }
}

/// Something that decides the outcome of a transaction at a connector.
pub trait Evaluator {
    /// The outcome of the transaction `user_sample` at `connector`.
    fn call_evaluator(&self, connector: &Key, user_sample: &str, rng: &mut StdRng) -> Result<
        Status,
        SimulationError,
    >;
}

impl Evaluator for PspSimulationConfig {
    /// Where a rule applies, the outcome is a success with the probability
    /// that the rule's rate gives, in percent; where none applies, or the
    /// connector is unknown, it is the configured default.
    ///
    /// A rate of 100 always succeeds and a rate of 0 always fails. A rate
    /// above 100 is rejected.
    fn call_evaluator(&self, connector: &Key, user_sample: &str, rng: &mut StdRng) -> (r: Result<
        Status,
        SimulationError,
    >)
        ensures
            may_come_of(
                self.matching_rate(connector@, user_sample@),
                self.fallback(),
                connector@,
                r,
            ),
    {
        settle(self.find_rate(connector, user_sample), self.default_status(), connector, rng)
    }
}

} // verus!

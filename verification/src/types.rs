//! The configuration model: the user tree that transactions are sampled from,
//! the connectors' success rates, and what each connector supports.
//!
//! Every mapping is an ordered list of entries. The order of the list is the
//! order in which the entries are visited, so that a run is repeatable.

use crate::key::{all_distinct, keys_distinct, Key};
use vstd::prelude::*;
use vstd::string::StringExecFns;

verus! {

/// The `Value` type of the `serde_json` crate: a JSON value that is carried
/// along and never read.
#[verifier::external_type_specification]
#[verifier::external_body]
pub struct ExJsonValue(serde_json::Value);

/// The outcome of one transaction.
#[derive(Debug, Clone, Copy, PartialEq, Eq, Structural, Hash)]
pub enum Status {
    Success,
    Failure,
}

/// The bounds, both included, between which an amount is drawn.
#[derive(Debug, Clone, Copy)]
pub struct AmountRange {
    pub min: u32,
    pub max: u32,
}

/// The amount range of a configuration that names none.
pub fn default_amount() -> (r: Option<AmountRange>)
    ensures
        r == Some(AmountRange { min: 0, max: 2000 }),
{
    Some(AmountRange { min: 0, max: 2000 })
}

/// What a configuration can be rejected for.
#[derive(Debug, Clone, Copy, PartialEq, Eq, Structural)]
pub enum ConfigFault {
    /// The percentages of a node's children do not add up to 100.
    TotalNotHundred,
    /// The lower bound of the amount range lies above the upper one.
    EmptyAmountRange,
    /// A success rate lies above 100.
    RateAboveHundred,
}

/// Why a sample could not be drawn or a transaction not be evaluated.
#[derive(Debug)]
pub enum SimulationError {
    /// The configuration is unusable; `path` leads from the root to the
    /// offending node.
    ConfigInvalid { path: Vec<Key>, reason: ConfigFault },
    /// A draw fell beyond the last child of a node.
    SamplerExhausted,
}

/// The characters of each key of a list.
pub open spec fn key_texts(keys: Seq<Key>) -> Seq<Seq<char>> {
    keys.map_values(|k: Key| k@)
}

/// One level of attributes; each attribute is decided by its own choice node.
#[derive(Debug)]
pub struct SimulationConfig(pub Vec<(Key, PaymentMethods)>);

/// A choice node: the values an attribute can take, each with its share.
#[derive(Debug)]
pub struct PaymentMethods(pub Vec<(Key, PaymentMethodDetails)>);

/// The share of one value, in percent, and what is sampled after it.
#[derive(Debug)]
pub enum PaymentMethodDetails {
    /// A leaf: the value is chosen and nothing follows.
    Percentage(u8),
    /// The value is chosen and then `next` is sampled further.
    Composite { percentage: u8, next: SimulationConfig, extra_fields: Option<Vec<(Key, serde_json::Value)>> },
}

/// The user side of the simulation.
#[derive(Debug)]
pub struct UserSimulationConfig {
    pub amount: Option<AmountRange>,
    pub currency: Option<String>,
    pub payment_methods: SimulationConfig,
    pub extra_fields: Option<Vec<(Key, serde_json::Value)>>,
}

impl PaymentMethodDetails {
    /// The share of this value, in percent.
    pub open spec fn share(self) -> nat {
        match self {
            PaymentMethodDetails::Percentage(p) => p as nat,
            PaymentMethodDetails::Composite { percentage, .. } => percentage as nat,
        }
    }

    /// The share of this value, in percent.
    pub fn percentage(&self) -> (r: u8)
        ensures
            r == self.share(),
    {
        match self {
            PaymentMethodDetails::Percentage(p) => *p,
            PaymentMethodDetails::Composite { percentage, .. } => *percentage,
        }
    }
}

/// The sum of the shares of the first `n` children.
pub open spec fn share_sum(children: Seq<(Key, PaymentMethodDetails)>, n: int) -> nat
    decreases n,
{
    if n <= 0 {
        0
    } else {
        share_sum(children, n - 1) + children[n - 1].1.share()
    }
}

/// The sum of shares grows with the number of children counted, and `n`
/// children have at most `255 * n` between them.
pub proof fn lemma_share_sum_monotone(children: Seq<(Key, PaymentMethodDetails)>, m: int, n: int)
    requires
        0 <= m <= n,
    ensures
        share_sum(children, m) <= share_sum(children, n),
        share_sum(children, n) <= 255 * n,
    decreases n,
{
    if n > 0 {
        if m < n {
            lemma_share_sum_monotone(children, m, n - 1);
        } else {
            lemma_share_sum_monotone(children, m - 1, n - 1);
        }
    }
}

impl PaymentMethods {
    /// The sum of the shares of all children.
    pub open spec fn total(self) -> nat {
        share_sum(self.0@, self.0@.len() as int)
    }

    /// At this node and at every node below it the shares add up to 100.
    pub open spec fn valid(self) -> bool
        decreases self,
    {
        &&& self.total() == 100
        &&& forall|i: int|
            0 <= i < self.0@.len() ==> match (#[trigger] self.0@[i]).1 {
                PaymentMethodDetails::Percentage(_) => true,
                PaymentMethodDetails::Composite { next, .. } => next.valid(),
            }
    }

    /// The path to the first faulty node at or below this one, looking at
    /// the children from `from` on and at this node last.
    pub open spec fn fault_from(self, from: int) -> Option<Seq<Seq<char>>>
        decreases self, self.0@.len() - from,
    {
        if from < 0 || from >= self.0@.len() {
            if self.total() == 100 {
                None
            } else {
                Some(Seq::empty())
            }
        } else {
            match self.0@[from].1 {
                PaymentMethodDetails::Percentage(_) => self.fault_from(from + 1),
                PaymentMethodDetails::Composite { next, .. } => match next.fault_from(0) {
                    Some(path) => Some(seq![self.0@[from].0@] + path),
                    None => self.fault_from(from + 1),
                },
            }
        }
    }

    /// The path to the first faulty node at or below this one. Nodes below
    /// are looked at before the node itself, children in their order.
    pub open spec fn first_fault(self) -> Option<Seq<Seq<char>>> {
        self.fault_from(0)
    }
}

impl SimulationConfig {
    /// At every node of this level and below the shares add up to 100.
    pub open spec fn valid(self) -> bool
        decreases self,
    {
        forall|i: int| 0 <= i < self.0@.len() ==> (#[trigger] self.0@[i]).1.valid()
    }

    /// The path to the first faulty node below this level, looking at the
    /// attributes from `from` on.
    pub open spec fn fault_from(self, from: int) -> Option<Seq<Seq<char>>>
        decreases self, self.0@.len() - from,
    {
        if from < 0 || from >= self.0@.len() {
            None
        } else {
            match self.0@[from].1.fault_from(0) {
                Some(path) => Some(seq![self.0@[from].0@] + path),
                None => self.fault_from(from + 1),
            }
        }
    }

    /// The path to the first faulty node below this level.
    pub open spec fn first_fault(self) -> Option<Seq<Seq<char>>> {
        self.fault_from(0)
    }
}

impl PaymentMethods {
    /// No value occurs twice at this node, and no attribute or value occurs
    /// twice at any node below it.
    pub open spec fn unique(self) -> bool
        decreases self,
    {
        &&& keys_distinct(self.0@)
        &&& forall|i: int|
            0 <= i < self.0@.len() ==> match (#[trigger] self.0@[i]).1 {
                PaymentMethodDetails::Percentage(_) => true,
                PaymentMethodDetails::Composite { next, .. } => next.unique(),
            }
    }

    /// Tells whether no value occurs twice at this node, and no attribute
    /// or value at any node below it.
    pub fn is_unique(&self) -> (r: bool)
        ensures
            r == self.unique(),
        decreases self,
    {
        if !all_distinct(&self.0) {
            return false;
        }
        let mut i: usize = 0;
        while i < self.0.len()
            invariant
                i <= self.0@.len(),
                keys_distinct(self.0@),
                forall|j: int|
                    0 <= j < i ==> match (#[trigger] self.0@[j]).1 {
                        PaymentMethodDetails::Percentage(_) => true,
                        PaymentMethodDetails::Composite { next, .. } => next.unique(),
                    },
            decreases self.0@.len() - i,
        {
            match &self.0[i].1 {
                PaymentMethodDetails::Percentage(_) => {},
                PaymentMethodDetails::Composite { next, .. } => {
                    if !next.is_unique() {
                        return false;
                    }
                },
            }
            i += 1;
        }
        true
    }
}

impl SimulationConfig {
    /// No attribute occurs twice at this level, and no attribute or value
    /// occurs twice at any node below it.
    pub open spec fn unique(self) -> bool
        decreases self,
    {
        &&& keys_distinct(self.0@)
        &&& forall|i: int| 0 <= i < self.0@.len() ==> (#[trigger] self.0@[i]).1.unique()
    }

    /// Tells whether no attribute occurs twice at this level, and no
    /// attribute or value at any node below it.
    pub fn is_unique(&self) -> (r: bool)
        ensures
            r == self.unique(),
        decreases self,
    {
        if !all_distinct(&self.0) {
            return false;
        }
        let mut i: usize = 0;
        while i < self.0.len()
            invariant
                i <= self.0@.len(),
                keys_distinct(self.0@),
                forall|j: int| 0 <= j < i ==> (#[trigger] self.0@[j]).1.unique(),
            decreases self.0@.len() - i,
        {
            if !self.0[i].1.is_unique() {
                return false;
            }
            i += 1;
        }
        true
    }
}

/// Puts `key` in front of the path of a rejected configuration.
fn under_key(key: &Key, error: SimulationError) -> (r: SimulationError)
    ensures
        match error {
            SimulationError::ConfigInvalid { path, reason } => r matches SimulationError::ConfigInvalid {
                path: longer,
                reason: same,
            } && same == reason && key_texts(longer@) == seq![key@] + key_texts(path@),
            SimulationError::SamplerExhausted => r is SamplerExhausted,
        },
{
    match error {
        SimulationError::ConfigInvalid { path, reason } => {
            let mut longer = path;
            let ghost before = longer@;
            longer.insert(0, key.clone());
            assert(key_texts(longer@) =~= seq![key@] + key_texts(before));
            SimulationError::ConfigInvalid { path: longer, reason }
        },
        SimulationError::SamplerExhausted => SimulationError::SamplerExhausted,
    }
}

/// `error` rejects a configuration for its shares, at the node that `fault`
/// leads to.
pub open spec fn reports_fault(error: SimulationError, fault: Option<Seq<Seq<char>>>) -> bool {
    &&& error matches SimulationError::ConfigInvalid { path, reason }
    &&& reason == ConfigFault::TotalNotHundred
    &&& fault == Some(key_texts(path@))
}

impl PaymentMethods {
    /// No fault is found from child `from` on exactly when the shares add up
    /// to 100 here and everything below those children is valid.
    pub proof fn lemma_fault_from(self, from: int)
        requires
            0 <= from <= self.0@.len(),
        ensures
            self.fault_from(from) is None <==> (self.total() == 100 && forall|i: int|
                from <= i < self.0@.len() ==> match (#[trigger] self.0@[i]).1 {
                    PaymentMethodDetails::Percentage(_) => true,
                    PaymentMethodDetails::Composite { next, .. } => next.valid(),
                }),
        decreases self, self.0@.len() - from,
    {
        if from < self.0@.len() {
            self.lemma_fault_from(from + 1);
            match self.0@[from].1 {
                PaymentMethodDetails::Percentage(_) => {},
                PaymentMethodDetails::Composite { next, .. } => {
                    next.lemma_fault_from(0);
                },
            }
        }
    }

    /// A choice node is valid exactly when no faulty node is found in it.
    pub proof fn lemma_valid_iff_no_fault(self)
        ensures
            self.valid() <==> self.first_fault() is None,
    {
        self.lemma_fault_from(0);
    }

    /// Checks that the shares add up to 100 at this node and at every node
    /// below it, and names the first node where they do not.
    pub fn validate(&self) -> (r: Result<(), SimulationError>)
        ensures
            r is Ok <==> self.valid(),
            r matches Err(error) ==> reports_fault(error, self.first_fault()),
        decreases self,
    {
        let mut total: u128 = 0;
        let mut i: usize = 0;
        while i < self.0.len()
            invariant
                i <= self.0@.len(),
                total == share_sum(self.0@, i as int),
                total <= 255 * i,
                self.fault_from(0) == self.fault_from(i as int),
            decreases self.0@.len() - i,
        {
            match &self.0[i].1 {
                PaymentMethodDetails::Percentage(p) => {
                    total = total + *p as u128;
                },
                PaymentMethodDetails::Composite { percentage, next, .. } => {
                    total = total + *percentage as u128;
                    match next.validate() {
                        Ok(_) => {
                            proof {
                                next.lemma_valid_iff_no_fault();
                            }
                        },
                        Err(error) => {
                            proof {
                                next.lemma_valid_iff_no_fault();
                                self.lemma_valid_iff_no_fault();
                            }
                            return Err(under_key(&self.0[i].0, error));
                        },
                    }
                },
            }
            i += 1;
        }
        proof {
            self.lemma_valid_iff_no_fault();
        }
        if total == 100 {
            Ok(())
        } else {
            let path: Vec<Key> = Vec::new();
            assert(key_texts(path@) =~= Seq::<Seq<char>>::empty());
            Err(SimulationError::ConfigInvalid { path, reason: ConfigFault::TotalNotHundred })
        }
    }
}

impl SimulationConfig {
    /// No fault is found from attribute `from` on exactly when every choice
    /// node from there on is valid.
    pub proof fn lemma_fault_from(self, from: int)
        requires
            0 <= from <= self.0@.len(),
        ensures
            self.fault_from(from) is None <==> (forall|i: int|
                from <= i < self.0@.len() ==> (#[trigger] self.0@[i]).1.valid()),
        decreases self, self.0@.len() - from,
    {
        if from < self.0@.len() {
            self.lemma_fault_from(from + 1);
            self.0@[from].1.lemma_fault_from(0);
        }
    }

    /// A level is valid exactly when no faulty node is found below it.
    pub proof fn lemma_valid_iff_no_fault(self)
        ensures
            self.valid() <==> self.first_fault() is None,
    {
        self.lemma_fault_from(0);
    }

    /// Checks every choice node of this level and below, and names the first
    /// one whose shares do not add up to 100.
    pub fn validate(&self) -> (r: Result<(), SimulationError>)
        ensures
            r is Ok <==> self.valid(),
            r matches Err(error) ==> reports_fault(error, self.first_fault()),
        decreases self,
    {
        let mut i: usize = 0;
        while i < self.0.len()
            invariant
                i <= self.0@.len(),
                self.fault_from(0) == self.fault_from(i as int),
            decreases self.0@.len() - i,
        {
            match self.0[i].1.validate() {
                Ok(_) => {
                    proof {
                        self.0@[i as int].1.lemma_valid_iff_no_fault();
                    }
                },
                Err(error) => {
                    proof {
                        self.0@[i as int].1.lemma_valid_iff_no_fault();
                        self.lemma_valid_iff_no_fault();
                    }
                    return Err(under_key(&self.0[i].0, error));
                },
            }
            i += 1;
        }
        proof {
            self.lemma_valid_iff_no_fault();
        }
        Ok(())
    }
}

impl UserSimulationConfig {
    /// The range that amounts are drawn from: the configured one, or 0 to
    /// 2000.
    pub open spec fn amount_range(self) -> AmountRange {
        match self.amount {
            Some(range) => range,
            None => AmountRange { min: 0, max: 2000 },
        }
    }

    /// The amount range is not empty and the shares add up to 100 at every
    /// node of the tree.
    pub open spec fn valid(self) -> bool {
        &&& self.amount_range().min <= self.amount_range().max
        &&& self.payment_methods.valid()
    }

    /// Checks the amount range, then the tree.
    pub fn validate(&self) -> (r: Result<(), SimulationError>)
        ensures
            r is Ok <==> self.valid(),
            r matches Err(error) ==> if self.amount_range().min > self.amount_range().max {
                &&& error matches SimulationError::ConfigInvalid { path, reason }
                &&& reason == ConfigFault::EmptyAmountRange
                &&& key_texts(path@) == seq!["amount"@]
            } else {
                reports_fault(error, self.payment_methods.first_fault())
            },
    {
        match &self.amount {
            Some(range) => {
                if range.min > range.max {
                    let mut path: Vec<Key> = Vec::new();
                    path.push(Key::new("amount"));
                    assert(key_texts(path@) =~= seq!["amount"@]);
                    return Err(
                        SimulationError::ConfigInvalid {
                            path,
                            reason: ConfigFault::EmptyAmountRange,
                        },
                    );
                }
            },
            None => {},
        }
        self.payment_methods.validate()
    }
}

/// The connectors' side of the simulation: how often each of them succeeds,
/// and the outcome where no rule applies.
#[derive(Debug)]
pub struct PspSimulationConfig {
    pub psp_variants: Vec<(Key, PspDetails)>,
    pub otherwise: Option<String>,
}

/// The rules of one connector, by payment method.
#[derive(Debug)]
pub struct PspDetails {
    pub payment_methods: Vec<(Key, PaymentMethodTypes)>,
    pub psp_time_config: Option<PspTimeConfig>,
}

/// The rules for one payment method: one success rate for the whole method,
/// or one per payment method type.
#[derive(Debug)]
pub enum PaymentMethodTypes {
    PaymentTypes(Vec<PaymentTypeDetails>),
    Simple { sr: u32 },
}

/// The success rate, in percent, for one payment method type.
#[derive(Debug)]
pub struct PaymentTypeDetails {
    pub payment_method_type: Key,
    pub sr: u32,
}

/// Latency parameters of a connector. Nothing reads them yet.
#[derive(Debug, Clone, Copy)]
pub struct PspTimeConfig {
    pub mean: u32,
    pub stddev: u32,
}

impl PspSimulationConfig {
    /// The outcome where no rule applies: success where the configuration
    /// says `success`, failure in every other case.
    pub open spec fn fallback(self) -> Status {
        match self.otherwise {
            Some(word) => if word@ == "success"@ {
                Status::Success
            } else {
                Status::Failure
            },
            None => Status::Failure,
        }
    }

    /// The outcome where no rule applies.
    pub fn default_status(&self) -> (r: Status)
        ensures
            r == self.fallback(),
    {
        match &self.otherwise {
            Some(word) => {
                let success = String::from_str("success");
                if *word == success {
                    Status::Success
                } else {
                    Status::Failure
                }
            },
            None => Status::Failure,
        }
    }
}

/// What each connector of the merchant supports.
#[derive(Debug)]
pub struct MerchantConfig {
    pub connectors_list: Vec<(Key, ConnectorDetails)>,
    pub extra_fields: Option<Vec<(Key, serde_json::Value)>>,
}

/// The payment methods that one connector supports.
#[derive(Debug)]
pub struct ConnectorDetails {
    pub supported_payment_methods: Vec<(Key, PaymentMethodConfig)>,
}

/// The payment method types supported within one payment method; `*` stands
/// for all of them.
#[derive(Debug)]
pub struct PaymentMethodConfig {
    pub payment_method_types: Option<Vec<String>>,
    pub supported_behaviours: Option<Vec<(Key, serde_json::Value)>>,
}

/// The whole configuration of a run.
#[derive(Debug)]
pub struct Config {
    pub user: UserSimulationConfig,
    pub psp: PspSimulationConfig,
    pub merchant: MerchantConfig,
}

/// One evaluated transaction, as it is handed to the recorder.
/// `payment_data` holds the sampled context as JSON text.
#[derive(Debug)]
pub struct PaymentRecorderData {
    pub connector: Key,
    pub verdict: Status,
    pub payment_data: Key,
}

impl PaymentRecorderData {
    /// Puts the three parts together.
    pub fn set_values(connector: Key, verdict: Status, payment_data: Key) -> (r: Self)
        ensures
            r.connector == connector,
            r.verdict == verdict,
            r.payment_data == payment_data,
    {
        PaymentRecorderData { connector, verdict, payment_data }
    }
}

impl PspSimulationConfig {
    /// No connector occurs twice, and for no connector a payment method.
    pub open spec fn unique(self) -> bool {
        &&& keys_distinct(self.psp_variants@)
        &&& forall|i: int|
            0 <= i < self.psp_variants@.len() ==> keys_distinct(
                (#[trigger] self.psp_variants@[i]).1.payment_methods@,
            )
    }

    /// Tells whether no connector occurs twice, and for no connector a
    /// payment method.
    pub fn is_unique(&self) -> (r: bool)
        ensures
            r == self.unique(),
    {
        if !all_distinct(&self.psp_variants) {
            return false;
        }
        let mut i: usize = 0;
        while i < self.psp_variants.len()
            invariant
                i <= self.psp_variants@.len(),
                keys_distinct(self.psp_variants@),
                forall|j: int|
                    0 <= j < i ==> keys_distinct(
                        (#[trigger] self.psp_variants@[j]).1.payment_methods@,
                    ),
            decreases self.psp_variants@.len() - i,
        {
            if !all_distinct(&self.psp_variants[i].1.payment_methods) {
                return false;
            }
            i += 1;
        }
        true
    }
}

impl MerchantConfig {
    /// No connector occurs twice, and for no connector a payment method.
    pub open spec fn unique(self) -> bool {
        &&& keys_distinct(self.connectors_list@)
        &&& forall|i: int|
            0 <= i < self.connectors_list@.len() ==> keys_distinct(
                (#[trigger] self.connectors_list@[i]).1.supported_payment_methods@,
            )
    }

    /// Tells whether no connector occurs twice, and for no connector a
    /// payment method.
    pub fn is_unique(&self) -> (r: bool)
        ensures
            r == self.unique(),
    {
        if !all_distinct(&self.connectors_list) {
            return false;
        }
        let mut i: usize = 0;
        while i < self.connectors_list.len()
            invariant
                i <= self.connectors_list@.len(),
                keys_distinct(self.connectors_list@),
                forall|j: int|
                    0 <= j < i ==> keys_distinct(
                        (#[trigger] self.connectors_list@[j]).1.supported_payment_methods@,
                    ),
            decreases self.connectors_list@.len() - i,
        {
            if !all_distinct(&self.connectors_list[i].1.supported_payment_methods) {
                return false;
            }
            i += 1;
        }
        true
    }
}

impl Config {
    /// Every mapping of the configuration is one: no key occurs twice in
    /// it.
    pub open spec fn unique(self) -> bool {
        &&& self.user.payment_methods.unique()
        &&& self.psp.unique()
        &&& self.merchant.unique()
    }

    /// Tells whether no key occurs twice in any mapping of the
    /// configuration.
    pub fn is_unique(&self) -> (r: bool)
        ensures
            r == self.unique(),
    {
        self.user.payment_methods.is_unique() && self.psp.is_unique() && self.merchant.is_unique()
    }
}

} // verus!

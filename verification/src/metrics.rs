//! The metrics of a run: how many transactions succeeded and failed, by
//! connector, payment method and payment method type, and the report made
//! of them.

use crate::cells::{
    bump_connector, cell_lines, connector_cell, connector_weights, connectors_distinct,
    connectors_total, count_methods, hit, lemma_connectors_successes_bounded,
    lemma_methods_successes_bounded, level_lines, method_weights, methods_distinct, methods_total,
    methods_under, rate_lines_of_methods, tally, tree_lines, tree_shares, type_weights,
    types_below, types_total, ConnectorLevel, MethodLevel,
};
use crate::key::{
    find_key, has_key, key_names, lemma_key_position, lemma_value_at_entry, with_name, Key,
};
use crate::types::Status;
use vstd::prelude::*;

verus! {

/// The first `n` of `values`, added up.
pub open spec fn sum_to(values: Seq<nat>, n: int) -> nat
    decreases n,
{
    if n <= 0 {
        0
    } else {
        sum_to(values, n - 1) + values[n - 1]
    }
}

/// Lists that agree on their first `n` values have the same sum there.
pub proof fn lemma_sum_agrees(a: Seq<nat>, b: Seq<nat>, n: int)
    requires
        forall|i: int| 0 <= i < n ==> a[i] == b[i],
    ensures
        sum_to(a, n) == sum_to(b, n),
    decreases n,
{
    if n > 0 {
        lemma_sum_agrees(a, b, n - 1);
    }
}

/// A sum grows with the number of values added up, and holds each of them.
pub proof fn lemma_sum_grows(values: Seq<nat>, m: int, n: int)
    requires
        0 <= m <= n,
    ensures
        sum_to(values, m) <= sum_to(values, n),
        m < n ==> sum_to(values, m) + values[m] <= sum_to(values, n),
    decreases n - m,
{
    if m < n {
        lemma_sum_grows(values, m + 1, n);
    }
}

/// Replacing one value shifts the sum by the difference.
pub proof fn lemma_sum_replaced(values: Seq<nat>, i: int, value: nat, n: int)
    requires
        0 <= i < n <= values.len(),
    ensures
        sum_to(values.update(i, value), n) + values[i] == sum_to(values, n) + value,
    decreases n,
{
    if n - 1 > i {
        lemma_sum_replaced(values, i, value, n - 1);
    } else {
        lemma_sum_agrees(values.update(i, value), values, i);
    }
}

/// Of two lists, where no value of the first exceeds the value of the second
/// in its place, the first has the smaller sum.
pub proof fn lemma_sum_ordered(a: Seq<nat>, b: Seq<nat>, n: int)
    requires
        forall|i: int| 0 <= i < n ==> a[i] <= b[i],
    ensures
        sum_to(a, n) <= sum_to(b, n),
    decreases n,
{
    if n > 0 {
        lemma_sum_ordered(a, b, n - 1);
    }
}

/// One cell of the tree and one of the two outcomes.
pub type Counter = (Seq<char>, Seq<char>, Seq<char>, Status);

/// One line of the report, as plain values.
pub struct RateLineView {
    pub connector: Seq<char>,
    pub payment_method: Option<Seq<char>>,
    pub payment_method_type: Option<Seq<char>>,
    pub successes: nat,
    pub total: nat,
}

/// The successes among the outcomes of one connector, of one of its payment
/// methods, or of one payment method type within that.
#[derive(Debug)]
pub struct RateLine {
    pub connector: String,
    pub payment_method: Option<String>,
    pub payment_method_type: Option<String>,
    pub successes: usize,
    pub total: usize,
}

/// The characters of a string that may be missing.
pub open spec fn text_of(text: Option<String>) -> Option<Seq<char>> {
    match text {
        Some(text) => Some(text@),
        None => None,
    }
}

impl View for RateLine {
    type V = RateLineView;

    open spec fn view(&self) -> RateLineView {
        RateLineView {
            connector: self.connector@,
            payment_method: text_of(self.payment_method),
            payment_method_type: text_of(self.payment_method_type),
            successes: self.successes as nat,
            total: self.total as nat,
        }
    }
}

/// Each line of a list as plain values.
pub open spec fn line_views(lines: Seq<RateLine>) -> Seq<RateLineView> {
    lines.map_values(|line: RateLine| line@)
}

/// No line holds more successes than outcomes.
pub open spec fn lines_bounded(lines: Seq<RateLine>) -> bool {
    forall|i: int| 0 <= i < lines.len() ==> (#[trigger] lines[i]).successes <= lines[i].total
}

/// The share of the traffic that one connector took.
#[derive(Debug)]
pub struct TrafficShare {
    pub connector: String,
    pub transactions: usize,
}

/// The report of a run.
///
/// `rates` holds, connector by connector, the connector's line, then for
/// each of its payment methods the method's line and the lines of its types.
/// `shares` holds the number of transactions of each connector, to be set
/// against `total_transactions`.
#[derive(Debug)]
pub struct Report {
    pub rates: Vec<RateLine>,
    pub shares: Vec<TrafficShare>,
    pub total_transactions: usize,
    pub total_successes: usize,
}

/// The connector and the number of transactions of each share.
pub open spec fn share_views(shares: Seq<TrafficShare>) -> Seq<(Seq<char>, nat)> {
    shares.map_values(|share: TrafficShare| (share.connector@, share.transactions as nat))
}

/// A rate in hundredths of a percent, rounded down; none where `total` is
/// zero.
pub open spec fn rate_of(part: nat, total: nat) -> Option<nat> {
    if total == 0 {
        None
    } else {
        Some(part * 10000 / total)
    }
}

/// The rate of `part` in `total`, in hundredths of a percent and rounded
/// down. There is no rate where `total` is zero.
pub fn success_rate(part: usize, total: usize) -> (r: Option<u32>)
    requires
        part <= total,
    ensures
        match r {
            Some(rate) => rate_of(part as nat, total as nat) == Some(rate as nat) && rate <= 10000,
            None => total == 0,
        },
{
    if total == 0 {
        None
    } else {
        let scaled: u128 = part as u128 * 10000;
        let rate: u128 = scaled / total as u128;
        assert(rate <= 10000) by (nonlinear_arith)
            requires
                rate == scaled / total as u128,
                scaled == part * 10000,
                part <= total,
                total > 0,
        ;
        Some(rate as u32)
    }
}

/// The counts of a run, by connector, payment method, payment method type
/// and outcome.
///
/// Counts only grow, and no cell is ever removed. The connectors, the
/// methods within a connector and the types within a method keep the order
/// in which they were first counted.
#[derive(Debug)]
pub struct Metrics {
    key: ConnectorLevel,
    recorded: usize,
}

impl View for Metrics {
    type V = Map<Counter, nat>;

    /// Every counter with its count; a counter never counted holds zero.
    open spec fn view(&self) -> Map<Counter, nat> {
        Map::total(|counter: Counter| self.count(counter.0, counter.1, counter.2, counter.3))
    }
}

impl Metrics {
    #[verifier::type_invariant]
    spec fn consistent(self) -> bool {
        &&& connectors_distinct(self.key@)
        &&& self.recorded == connectors_total(self.key@, false)
    }

    /// The number of outcomes counted so far.
    pub closed spec fn events(self) -> nat {
        self.recorded as nat
    }

    /// How often `verdict` was counted for `connector`, `method` and `kind`.
    pub closed spec fn count(
        self,
        connector: Seq<char>,
        method: Seq<char>,
        kind: Seq<char>,
        verdict: Status,
    ) -> nat {
        tally(connector_cell(self.key@, connector, method, kind), verdict)
    }

    /// The connectors counted so far, in the order in which they were first
    /// counted.
    pub closed spec fn connector_names(self) -> Seq<Seq<char>> {
        key_names(self.key@)
    }

    /// The payment methods counted for `connector`, in the order in which
    /// they were first counted.
    pub closed spec fn method_names(self, connector: Seq<char>) -> Seq<Seq<char>> {
        methods_under(self.key@, connector)
    }

    /// The payment method types counted for `connector` and `method`, in
    /// the order in which they were first counted.
    pub closed spec fn type_names(self, connector: Seq<char>, method: Seq<char>) -> Seq<Seq<char>> {
        types_below(self.key@, connector, method)
    }

    /// The successes, or all the outcomes, counted in one cell.
    pub open spec fn cell_total(
        self,
        connector: Seq<char>,
        method: Seq<char>,
        kind: Seq<char>,
        only_successes: bool,
    ) -> nat {
        if only_successes {
            self.count(connector, method, kind, Status::Success)
        } else {
            self.count(connector, method, kind, Status::Success) + self.count(
                connector,
                method,
                kind,
                Status::Failure,
            )
        }
    }

    /// The totals of the cells of one payment method, type by type.
    pub open spec fn cell_totals(
        self,
        connector: Seq<char>,
        method: Seq<char>,
        only_successes: bool,
    ) -> Seq<nat> {
        Seq::new(
            self.type_names(connector, method).len(),
            |k: int|
                self.cell_total(
                    connector,
                    method,
                    self.type_names(connector, method)[k],
                    only_successes,
                ),
        )
    }

    /// The successes, or all the outcomes, counted for one payment method
    /// of one connector.
    pub open spec fn method_total(
        self,
        connector: Seq<char>,
        method: Seq<char>,
        only_successes: bool,
    ) -> nat {
        sum_to(
            self.cell_totals(connector, method, only_successes),
            self.type_names(connector, method).len() as int,
        )
    }

    /// The totals of the payment methods of one connector, method by
    /// method.
    pub open spec fn method_totals(self, connector: Seq<char>, only_successes: bool) -> Seq<nat> {
        Seq::new(
            self.method_names(connector).len(),
            |j: int| self.method_total(connector, self.method_names(connector)[j], only_successes),
        )
    }

    /// The successes, or all the outcomes, counted for one connector.
    pub open spec fn connector_total(self, connector: Seq<char>, only_successes: bool) -> nat {
        sum_to(
            self.method_totals(connector, only_successes),
            self.method_names(connector).len() as int,
        )
    }

    /// The totals of the connectors, connector by connector.
    pub open spec fn connector_totals(self, only_successes: bool) -> Seq<nat> {
        Seq::new(
            self.connector_names().len(),
            |i: int| self.connector_total(self.connector_names()[i], only_successes),
        )
    }

    /// The successes, or all the outcomes, counted in the whole run.
    pub open spec fn total(self, only_successes: bool) -> nat {
        sum_to(self.connector_totals(only_successes), self.connector_names().len() as int)
    }

    /// The lines of the first `n` payment method types of one payment
    /// method.
    pub open spec fn type_lines(self, connector: Seq<char>, method: Seq<char>, n: int) -> Seq<
        RateLineView,
    >
        decreases n,
    {
        if n <= 0 {
            Seq::empty()
        } else {
            let kind = self.type_names(connector, method)[n - 1];
            self.type_lines(connector, method, n - 1).push(
                RateLineView {
                    connector,
                    payment_method: Some(method),
                    payment_method_type: Some(kind),
                    successes: self.cell_total(connector, method, kind, true),
                    total: self.cell_total(connector, method, kind, false),
                },
            )
        }
    }

    /// The lines of the first `n` payment methods of one connector: for
    /// each of them its own line, then the lines of its types.
    pub open spec fn method_lines(self, connector: Seq<char>, n: int) -> Seq<RateLineView>
        decreases n,
    {
        if n <= 0 {
            Seq::empty()
        } else {
            let method = self.method_names(connector)[n - 1];
            self.method_lines(connector, n - 1).push(
                RateLineView {
                    connector,
                    payment_method: Some(method),
                    payment_method_type: None,
                    successes: self.method_total(connector, method, true),
                    total: self.method_total(connector, method, false),
                },
            ) + self.type_lines(
                connector,
                method,
                self.type_names(connector, method).len() as int,
            )
        }
    }

    /// The lines of the first `n` connectors: for each of them its own
    /// line, then the lines of its payment methods.
    pub open spec fn lines(self, n: int) -> Seq<RateLineView>
        decreases n,
    {
        if n <= 0 {
            Seq::empty()
        } else {
            let connector = self.connector_names()[n - 1];
            self.lines(n - 1).push(
                RateLineView {
                    connector,
                    payment_method: None,
                    payment_method_type: None,
                    successes: self.connector_total(connector, true),
                    total: self.connector_total(connector, false),
                },
            ) + self.method_lines(connector, self.method_names(connector).len() as int)
        }
    }

    /// Each connector with the number of its transactions.
    pub open spec fn shares(self) -> Seq<(Seq<char>, nat)> {
        Seq::new(
            self.connector_names().len(),
            |i: int| (self.connector_names()[i], self.connector_total(self.connector_names()[i], false)),
        )
    }

    /// What is counted under the types of method `j` of connector `i` is
    /// what the cells of that method hold.
    proof fn lemma_types_level(self, i: int, j: int, only: bool)
        requires
            connectors_distinct(self.key@),
            0 <= i < self.key@.len(),
            0 <= j < self.key@[i].1@.len(),
        ensures
            self.method_names(self.key@[i].0@) == key_names(self.key@[i].1@),
            self.type_names(self.key@[i].0@, self.key@[i].1@[j].0@) == key_names(
                self.key@[i].1@[j].1@,
            ),
            self.cell_totals(self.key@[i].0@, self.key@[i].1@[j].0@, only) == type_weights(
                self.key@[i].1@[j].1@,
                only,
            ),
            self.method_total(self.key@[i].0@, self.key@[i].1@[j].0@, only) == types_total(
                self.key@[i].1@[j].1@,
                only,
            ),
    {
        let c = self.key@[i].0@;
        let methods = self.key@[i].1@;
        let m = methods[j].0@;
        let types = methods[j].1@;
        lemma_value_at_entry(self.key@, i);
        assert(methods_distinct_at(self.key@, i));
        lemma_value_at_entry(methods, j);
        assert forall|k: int| 0 <= k < types.len() implies self.cell_totals(c, m, only)[k]
            == type_weights(types, only)[k] by {
            lemma_value_at_entry(types, k);
        }
        assert(self.cell_totals(c, m, only) =~= type_weights(types, only));
    }

    /// The lines of the types of method `j` of connector `i` are the lines
    /// of the cells of that method.
    proof fn lemma_type_lines(self, i: int, j: int, n: int)
        requires
            connectors_distinct(self.key@),
            0 <= i < self.key@.len(),
            0 <= j < self.key@[i].1@.len(),
            0 <= n <= self.key@[i].1@[j].1@.len(),
        ensures
            self.type_lines(self.key@[i].0@, self.key@[i].1@[j].0@, n) == cell_lines(
                self.key@[i].0@,
                self.key@[i].1@[j].0@,
                self.key@[i].1@[j].1@,
                n,
            ),
        decreases n,
    {
        if n > 0 {
            self.lemma_type_lines(i, j, n - 1);
            self.lemma_types_level(i, j, true);
            self.lemma_types_level(i, j, false);
            let c = self.key@[i].0@;
            let m = self.key@[i].1@[j].0@;
            let types = self.key@[i].1@[j].1@;
            assert(self.cell_totals(c, m, true)[n - 1] == type_weights(types, true)[n - 1]);
            assert(self.cell_totals(c, m, false)[n - 1] == type_weights(types, false)[n - 1]);
        }
    }

    /// What is counted under the methods of connector `i` is what the
    /// cells of that connector hold.
    proof fn lemma_methods_level(self, i: int, only: bool)
        requires
            connectors_distinct(self.key@),
            0 <= i < self.key@.len(),
        ensures
            self.method_names(self.key@[i].0@) == key_names(self.key@[i].1@),
            self.method_totals(self.key@[i].0@, only) == method_weights(self.key@[i].1@, only),
            self.connector_total(self.key@[i].0@, only) == methods_total(self.key@[i].1@, only),
    {
        let c = self.key@[i].0@;
        let methods = self.key@[i].1@;
        lemma_value_at_entry(self.key@, i);
        assert forall|j: int| 0 <= j < methods.len() implies self.method_totals(c, only)[j]
            == method_weights(methods, only)[j] by {
            self.lemma_types_level(i, j, only);
        }
        assert(self.method_totals(c, only) =~= method_weights(methods, only));
    }

    /// The lines of the methods of connector `i` are the lines of the cells
    /// of that connector.
    proof fn lemma_method_lines(self, i: int, n: int)
        requires
            connectors_distinct(self.key@),
            0 <= i < self.key@.len(),
            0 <= n <= self.key@[i].1@.len(),
        ensures
            self.method_lines(self.key@[i].0@, n) == level_lines(
                self.key@[i].0@,
                self.key@[i].1@,
                n,
            ),
        decreases n,
    {
        if n > 0 {
            self.lemma_method_lines(i, n - 1);
            self.lemma_types_level(i, n - 1, true);
            self.lemma_types_level(i, n - 1, false);
            self.lemma_type_lines(i, n - 1, self.key@[i].1@[n - 1].1@.len() as int);
        }
    }

    /// What is counted in the whole run is what the cells hold.
    proof fn lemma_tree_level(self, only: bool)
        requires
            connectors_distinct(self.key@),
        ensures
            self.connector_totals(only) == connector_weights(self.key@, only),
            self.total(only) == connectors_total(self.key@, only),
            only == false ==> self.shares() == tree_shares(self.key@, self.key@.len() as int),
    {
        assert forall|i: int| 0 <= i < self.key@.len() implies self.connector_totals(only)[i]
            == connector_weights(self.key@, only)[i] by {
            self.lemma_methods_level(i, only);
        }
        assert(self.connector_totals(only) =~= connector_weights(self.key@, only));
        if !only {
            assert forall|i: int| 0 <= i < self.key@.len() implies self.shares()[i] == tree_shares(
                self.key@,
                self.key@.len() as int,
            )[i] by {
                self.lemma_methods_level(i, false);
            }
            assert(self.shares() =~= tree_shares(self.key@, self.key@.len() as int));
        }
    }

    /// The lines of the run are the lines of the cells.
    proof fn lemma_lines(self, n: int)
        requires
            connectors_distinct(self.key@),
            0 <= n <= self.key@.len(),
        ensures
            self.lines(n) == tree_lines(self.key@, n),
        decreases n,
    {
        if n > 0 {
            self.lemma_lines(n - 1);
            self.lemma_methods_level(n - 1, true);
            self.lemma_methods_level(n - 1, false);
            self.lemma_method_lines(n - 1, self.key@[n - 1].1@.len() as int);
        }
    }

    /// The tree without any count.
    pub fn new() -> (r: Self)
        ensures
            r.events() == 0,
            r@ == Map::total(|counter: Counter| 0nat),
            r.connector_names() == Seq::<Seq<char>>::empty(),
            forall|c: Seq<char>| #[trigger] r.method_names(c) == Seq::<Seq<char>>::empty(),
            forall|c: Seq<char>, m: Seq<char>| #[trigger]
                r.type_names(c, m) == Seq::<Seq<char>>::empty(),
    {
        let r = Metrics { key: Vec::new(), recorded: 0 };
        assert(r@ =~= Map::total(|counter: Counter| 0nat)) by {
            assert forall|counter: Counter| #[trigger] r@[counter] == 0 by {
                assert(!has_key(r.key@, counter.0));
            }
        }
        assert(r.connector_names() =~= Seq::<Seq<char>>::empty());
        assert forall|c: Seq<char>| #[trigger] r.method_names(c) == Seq::<Seq<char>>::empty() by {
            assert(!has_key(r.key@, c));
        }
        assert forall|c: Seq<char>, m: Seq<char>| #[trigger]
            r.type_names(c, m) == Seq::<Seq<char>>::empty() by {
            assert(!has_key(r.key@, c));
        }
        r
    }

    /// The number of outcomes counted so far. It is the total of the run.
    pub fn total_events(&self) -> (r: usize)
        ensures
            r == self.events(),
            r == self.total(false),
    {
        proof {
            use_type_invariant(self);
            self.lemma_tree_level(false);
        }
        self.recorded
    }

    /// How often `verdict` was counted for `connector`, `method` and `kind`.
    pub fn counted(&self, connector: &Key, method: &Key, kind: &Key, verdict: Status) -> (r: usize)
        ensures
            r == self.count(connector@, method@, kind@, verdict),
    {
        proof {
            lemma_key_position(self.key@, connector@);
        }
        let methods = match find_key(&self.key, connector) {
            Some(i) => &self.key[i].1,
            None => {
                return 0;
            },
        };
        proof {
            lemma_key_position(methods@, method@);
        }
        let types = match find_key(methods, method) {
            Some(j) => &methods[j].1,
            None => {
                return 0;
            },
        };
        proof {
            lemma_key_position(types@, kind@);
        }
        match find_key(types, kind) {
            Some(k) => match verdict {
                Status::Success => types[k].1.successes,
                Status::Failure => types[k].1.failures,
            },
            None => 0,
        }
    }

    /// Counts one outcome in the cell of `connector`, `method` and `kind`.
    /// A connector, a method or a type that is counted for the first time
    /// is put behind those counted before.
    ///
    /// Returns `false`, and counts nothing, where the number of outcomes has
    /// reached the largest number that the counters hold.
    pub fn record(&mut self, connector: &Key, method: &Key, kind: &Key, verdict: Status) -> (r:
        bool)
        ensures
            r == (old(self).events() < usize::MAX),
            !r ==> *final(self) == *old(self),
            r ==> counted_once(*old(self), *final(self), connector@, method@, kind@, verdict),
    {
        proof {
            use_type_invariant(&*self);
        }
        if self.recorded == usize::MAX {
            return false;
        }
        // The tree is taken out while it changes and put back at the end.
        let mut taken = Metrics { key: Vec::new(), recorded: 0 };
        std::mem::swap(self, &mut taken);
        let ghost before = taken;
        let Metrics { key: mut key, recorded } = taken;
        bump_connector(&mut key, connector, method, kind, verdict);
        *self = Metrics { key, recorded: recorded + 1 };
        proof {
            let hit_counter = (connector@, method@, kind@, verdict);
            assert forall|counter: Counter| #[trigger]
                self@[counter] == before@.insert(hit_counter, before@[hit_counter] + 1)[counter] by {
                assert(tally(
                    connector_cell(self.key@, counter.0, counter.1, counter.2),
                    counter.3,
                ) == tally(connector_cell(before.key@, counter.0, counter.1, counter.2), counter.3)
                    + hit(
                    counter.0 == connector@ && counter.1 == method@ && counter.2 == kind@,
                    verdict,
                    counter.3,
                ));
            }
            assert(self@ =~= before@.insert(hit_counter, before@[hit_counter] + 1));
            assert forall|c: Seq<char>| #[trigger] self.method_names(c) == if c == connector@ {
                with_name(before.method_names(c), method@)
            } else {
                before.method_names(c)
            } by {
                assert(methods_under(self.key@, c) == if c == connector@ {
                    with_name(methods_under(before.key@, c), method@)
                } else {
                    methods_under(before.key@, c)
                });
            }
            assert forall|c: Seq<char>, m: Seq<char>| #[trigger]
                self.type_names(c, m) == if c == connector@ && m == method@ {
                    with_name(before.type_names(c, m), kind@)
                } else {
                    before.type_names(c, m)
                } by {
                assert(types_below(self.key@, c, m) == if c == connector@ && m == method@ {
                    with_name(types_below(before.key@, c, m), kind@)
                } else {
                    types_below(before.key@, c, m)
                });
            }
        }
        true
    }

    /// The report of the run so far.
    pub fn report(&self) -> (r: Report)
        ensures
            line_views(r.rates@) == self.lines(self.connector_names().len() as int),
            share_views(r.shares@) == self.shares(),
            r.total_transactions == self.events(),
            r.total_transactions == self.total(false),
            r.total_successes == self.total(true),
            r.total_successes <= r.total_transactions,
            lines_bounded(r.rates@),
            forall|i: int|
                0 <= i < r.shares@.len() ==> (#[trigger] r.shares@[i]).transactions
                    <= r.total_transactions,
    {
        proof {
            use_type_invariant(self);
            lemma_connectors_successes_bounded(self.key@);
            self.lemma_tree_level(false);
            self.lemma_tree_level(true);
            self.lemma_lines(self.key@.len() as int);
        }
        let connectors = &self.key;
        let mut rates: Vec<RateLine> = Vec::new();
        let mut shares: Vec<TrafficShare> = Vec::new();
        let mut total_transactions: usize = 0;
        let mut total_successes: usize = 0;
        let mut i: usize = 0;
        assert(line_views(rates@) =~= tree_lines(connectors@, 0));
        assert(share_views(shares@) =~= tree_shares(connectors@, 0));
        while i < connectors.len()
            invariant
                i <= connectors@.len(),
                connectors_total(connectors@, false) <= usize::MAX,
                line_views(rates@) == tree_lines(connectors@, i as int),
                share_views(shares@) == tree_shares(connectors@, i as int),
                total_transactions == sum_to(connector_weights(connectors@, false), i as int),
                total_successes == sum_to(connector_weights(connectors@, true), i as int),
                total_successes <= total_transactions,
                lines_bounded(rates@),
                forall|j: int|
                    0 <= j < shares@.len() ==> (#[trigger] shares@[j]).transactions
                        <= total_transactions,
            decreases connectors@.len() - i,
        {
            proof {
                lemma_sum_grows(
                    connector_weights(connectors@, false),
                    i as int,
                    connectors@.len() as int,
                );
                lemma_methods_successes_bounded(connectors@[i as int].1@);
            }
            let ghost before = rates@;
            let ghost shares_before = shares@;
            let (successes, total) = count_methods(&connectors[i].1);
            let line = RateLine {
                connector: connectors[i].0.0.clone(),
                payment_method: None,
                payment_method_type: None,
                successes,
                total,
            };
            rates.push(line);
            let mut below = rate_lines_of_methods(&connectors[i].0, &connectors[i].1);
            let ghost middle = rates@;
            let ghost tail = below@;
            rates.append(&mut below);
            assert(line_views(rates@) =~= line_views(before).push(line@) + line_views(tail)) by {
                assert(rates@ =~= middle + tail);
                assert(middle =~= before.push(line));
            }
            let share = TrafficShare {
                connector: connectors[i].0.0.clone(),
                transactions: total,
            };
            shares.push(share);
            assert(share_views(shares@) =~= tree_shares(connectors@, i + 1)) by {
                assert(shares@ =~= shares_before.push(share));
                assert(share_views(shares_before).len() == i);
                assert(share_views(shares@).len() == i + 1);
                assert(tree_shares(connectors@, i + 1).len() == i + 1);
                assert forall|j: int| 0 <= j < i + 1 implies share_views(shares@)[j]
                    == tree_shares(connectors@, i + 1)[j] by {
                    if j < i {
                        assert(shares@[j] == shares_before[j]);
                        assert(share_views(shares_before)[j] == tree_shares(
                            connectors@,
                            i as int,
                        )[j]);
                    } else {
                        assert(shares@[j] == share);
                    }
                }
            }
            total_transactions = total_transactions + total;
            total_successes = total_successes + successes;
            i += 1;
        }
        Report { rates, shares, total_transactions, total_successes }
    }
}

/// The methods below connector `i` are distinct, and so are the types
/// below each of them.
spec fn methods_distinct_at(connectors: Seq<(Key, MethodLevel)>, i: int) -> bool {
    methods_distinct(connectors[i].1@)
}

/// `after` counts what `before` counted and one more outcome `verdict` for
/// `connector`, `method` and `kind`; whichever of the three is counted for
/// the first time stands behind those counted before.
pub open spec fn counted_once(
    before: Metrics,
    after: Metrics,
    connector: Seq<char>,
    method: Seq<char>,
    kind: Seq<char>,
    verdict: Status,
) -> bool {
    &&& after.events() == before.events() + 1
    &&& after@ == before@.insert(
        (connector, method, kind, verdict),
        before@[(connector, method, kind, verdict)] + 1,
    )
    &&& after.connector_names() == with_name(before.connector_names(), connector)
    &&& forall|c: Seq<char>| #[trigger]
        after.method_names(c) == if c == connector {
            with_name(before.method_names(c), method)
        } else {
            before.method_names(c)
        }
    &&& forall|c: Seq<char>, m: Seq<char>| #[trigger]
        after.type_names(c, m) == if c == connector && m == method {
            with_name(before.type_names(c, m), kind)
        } else {
            before.type_names(c, m)
        }
}

/// Counting one more outcome takes nothing away: no count falls, and every
/// connector, method and type stays where it stood.
pub proof fn lemma_counts_only_grow(
    before: Metrics,
    after: Metrics,
    connector: Seq<char>,
    method: Seq<char>,
    kind: Seq<char>,
    verdict: Status,
)
    requires
        counted_once(before, after, connector, method, kind, verdict),
    ensures
        forall|counter: Counter| #[trigger] after@[counter] >= before@[counter],
        before.connector_names().is_prefix_of(after.connector_names()),
        forall|c: Seq<char>| #[trigger]
            before.method_names(c).is_prefix_of(after.method_names(c)),
        forall|c: Seq<char>, m: Seq<char>| #[trigger]
            before.type_names(c, m).is_prefix_of(after.type_names(c, m)),
{
    assert forall|c: Seq<char>| #[trigger]
        before.method_names(c).is_prefix_of(after.method_names(c)) by {
        assert(after.method_names(c) == if c == connector {
            with_name(before.method_names(c), method)
        } else {
            before.method_names(c)
        });
    }
    assert forall|c: Seq<char>, m: Seq<char>| #[trigger]
        before.type_names(c, m).is_prefix_of(after.type_names(c, m)) by {
        assert(after.type_names(c, m) == if c == connector && m == method {
            with_name(before.type_names(c, m), kind)
        } else {
            before.type_names(c, m)
        });
    }
}

/// The counts that follow from counting each of `events` once, starting
/// from nothing.
pub open spec fn tally_of(events: Seq<Counter>) -> Map<Counter, nat>
    decreases events.len(),
{
    if events.len() == 0 {
        Map::total(|counter: Counter| 0nat)
    } else {
        let earlier = tally_of(events.drop_last());
        earlier.insert(events.last(), earlier[events.last()] + 1)
    }
}

/// How many of `events` fell into the cell of `connector`, `method` and
/// `kind`, whatever their outcome.
pub open spec fn landings(
    events: Seq<Counter>,
    connector: Seq<char>,
    method: Seq<char>,
    kind: Seq<char>,
) -> nat
    decreases events.len(),
{
    if events.len() == 0 {
        0
    } else {
        let last = events.last();
        landings(events.drop_last(), connector, method, kind) + if last.0 == connector && last.1
            == method && last.2 == kind {
            1nat
        } else {
            0nat
        }
    }
}

/// The successes and the failures counted in a cell are together as many as
/// the events that fell into it.
pub proof fn lemma_cell_counts_landings(
    events: Seq<Counter>,
    connector: Seq<char>,
    method: Seq<char>,
    kind: Seq<char>,
)
    ensures
        tally_of(events)[(connector, method, kind, Status::Success)] + tally_of(
            events,
        )[(connector, method, kind, Status::Failure)] == landings(events, connector, method, kind),
    decreases events.len(),
{
    let success = (connector, method, kind, Status::Success);
    let failure = (connector, method, kind, Status::Failure);
    if events.len() > 0 {
        let earlier = tally_of(events.drop_last());
        let last = events.last();
        lemma_cell_counts_landings(events.drop_last(), connector, method, kind);
        lemma_tally_is_total(events.drop_last());
        assert(tally_of(events) == earlier.insert(last, earlier[last] + 1));
        assert(earlier.contains_key(success) && earlier.contains_key(failure));
        if last.0 == connector && last.1 == method && last.2 == kind {
            if last.3 == Status::Success {
                assert(last =~= success);
                assert(tally_of(events)[success] == earlier[success] + 1);
                assert(tally_of(events)[failure] == earlier[failure]);
            } else {
                assert(last =~= failure);
                assert(tally_of(events)[failure] == earlier[failure] + 1);
                assert(tally_of(events)[success] == earlier[success]);
            }
        } else {
            assert(tally_of(events)[success] == earlier[success]);
            assert(tally_of(events)[failure] == earlier[failure]);
        }
    } else {
        assert(tally_of(events)[success] == 0);
        assert(tally_of(events)[failure] == 0);
    }
}

/// A tally holds a count for every counter.
pub proof fn lemma_tally_is_total(events: Seq<Counter>)
    ensures
        forall|counter: Counter| #[trigger] tally_of(events).contains_key(counter),
    decreases events.len(),
{
    if events.len() > 0 {
        let earlier = tally_of(events.drop_last());
        lemma_tally_is_total(events.drop_last());
        assert forall|counter: Counter| #[trigger] tally_of(events).contains_key(counter) by {
            assert(earlier.contains_key(counter));
            assert(tally_of(events) == earlier.insert(events.last(), earlier[events.last()] + 1));
        }
    } else {
        assert forall|counter: Counter| #[trigger] tally_of(events).contains_key(counter) by {
            assert(tally_of(events) == Map::total(|counter: Counter| 0nat));
            assert(Set::<Counter>::full().contains(counter));
        }
    }
}

} // verus!

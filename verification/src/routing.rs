//! The routing policies' bookkeeping: the per-connector records, the sliding
//! window, and the choice of the best-scored candidate.
//!
//! Scores are real numbers and are computed by the caller. They reach this
//! module as ranks: a rank is an integer that orders the scores as the scores
//! order themselves, or nothing where the score is not a number. The type `F`
//! of the policies' own real-valued parameters is left open for the same
//! reason.

use crate::key::Key;
use crate::random::draw_between;
use rand::rngs::StdRng;
use vstd::prelude::*;

verus! {

/// What a policy knows of one connector.
///
/// `window` holds the most recent outcomes, oldest first. `alpha` and `beta`
/// are the parameters of the connector's Beta distribution.
#[derive(Debug)]
pub struct PaymentConnector<F> {
    pub name: String,
    pub attempts: usize,
    pub successes: usize,
    pub window: Vec<bool>,
    pub alpha: F,
    pub beta: F,
}

/// How many of the outcomes in `window` are successes.
pub open spec fn count_true(window: Seq<bool>) -> nat
    decreases window.len(),
{
    if window.len() == 0 {
        0
    } else {
        count_true(window.drop_last()) + if window.last() {
            1nat
        } else {
            0nat
        }
    }
}

/// A window holds no more successes than outcomes.
pub proof fn lemma_count_true_bounded(window: Seq<bool>)
    ensures
        count_true(window) <= window.len(),
    decreases window.len(),
{
    if window.len() > 0 {
        lemma_count_true_bounded(window.drop_last());
    }
}

/// Dropping the oldest outcome takes it out of the count.
pub proof fn lemma_count_true_drop_first(window: Seq<bool>)
    requires
        window.len() > 0,
    ensures
        count_true(window) == count_true(window.drop_first()) + if window[0] {
            1nat
        } else {
            0nat
        },
    decreases window.len(),
{
    if window.len() == 1 {
        assert(window.drop_first() =~= window.drop_last());
        assert(window.last() == window[0]);
    } else {
        lemma_count_true_drop_first(window.drop_last());
        assert(window.drop_last().drop_first() =~= window.drop_first().drop_last());
        assert(window.drop_first().last() == window.last());
        assert(window.drop_last()[0] == window[0]);
    }
}

impl<F> PaymentConnector<F> {
    /// A record without any outcome.
    pub fn new(name: String, alpha: F, beta: F) -> (r: Self)
        ensures
            r.name == name,
            r.attempts == 0,
            r.successes == 0,
            r.window@ == Seq::<bool>::empty(),
            r.alpha == alpha,
            r.beta == beta,
    {
        PaymentConnector { name, attempts: 0, successes: 0, window: Vec::new(), alpha, beta }
    }

    /// The counters cover at least what the window holds.
    pub open spec fn covers_window(self) -> bool {
        &&& self.window@.len() <= self.attempts
        &&& count_true(self.window@) <= self.successes
    }

    /// The counters count exactly the outcomes in the window, and those are
    /// at most `size`.
    pub open spec fn within_window(self, size: nat) -> bool {
        &&& self.window@.len() <= size
        &&& self.attempts == self.window@.len()
        &&& self.successes == count_true(self.window@)
    }

    /// A record that counts exactly its window has
    /// `successes <= attempts <= size`.
    pub proof fn lemma_within_window_bounds(self, size: nat)
        requires
            self.within_window(size),
        ensures
            0 <= self.successes <= self.attempts <= size,
            self.covers_window(),
    {
        lemma_count_true_bounded(self.window@);
    }
}

/// The window after `success` has been recorded with room for `size`
/// outcomes: a full window loses its oldest outcome first.
pub open spec fn slide(window: Seq<bool>, size: nat, success: bool) -> Seq<bool> {
    if window.len() >= size && window.len() > 0 {
        window.drop_first().push(success)
    } else {
        window.push(success)
    }
}

/// What `slide` takes out of the counters: one attempt where an outcome
/// leaves the window, and one success where that outcome was one.
pub open spec fn evicted(window: Seq<bool>, size: nat) -> (nat, nat) {
    if window.len() >= size && window.len() > 0 {
        (1, if window[0] {
            1
        } else {
            0
        })
    } else {
        (0, 0)
    }
}

/// The window after each of `outcomes` has been recorded in turn.
pub open spec fn slide_all(window: Seq<bool>, size: nat, outcomes: Seq<bool>) -> Seq<bool>
    decreases outcomes.len(),
{
    if outcomes.len() == 0 {
        window
    } else {
        slide(slide_all(window, size, outcomes.drop_last()), size, outcomes.last())
    }
}

/// A window that starts empty and has room for at least one outcome holds,
/// after any number of outcomes, the latest of them: all of them while they
/// fit, and the last `size` once they do not.
pub proof fn lemma_window_holds_latest(size: nat, outcomes: Seq<bool>)
    requires
        size >= 1,
    ensures
        slide_all(Seq::empty(), size, outcomes).len() <= size,
        slide_all(Seq::empty(), size, outcomes) == if outcomes.len() <= size {
            outcomes
        } else {
            outcomes.subrange(outcomes.len() - size, outcomes.len() as int)
        },
    decreases outcomes.len(),
{
    if outcomes.len() > 0 {
        let earlier = outcomes.drop_last();
        lemma_window_holds_latest(size, earlier);
        let held = slide_all(Seq::empty(), size, earlier);
        let after = slide(held, size, outcomes.last());
        if outcomes.len() <= size {
            assert(after =~= outcomes);
        } else {
            assert(after =~= outcomes.subrange(outcomes.len() - size, outcomes.len() as int));
        }
    } else {
        assert(slide_all(Seq::empty(), size, outcomes) =~= outcomes);
    }
}

/// The upper-confidence-bound policy over a sliding window of outcomes.
#[derive(Debug)]
pub struct SlidingWindowUCB<F> {
    window_size: usize,
    exploration_factor: F,
}

impl<F> SlidingWindowUCB<F> {
    #[verifier::type_invariant]
    spec fn has_room(self) -> bool {
        self.window_size >= 1
    }

    /// The number of outcomes that a window holds.
    pub closed spec fn size(self) -> nat {
        self.window_size as nat
    }

    /// The weight of the exploration term.
    pub closed spec fn factor(self) -> F {
        self.exploration_factor
    }

    /// A policy whose windows hold `window_size` outcomes.
    pub fn new(window_size: usize, exploration_factor: F) -> (r: Self)
        requires
            window_size >= 1,
        ensures
            r.size() == window_size,
            r.factor() == exploration_factor,
    {
        SlidingWindowUCB { window_size, exploration_factor }
    }

    /// The number of outcomes that a window holds. It is at least one.
    pub fn window_size(&self) -> (r: usize)
        ensures
            r == self.size(),
            r >= 1,
    {
        proof {
            use_type_invariant(self);
        }
        self.window_size
    }

    /// The weight of the exploration term.
    pub fn exploration_factor(&self) -> (r: &F)
        ensures
            *r == self.factor(),
    {
        &self.exploration_factor
    }

    /// Records an outcome for the connector at `connector_index`: a full
    /// window loses its oldest outcome, and the counters lose what that
    /// outcome had added; then the new outcome enters the window and the
    /// counters.
    ///
    /// A record that counted exactly its window, of at most `window_size`
    /// outcomes, does so afterwards.
    pub fn update_connector(
        &self,
        connectors: &mut Vec<PaymentConnector<F>>,
        connector_index: usize,
        success: bool,
    )
        requires
            connector_index < old(connectors)@.len(),
            old(connectors)@[connector_index as int].covers_window(),
            old(connectors)@[connector_index as int].attempts < usize::MAX,
            old(connectors)@[connector_index as int].successes < usize::MAX,
        ensures
            final(connectors)@.len() == old(connectors)@.len(),
            forall|i: int|
                0 <= i < old(connectors)@.len() && i != connector_index ==> final(connectors)@[i]
                    == old(connectors)@[i],
            ({
                let before = old(connectors)@[connector_index as int];
                let after = final(connectors)@[connector_index as int];
                &&& after.name == before.name
                &&& after.alpha == before.alpha
                &&& after.beta == before.beta
                &&& after.window@ == slide(before.window@, self.size(), success)
                &&& after.attempts == before.attempts - evicted(before.window@, self.size()).0 + 1
                &&& after.successes == before.successes - evicted(before.window@, self.size()).1
                    + if success {
                    1nat
                } else {
                    0nat
                }
                &&& after.covers_window()
                &&& before.within_window(self.size()) ==> after.within_window(self.size())
            }),
    {
        proof {
            use_type_invariant(self);
        }
        let ghost before = connectors@[connector_index as int];
        let connector = &mut connectors[connector_index];
        if connector.window.len() >= self.window_size {
            proof {
                lemma_count_true_drop_first(connector.window@);
            }
            let oldest = connector.window.remove(0);
            assert(connector.window@ =~= before.window@.drop_first());
            if oldest {
                connector.successes -= 1;
            }
            connector.attempts -= 1;
        }
        let ghost kept = connector.window@;
        connector.window.push(success);
        assert(connector.window@.drop_last() =~= kept);
        if success {
            connector.successes += 1;
        }
        connector.attempts += 1;
    }
}

/// The Thompson-sampling policy with a discount on past outcomes.
#[derive(Debug)]
pub struct ThompsonSampling<F> {
    gamma: F,
}

impl<F> ThompsonSampling<F> {
    /// The discount factor.
    pub closed spec fn discount(self) -> F {
        self.gamma
    }

    /// A policy that discounts past outcomes by `gamma`.
    pub fn new(gamma: F) -> (r: Self)
        ensures
            r.discount() == gamma,
    {
        ThompsonSampling { gamma }
    }

    /// The discount factor.
    pub fn gamma(&self) -> (r: &F)
        ensures
            *r == self.discount(),
    {
        &self.gamma
    }
}

/// Counts an outcome for the connector at `connector_index` without touching
/// its window.
pub fn count_outcome<F>(
    connectors: &mut Vec<PaymentConnector<F>>,
    connector_index: usize,
    success: bool,
)
    requires
        connector_index < old(connectors)@.len(),
        old(connectors)@[connector_index as int].attempts < usize::MAX,
        old(connectors)@[connector_index as int].successes < usize::MAX,
    ensures
        final(connectors)@.len() == old(connectors)@.len(),
        forall|i: int|
            0 <= i < old(connectors)@.len() && i != connector_index ==> final(connectors)@[i]
                == old(connectors)@[i],
        ({
            let before = old(connectors)@[connector_index as int];
            let after = final(connectors)@[connector_index as int];
            &&& after.name == before.name
            &&& after.alpha == before.alpha
            &&& after.beta == before.beta
            &&& after.window == before.window
            &&& after.attempts == before.attempts + 1
            &&& after.successes == before.successes + if success {
                1nat
            } else {
                0nat
            }
        }),
{
    let connector = &mut connectors[connector_index];
    if success {
        connector.successes += 1;
    }
    connector.attempts += 1;
}

/// The policy that picks any of its connectors with equal chance.
#[derive(Debug)]
pub struct StraightThroughRouting {
    pub connectors: Vec<Key>,
}

impl StraightThroughRouting {
    /// One of the connectors, drawn uniformly.
    pub fn get_connector(&self, rng: &mut StdRng) -> (r: Key)
        requires
            self.connectors@.len() > 0,
        ensures
            exists|i: int| 0 <= i < self.connectors@.len() && r == #[trigger] self.connectors@[i],
    {
        let last = self.connectors.len() - 1;
        let at = draw_between(rng, 0, last as u64) as usize;
        self.connectors[at].clone()
    }
}

/// Every candidate is the position of a record.
pub open spec fn candidates_in_range(candidates: Seq<usize>, records: int) -> bool {
    forall|p: int| 0 <= p < candidates.len() ==> (#[trigger] candidates[p]) < records
}

/// The position, from `from` on, of the first candidate whose connector
/// has never been tried, or the number of candidates where all have been.
pub open spec fn untried_position<F>(
    connectors: Seq<PaymentConnector<F>>,
    candidates: Seq<usize>,
    from: int,
) -> int
    decreases candidates.len() - from,
{
    if from < 0 || from >= candidates.len() {
        candidates.len() as int
    } else if connectors[candidates[from] as int].attempts == 0 {
        from
    } else {
        untried_position(connectors, candidates, from + 1)
    }
}

/// The position found lies at or behind `from`; the candidate there has
/// never been tried, and every candidate between has been.
pub proof fn lemma_untried_position<F>(
    connectors: Seq<PaymentConnector<F>>,
    candidates: Seq<usize>,
    from: int,
)
    requires
        0 <= from <= candidates.len(),
    ensures
        from <= untried_position(connectors, candidates, from) <= candidates.len(),
        untried_position(connectors, candidates, from) < candidates.len()
            ==> connectors[candidates[untried_position(
            connectors,
            candidates,
            from,
        )] as int].attempts == 0,
        forall|q: int|
            from <= q < untried_position(connectors, candidates, from) ==> connectors[(
            #[trigger] candidates[q]) as int].attempts != 0,
    decreases candidates.len() - from,
{
    if from < candidates.len() && connectors[candidates[from] as int].attempts != 0 {
        lemma_untried_position(connectors, candidates, from + 1);
    }
}

/// The first candidate, in the order of `candidates`, whose connector has
/// never been tried.
pub fn first_untried<F>(connectors: &Vec<PaymentConnector<F>>, candidates: &Vec<usize>) -> (r:
    Option<usize>)
    requires
        candidates_in_range(candidates@, connectors@.len() as int),
    ensures
        match r {
            Some(index) => {
                &&& untried_position(connectors@, candidates@, 0) < candidates@.len()
                &&& index == candidates@[untried_position(connectors@, candidates@, 0)]
                &&& index < connectors@.len()
            },
            None => untried_position(connectors@, candidates@, 0) == candidates@.len(),
        },
{
    let mut p: usize = 0;
    while p < candidates.len()
        invariant
            p <= candidates@.len(),
            candidates_in_range(candidates@, connectors@.len() as int),
            untried_position(connectors@, candidates@, 0) == untried_position(
                connectors@,
                candidates@,
                p as int,
            ),
        decreases candidates@.len() - p,
    {
        let index = candidates[p];
        if connectors[index].attempts == 0 {
            return Some(index);
        }
        p += 1;
    }
    None
}

/// The attempts of the first `n` connectors, added up.
pub open spec fn attempts_sum<F>(connectors: Seq<PaymentConnector<F>>, n: int) -> nat
    decreases n,
{
    if n <= 0 {
        0
    } else {
        attempts_sum(connectors, n - 1) + connectors[n - 1].attempts as nat
    }
}

/// The attempts of all connectors, added up.
pub fn total_attempts<F>(connectors: &Vec<PaymentConnector<F>>) -> (r: u128)
    ensures
        r == attempts_sum(connectors@, connectors@.len() as int),
{
    let mut total: u128 = 0;
    let mut i: usize = 0;
    while i < connectors.len()
        invariant
            i <= connectors@.len(),
            total == attempts_sum(connectors@, i as int),
            total <= i * usize::MAX,
        decreases connectors@.len() - i,
    {
        assert((i + 1) * usize::MAX == i * usize::MAX + usize::MAX) by (nonlinear_arith);
        assert(i * usize::MAX <= usize::MAX * usize::MAX) by (nonlinear_arith)
            requires
                i <= usize::MAX,
        ;
        total = total + connectors[i].attempts as u128;
        i += 1;
    }
    total
}

/// The challenger takes the lead from the holder: both ranks are numbers and
/// the challenger's is the greater.
pub open spec fn outranks(challenger: Option<u64>, holder: Option<u64>) -> bool {
    challenger matches Some(c) && holder matches Some(h) && c > h
}

/// The position that leads among the first `n` ranks: the first position
/// leads at the start, and a later one takes the lead only by outranking the
/// leader.
pub open spec fn leader(ranks: Seq<Option<u64>>, n: int) -> int
    decreases n,
{
    if n <= 1 {
        0
    } else {
        let held = leader(ranks, n - 1);
        if outranks(ranks[n - 1], ranks[held]) {
            n - 1
        } else {
            held
        }
    }
}

/// Where every rank is a number, the leader holds the greatest rank, and
/// every position before it holds a smaller one.
pub proof fn lemma_leader_is_first_maximum(ranks: Seq<Option<u64>>, n: int)
    requires
        1 <= n <= ranks.len(),
        forall|i: int| 0 <= i < n ==> (#[trigger] ranks[i]) is Some,
    ensures
        0 <= leader(ranks, n) < n,
        forall|i: int| 0 <= i < n ==> (#[trigger] ranks[i])->0 <= ranks[leader(ranks, n)]->0,
        forall|i: int|
            0 <= i < leader(ranks, n) ==> (#[trigger] ranks[i])->0 < ranks[leader(ranks, n)]->0,
    decreases n,
{
    if n > 1 {
        lemma_leader_is_first_maximum(ranks, n - 1);
    }
}

/// The leader is one of the positions it was chosen among.
pub proof fn lemma_leader_in_range(ranks: Seq<Option<u64>>, n: int)
    requires
        1 <= n,
    ensures
        0 <= leader(ranks, n) < n,
    decreases n,
{
    if n > 1 {
        lemma_leader_in_range(ranks, n - 1);
    }
}

/// The position of the best rank: the first one leads, and a later one takes
/// over only with a greater rank. A rank that is not a number neither takes
/// the lead nor loses it. There is no such position in an empty list.
pub fn best_ranked(ranks: &Vec<Option<u64>>) -> (r: Option<usize>)
    ensures
        match r {
            Some(at) => ranks@.len() > 0 && at == leader(ranks@, ranks@.len() as int),
            None => ranks@.len() == 0,
        },
{
    if ranks.len() == 0 {
        return None;
    }
    let mut best: usize = 0;
    let mut i: usize = 1;
    while i < ranks.len()
        invariant
            1 <= i <= ranks@.len(),
            best < i,
            best == leader(ranks@, i as int),
        decreases ranks@.len() - i,
    {
        let takes_over = match (ranks[i], ranks[best]) {
            (Some(challenger), Some(holder)) => challenger > holder,
            _ => false,
        };
        if takes_over {
            best = i;
        }
        i += 1;
    }
    Some(best)
}

/// The candidate that leads among the first `n` ranks.
pub open spec fn leading_candidate(candidates: Seq<usize>, ranks: Seq<Option<u64>>) -> usize {
    candidates[leader(ranks, ranks.len() as int)]
}

/// The candidate with the best rank, where `ranks` holds the rank of each
/// candidate's score in turn. There is none without candidates.
pub fn best_candidate(candidates: &Vec<usize>, ranks: &Vec<Option<u64>>) -> (r: Option<usize>)
    requires
        ranks@.len() == candidates@.len(),
    ensures
        match r {
            Some(index) => candidates@.len() > 0 && index == leading_candidate(
                candidates@,
                ranks@,
            ),
            None => candidates@.len() == 0,
        },
{
    match best_ranked(ranks) {
        Some(at) => {
            proof {
                lemma_leader_in_range(ranks@, ranks@.len() as int);
            }
            Some(candidates[at])
        },
        None => None,
    }
}

impl<F> SlidingWindowUCB<F> {
    /// The connector that takes the next transaction: the first candidate
    /// that has never been tried, and where all have been tried, the
    /// candidate with the best rank. `ranks` holds the rank of each
    /// candidate's upper confidence bound in turn. There is no connector
    /// without candidates.
    pub fn select_connector(
        &self,
        connectors: &Vec<PaymentConnector<F>>,
        candidates: &Vec<usize>,
        ranks: &Vec<Option<u64>>,
    ) -> (r: Option<usize>)
        requires
            candidates_in_range(candidates@, connectors@.len() as int),
            ranks@.len() == candidates@.len(),
        ensures
            match r {
                Some(index) => {
                    &&& candidates@.len() > 0
                    &&& index < connectors@.len()
                    &&& index == if untried_position(connectors@, candidates@, 0)
                        < candidates@.len() {
                        candidates@[untried_position(connectors@, candidates@, 0)]
                    } else {
                        leading_candidate(candidates@, ranks@)
                    }
                },
                None => candidates@.len() == 0,
            },
    {
        proof {
            lemma_untried_position(connectors@, candidates@, 0);
        }
        match first_untried(connectors, candidates) {
            Some(index) => Some(index),
            None => {
                let r = best_candidate(candidates, ranks);
                proof {
                    if candidates@.len() > 0 {
                        lemma_leader_in_range(ranks@, ranks@.len() as int);
                        let at = leader(ranks@, ranks@.len() as int);
                        assert(candidates@[at] < connectors@.len());
                    }
                }
                r
            },
        }
    }
}

impl<F> ThompsonSampling<F> {
    /// The connector that takes the next transaction: the candidate with
    /// the best rank, where `ranks` holds the rank of each candidate's
    /// sampled success rate in turn. There is no connector without
    /// candidates.
    pub fn select_connector(&self, candidates: &Vec<usize>, ranks: &Vec<Option<u64>>) -> (r: Option<
        usize,
    >)
        requires
            ranks@.len() == candidates@.len(),
        ensures
            match r {
                Some(index) => candidates@.len() > 0 && index == leading_candidate(
                    candidates@,
                    ranks@,
                ),
                None => candidates@.len() == 0,
            },
    {
        best_candidate(candidates, ranks)
    }
}

} // verus!

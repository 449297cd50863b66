//! The weighted sampler: it walks the user tree, draws one child per choice
//! node with the children's shares as weights, and collects the drawn values
//! in a flat context.

use crate::context::Context;
use crate::key::{has_key, Key};
use crate::random::draw_between;
use crate::text::{decimal, decimal_text};
use crate::types::{
    key_texts, lemma_share_sum_monotone, share_sum, AmountRange, ConfigFault, PaymentMethodDetails,
    PaymentMethods, SimulationConfig, SimulationError, UserSimulationConfig,
};
use rand::rngs::StdRng;
use vstd::prelude::*;

verus! {

/// With the draw `draw`, child `i` wins: the shares of the children before it
/// do not exceed the draw, and together with its own share they do.
pub open spec fn wins(children: Seq<(Key, PaymentMethodDetails)>, draw: nat, i: int) -> bool {
    &&& 0 <= i < children.len()
    &&& share_sum(children, i) <= draw < share_sum(children, i + 1)
}

/// A draw below the sum of all shares has a winner.
pub proof fn lemma_draw_has_winner(children: Seq<(Key, PaymentMethodDetails)>, draw: nat, n: int)
    requires
        0 <= n <= children.len(),
        draw < share_sum(children, n),
    ensures
        exists|i: int| 0 <= i < n && wins(children, draw, i),
    decreases n,
{
    if share_sum(children, n - 1) <= draw {
        assert(wins(children, draw, n - 1));
    } else {
        lemma_draw_has_winner(children, draw, n - 1);
    }
}

/// A draw has at most one winner.
pub proof fn lemma_winner_unique(
    children: Seq<(Key, PaymentMethodDetails)>,
    draw: nat,
    i: int,
    j: int,
)
    requires
        wins(children, draw, i),
        wins(children, draw, j),
    ensures
        i == j,
{
    if i < j {
        lemma_share_sum_monotone(children, i + 1, j);
    } else if j < i {
        lemma_share_sum_monotone(children, j + 1, i);
    }
}

/// The child that wins with the draw `draw`, if one does.
pub open spec fn winner(children: Seq<(Key, PaymentMethodDetails)>, draw: nat) -> Option<int> {
    if exists|i: int| wins(children, draw, i) {
        Some(choose|i: int| wins(children, draw, i))
    } else {
        None
    }
}

/// A child that wins is the winner.
pub proof fn lemma_winner(children: Seq<(Key, PaymentMethodDetails)>, draw: nat, i: int)
    requires
        wins(children, draw, i),
    ensures
        winner(children, draw) == Some(i),
{
    lemma_winner_unique(children, draw, i, choose|j: int| wins(children, draw, j));
}

/// A draw that reaches the sum of all shares has no winner.
pub proof fn lemma_no_winner(children: Seq<(Key, PaymentMethodDetails)>, draw: nat)
    requires
        share_sum(children, children.len() as int) <= draw,
    ensures
        winner(children, draw) is None,
{
    if exists|i: int| wins(children, draw, i) {
        let i = choose|i: int| wins(children, draw, i);
        lemma_share_sum_monotone(children, i + 1, children.len() as int);
    }
}

/// Every draw is below 100.
pub open spec fn below_hundred(draws: Seq<u8>) -> bool {
    forall|k: int| 0 <= k < draws.len() ==> #[trigger] draws[k] < 100
}

/// How a walk through the tree ends.
pub enum Walk {
    /// Every attribute has its value; `rest` holds the draws not used.
    Done { context: Map<Seq<char>, Seq<char>>, rest: Seq<u8> },
    /// At some node the draw had no winner.
    Exhausted,
    /// The draws ran out.
    Starved,
}

impl PaymentMethodDetails {
    /// What is sampled after this value, if anything.
    pub open spec fn following(self) -> Option<SimulationConfig> {
        match self {
            PaymentMethodDetails::Percentage(_) => None,
            PaymentMethodDetails::Composite { next, .. } => Some(next),
        }
    }
}

impl PaymentMethods {
    /// Some draw below 100 makes child `i` win.
    pub open spec fn may_choose(self, i: int) -> bool {
        exists|draw: nat| draw < 100 && wins(self.0@, draw, i)
    }

    /// Some child that can win carries the value `value`.
    pub open spec fn has_choice(self, value: Seq<char>) -> bool {
        exists|i: int| self.may_choose(i) && (#[trigger] self.0@[i]).0@ == value
    }

    /// Below some child that can win, the attribute `name` can take the value
    /// `value`.
    pub open spec fn offers_below(self, name: Seq<char>, value: Seq<char>) -> bool
        decreases self,
    {
        exists|i: int|
            0 <= i < self.0@.len() && self.may_choose(i) && match (#[trigger] self.0@[i]).1 {
                PaymentMethodDetails::Percentage(_) => false,
                PaymentMethodDetails::Composite { next, .. } => next.offers(name, value),
            }
    }

    /// The child that wins with the draw `draw`, as the position in the list.
    ///
    /// There is none when the draw reaches the sum of all shares.
    pub fn pick_child(&self, draw: u8) -> (r: Option<usize>)
        ensures
            match r {
                Some(i) => wins(self.0@, draw as nat, i as int) && winner(self.0@, draw as nat)
                    == Some(i as int),
                None => self.total() <= draw && winner(self.0@, draw as nat) is None,
            },
    {
        let mut left: u8 = draw;
        let mut i: usize = 0;
        while i < self.0.len()
            invariant
                i <= self.0@.len(),
                share_sum(self.0@, i as int) + left == draw,
            decreases self.0@.len() - i,
        {
            let share = self.0[i].1.percentage();
            if left < share {
                proof {
                    lemma_winner(self.0@, draw as nat, i as int);
                }
                return Some(i);
            }
            left = left - share;
            i += 1;
        }
        proof {
            lemma_no_winner(self.0@, draw as nat);
        }
        None
    }
}

impl SimulationConfig {
    /// The walk through the attributes from position `from` on, with the
    /// values found so far in `context`: each choice node takes the next
    /// draw, its winner becomes the value of the attribute, and where the
    /// winner is composite, the level below it is walked before the next
    /// attribute; what is found there replaces what was found before.
    pub open spec fn walk_from(
        self,
        from: int,
        draws: Seq<u8>,
        context: Map<Seq<char>, Seq<char>>,
    ) -> Walk
        decreases self, self.0@.len() - from,
    {
        if from < 0 || from >= self.0@.len() {
            Walk::Done { context, rest: draws }
        } else if draws.len() == 0 {
            Walk::Starved
        } else {
            let node = self.0@[from].1;
            match winner(node.0@, draws[0] as nat) {
                None => Walk::Exhausted,
                Some(i) => if 0 <= i < node.0@.len() {
                    let chosen = context.insert(self.0@[from].0@, node.0@[i].0@);
                    match node.0@[i].1 {
                        PaymentMethodDetails::Percentage(_) => self.walk_from(
                            from + 1,
                            draws.drop_first(),
                            chosen,
                        ),
                        PaymentMethodDetails::Composite { next, .. } => match next.walk_from(
                            0,
                            draws.drop_first(),
                            Map::empty(),
                        ) {
                            Walk::Done { context: below, rest } => self.walk_from(
                                from + 1,
                                rest,
                                chosen.union_prefer_right(below),
                            ),
                            other => other,
                        },
                    }
                } else {
                    Walk::Exhausted
                },
            }
        }
    }

    /// The walk through the whole tree with the draws `draws`.
    pub open spec fn walk(self, draws: Seq<u8>) -> Walk {
        self.walk_from(0, draws, Map::empty())
    }

    /// The walk from position `from` on with the draws `used` and then
    /// `more`.
    pub open spec fn resumed(
        self,
        from: int,
        used: Seq<u8>,
        more: Seq<u8>,
        context: Map<Seq<char>, Seq<char>>,
    ) -> Walk {
        self.walk_from(from, used + more, context)
    }

    /// Somewhere in the tree, on a path that can be drawn, the attribute
    /// `name` can take the value `value`.
    pub open spec fn offers(self, name: Seq<char>, value: Seq<char>) -> bool
        decreases self,
    {
        exists|i: int|
            0 <= i < self.0@.len() && {
                ||| (#[trigger] self.0@[i]).0@ == name && self.0@[i].1.has_choice(value)
                ||| self.0@[i].1.offers_below(name, value)
            }
    }
}

/// Draws a number below 100 and finds the child of `node` that wins with
/// it.
fn draw_child(node: &PaymentMethods, rng: &mut StdRng) -> (r: (Option<usize>, Ghost<u8>))
    ensures
        r.1@ < 100,
        match r.0 {
            Some(i) => wins(node.0@, r.1@ as nat, i as int) && winner(node.0@, r.1@ as nat)
                == Some(i as int),
            None => node.total() <= r.1@ && winner(node.0@, r.1@ as nat) is None,
        },
{
    let draw = draw_between(rng, 0, 99) as u8;
    (node.pick_child(draw), Ghost(draw))
}

/// Draws one child of `node`: a number below 100 is drawn, and the child wins
/// whose share covers it. Returns the child's value and what follows it.
///
/// A node whose shares add up to 100 or more always yields a child.
pub fn choose_payment_method<'a>(node: &'a PaymentMethods, rng: &mut StdRng) -> (r: Result<
    (&'a Key, Option<&'a SimulationConfig>),
    SimulationError,
>)
    ensures
        node.total() >= 100 ==> r is Ok,
        exists|draw: u8|
            #![trigger winner(node.0@, draw as nat)]
            draw < 100 && match r {
                Ok((value, next)) => {
                    &&& winner(node.0@, draw as nat) matches Some(i)
                    &&& 0 <= i < node.0@.len()
                    &&& *value == node.0@[i].0
                    &&& match next {
                        Some(config) => node.0@[i].1.following() == Some(*config),
                        None => node.0@[i].1.following() is None,
                    }
                },
                Err(error) => error is SamplerExhausted && winner(node.0@, draw as nat) is None,
            },
{
    let (picked, Ghost(draw)) = draw_child(node, rng);
    match picked {
        Some(i) => {
            let next = match &node.0[i].1 {
                PaymentMethodDetails::Percentage(_) => None,
                PaymentMethodDetails::Composite { next, .. } => Some(next),
            };
            assert(winner(node.0@, draw as nat) == Some(i as int));
            Ok((&node.0[i].0, next))
        },
        None => {
            assert(winner(node.0@, draw as nat) is None);
            Err(SimulationError::SamplerExhausted)
        },
    }
}

/// Every entry of `context` is a value that `config` offers for its
/// attribute.
pub open spec fn drawn_from(context: Map<Seq<char>, Seq<char>>, config: SimulationConfig) -> bool {
    forall|name: Seq<char>| #[trigger]
        context.contains_key(name) ==> config.offers(name, context[name])
}

/// Samples every attribute of `config` and hands out the draws that it
/// made.
fn sample_level(config: &SimulationConfig, rng: &mut StdRng) -> (r: (
    Result<Context, SimulationError>,
    Ghost<Seq<u8>>,
))
    ensures
        config.valid() ==> r.0 is Ok,
        below_hundred(r.1@),
        match r.0 {
            Ok(context) => {
                &&& forall|more: Seq<u8>| #[trigger]
                    config.resumed(0, r.1@, more, Map::empty()) == (Walk::Done {
                        context: context@,
                        rest: more,
                    })
                &&& drawn_from(context@, *config)
                &&& forall|name: Seq<char>|
                    has_key(config.0@, name) ==> context@.contains_key(name)
            },
            Err(error) => {
                &&& error is SamplerExhausted
                &&& forall|more: Seq<u8>| #[trigger]
                    config.resumed(0, r.1@, more, Map::empty()) is Exhausted
            },
        },
    decreases config,
{
    let mut sample = Context::new();
    let ghost mut used: Seq<u8> = Seq::empty();
    let mut i: usize = 0;
    assert forall|more: Seq<u8>| #[trigger]
        config.resumed(0, used, more, Map::empty()) == config.walk_from(0, more, sample@) by {
        assert(used + more =~= more);
    }
    while i < config.0.len()
        invariant
            i <= config.0@.len(),
            below_hundred(used),
            forall|more: Seq<u8>| #[trigger]
                config.resumed(0, used, more, Map::empty()) == config.walk_from(
                    i as int,
                    more,
                    sample@,
                ),
            drawn_from(sample@, *config),
            forall|j: int|
                0 <= j < i ==> sample@.contains_key((#[trigger] config.0@[j]).0@),
            config.valid() ==> forall|j: int|
                0 <= j < config.0@.len() ==> (#[trigger] config.0@[j]).1.valid(),
        decreases config.0@.len() - i,
    {
        let node = &config.0[i].1;
        let ghost before = sample@;
        let ghost used_before = used;
        let (picked, Ghost(draw)) = draw_child(node, rng);
        let c = match picked {
            Some(c) => c,
            None => {
                proof {
                    used = used_before.push(draw);
                    assert forall|more: Seq<u8>| #[trigger]
                        config.resumed(0, used, more, Map::empty()) is Exhausted by {
                        let longer = seq![draw] + more;
                        assert(used + more =~= used_before + longer);
                        assert(config.resumed(0, used_before, longer, Map::empty())
                            == config.walk_from(i as int, longer, before));
                        assert(longer[0] == draw);
                    }
                    if config.valid() {
                        assert(config.0@[i as int].1.valid());
                    }
                }
                return (Err(SimulationError::SamplerExhausted), Ghost(used));
            },
        };
        sample.insert(config.0[i].0.clone(), node.0[c].0.clone());
        let ghost chosen = sample@;
        proof {
            assert(node.may_choose(c as int)) by {
                assert(wins(node.0@, draw as nat, c as int));
            }
            assert(node.has_choice(node.0@[c as int].0@));
            assert(config.0@[i as int].1 == *node);
            assert(config.offers(config.0@[i as int].0@, node.0@[c as int].0@));
        }
        match &node.0[c].1 {
            PaymentMethodDetails::Percentage(_) => {
                proof {
                    used = used_before.push(draw);
                    assert forall|more: Seq<u8>| #[trigger]
                        config.resumed(0, used, more, Map::empty()) == config.walk_from(
                            i + 1,
                            more,
                            sample@,
                        ) by {
                        let longer = seq![draw] + more;
                        assert(used + more =~= used_before + longer);
                        assert(config.resumed(0, used_before, longer, Map::empty())
                            == config.walk_from(i as int, longer, before));
                        assert(longer[0] == draw);
                        assert(longer.drop_first() =~= more);
                    }
                }
            },
            PaymentMethodDetails::Composite { next, .. } => {
                let (below, Ghost(used_below)) = sample_level(next, rng);
                proof {
                    used = used_before.push(draw) + used_below;
                    if config.valid() {
                        assert(config.0@[i as int].1.valid());
                        assert(node.0@[c as int].1 matches PaymentMethodDetails::Composite {
                            next: level,
                            ..
                        } && level.valid());
                    }
                }
                let below = match below {
                    Ok(below) => below,
                    Err(error) => {
                        proof {
                            assert forall|more: Seq<u8>| #[trigger]
                                config.resumed(0, used, more, Map::empty()) is Exhausted by {
                                let longer = seq![draw] + (used_below + more);
                                assert(used + more =~= used_before + longer);
                                assert(config.resumed(0, used_before, longer, Map::empty())
                                    == config.walk_from(i as int, longer, before));
                                assert(longer[0] == draw);
                                assert(longer.drop_first() =~= used_below + more);
                                assert(next.resumed(0, used_below, more, Map::empty())
                                    is Exhausted);
                            }
                        }
                        return (Err(error), Ghost(used));
                    },
                };
                proof {
                    assert forall|name: Seq<char>| #[trigger]
                        below@.contains_key(name) implies config.offers(name, below@[name]) by {
                        assert(next.offers(name, below@[name]));
                        assert(node.offers_below(name, below@[name])) by {
                            assert(node.may_choose(c as int));
                        }
                        assert(config.0@[i as int].1.offers_below(name, below@[name]));
                    }
                }
                sample.extend(&below);
                proof {
                    assert forall|more: Seq<u8>| #[trigger]
                        config.resumed(0, used, more, Map::empty()) == config.walk_from(
                            i + 1,
                            more,
                            sample@,
                        ) by {
                        let longer = seq![draw] + (used_below + more);
                        assert(used + more =~= used_before + longer);
                        assert(config.resumed(0, used_before, longer, Map::empty())
                            == config.walk_from(i as int, longer, before));
                        assert(longer[0] == draw);
                        assert(longer.drop_first() =~= used_below + more);
                        assert(next.resumed(0, used_below, more, Map::empty()) == (Walk::Done {
                            context: below@,
                            rest: more,
                        }));
                    }
                }
            },
        }
        i += 1;
    }
    proof {
        assert forall|name: Seq<char>| has_key(config.0@, name) implies sample@.contains_key(
            name,
        ) by {
            let j = choose|j: int| 0 <= j < config.0@.len() && (#[trigger] config.0@[j]).0@ == name;
            assert(sample@.contains_key(config.0@[j].0@));
        }
        assert forall|more: Seq<u8>| #[trigger]
            config.resumed(0, used, more, Map::empty()) == (Walk::Done {
                context: sample@,
                rest: more,
            }) by {
            assert(config.walk_from(i as int, more, sample@) == (Walk::Done {
                context: sample@,
                rest: more,
            }));
        }
    }
    (Ok(sample), Ghost(used))
}

/// The walk with the draws `draws` uses all of them and ends as `outcome`
/// says: with the context, or at a node where a draw had no winner.
pub open spec fn walked(
    config: SimulationConfig,
    draws: Seq<u8>,
    outcome: Result<Context, SimulationError>,
) -> bool {
    &&& below_hundred(draws)
    &&& match outcome {
        Ok(context) => config.walk(draws) == (Walk::Done {
            context: context@,
            rest: Seq::empty(),
        }),
        Err(error) => error is SamplerExhausted && config.walk(draws) is Exhausted,
    }
}

/// Samples every attribute of `config`: one child is drawn per choice node,
/// and where the child is composite, the level below it is sampled too. An
/// attribute met again on the way replaces the value drawn for it before.
///
/// The outcome is that of the walk through the tree with the numbers drawn.
/// A valid tree always yields a context.
pub fn list_payment_methods(config: &SimulationConfig, rng: &mut StdRng) -> (r: Result<
    Context,
    SimulationError,
>)
    ensures
        config.valid() ==> r is Ok,
        exists|draws: Seq<u8>| #[trigger] walked(*config, draws, r),
        r matches Ok(context) ==> {
            &&& drawn_from(context@, *config)
            &&& forall|name: Seq<char>| has_key(config.0@, name) ==> context@.contains_key(name)
        },
{
    let (r, Ghost(used)) = sample_level(config, rng);
    proof {
        let none = Seq::<u8>::empty();
        assert(used + none =~= used);
        if r is Ok {
            assert(config.resumed(0, used, none, Map::empty()) == (Walk::Done {
                context: r->Ok_0@,
                rest: none,
            }));
        } else {
            assert(config.resumed(0, used, none, Map::empty()) is Exhausted);
        }
        assert(walked(*config, used, r));
    }
    r
}

/// Draws an amount between the bounds of `amount_range`, both included; with
/// no range given, between 0 and 2000.
pub fn generate_random_amount(amount_range: &Option<AmountRange>, rng: &mut StdRng) -> (r: u32)
    requires
        amount_range matches Some(range) ==> range.min <= range.max,
    ensures
        match amount_range {
            Some(range) => range.min <= r <= range.max,
            None => r <= 2000,
        },
{
    match amount_range {
        Some(range) => draw_between(rng, range.min as u64, range.max as u64) as u32,
        None => draw_between(rng, 0, 2000) as u32,
    }
}

/// Something that transactions can be sampled from.
pub trait Sampler {
    /// Draws the context of one transaction.
    fn generate_sample(&self, rng: &mut StdRng) -> Result<Context, SimulationError>;
}

impl UserSimulationConfig {
    /// The currency of the samples: the configured one, or `USD`.
    pub open spec fn currency_text(self) -> Seq<char> {
        match self.currency {
            Some(currency) => currency@,
            None => "USD"@,
        }
    }

    /// The context of a transaction with the amount `amount` for which the
    /// walk through the tree found `drawn`: what the tree gives for
    /// `amount` or `currency` replaces what the configuration gives.
    pub open spec fn sample_of(self, amount: u32, drawn: Map<Seq<char>, Seq<char>>) -> Map<
        Seq<char>,
        Seq<char>,
    > {
        Map::empty().insert("amount"@, decimal(amount as nat)).insert(
            "currency"@,
            self.currency_text(),
        ).union_prefer_right(drawn)
    }
}

/// With the amount `amount`, which lies in the range, and the draws `draws`,
/// which the walk through the tree uses up, the sample ends as `outcome`
/// says.
pub open spec fn sampled(
    config: UserSimulationConfig,
    amount: u32,
    draws: Seq<u8>,
    outcome: Result<Context, SimulationError>,
) -> bool {
    &&& config.amount_range().min <= amount <= config.amount_range().max
    &&& below_hundred(draws)
    &&& match outcome {
        Ok(context) => {
            &&& config.payment_methods.walk(draws) matches Walk::Done { context: drawn, rest }
            &&& rest.len() == 0
            &&& context@ == config.sample_of(amount, drawn)
        },
        Err(error) => error is SamplerExhausted && config.payment_methods.walk(draws)
            is Exhausted,
    }
}

impl Sampler for UserSimulationConfig {
    /// Draws an amount and takes the currency (`USD` where none is
    /// configured), then samples the tree. An attribute of the tree named
    /// `amount` or `currency` replaces the value set here.
    ///
    /// An empty amount range is rejected. With any other range the outcome
    /// is that of the walk through the tree with the numbers drawn, and a
    /// valid configuration always yields a sample.
    fn generate_sample(&self, rng: &mut StdRng) -> (r: Result<Context, SimulationError>)
        ensures
            self.valid() ==> r is Ok,
            self.amount_range().min > self.amount_range().max ==> {
                &&& r matches Err(SimulationError::ConfigInvalid { path, reason })
                &&& reason == ConfigFault::EmptyAmountRange
                &&& key_texts(path@) == seq!["amount"@]
            },
            self.amount_range().min <= self.amount_range().max ==> exists|
                amount: u32,
                draws: Seq<u8>,
            | #[trigger] sampled(*self, amount, draws, r),
            r matches Ok(context) ==> {
                &&& context@.contains_key("amount"@)
                &&& context@.contains_key("currency"@)
                &&& forall|name: Seq<char>|
                    has_key(self.payment_methods.0@, name) ==> context@.contains_key(name)
            },
    {
        match &self.amount {
            Some(range) => {
                if range.min > range.max {
                    let mut path: Vec<Key> = Vec::new();
                    path.push(Key::new("amount"));
                    assert(key_texts(path@) =~= seq!["amount"@]);
                    return Err(
                        SimulationError::ConfigInvalid {
                            path,
                            reason: ConfigFault::EmptyAmountRange,
                        },
                    );
                }
            },
            None => {},
        }
        let amount = generate_random_amount(&self.amount, rng);
        let currency = match &self.currency {
            Some(currency) => Key(currency.clone()),
            None => Key::new("USD"),
        };
        let mut sample = Context::new();
        sample.insert(Key::new("amount"), Key(decimal_text(amount)));
        sample.insert(Key::new("currency"), currency);
        let (drawn, Ghost(used)) = sample_level(&self.payment_methods, rng);
        let drawn = match drawn {
            Ok(drawn) => drawn,
            Err(error) => {
                proof {
                    let none = Seq::<u8>::empty();
                    assert(used + none =~= used);
                    assert(self.payment_methods.resumed(0, used, none, Map::empty())
                        is Exhausted);
                    assert(sampled(*self, amount, used, Err(error)));
                }
                return Err(error);
            },
        };
        sample.extend(&drawn);
        proof {
            let none = Seq::<u8>::empty();
            assert(used + none =~= used);
            assert(self.payment_methods.resumed(0, used, none, Map::empty()) == (Walk::Done {
                context: drawn@,
                rest: none,
            }));
            assert(sample@ == self.sample_of(amount, drawn@));
            assert(sampled(*self, amount, used, Ok(sample)));
        }
        Ok(sample)
    }
}

} // verus!

//! The cells of the metrics tree and the sums over them.

use crate::key::{
    find_key, has_key, key_names, keys_distinct, lemma_key_names, lemma_push_entry,
    lemma_replace_value, lemma_value_at_entry, value_at, with_name, Key,
};
use crate::metrics::{
    lemma_sum_agrees, lemma_sum_grows, lemma_sum_ordered, lemma_sum_replaced, line_views,
    lines_bounded, sum_to, RateLine, RateLineView,
};
use crate::types::Status;
use vstd::prelude::*;

verus! {

/// The successes and failures counted in one cell of the tree.
#[derive(Debug, Clone, Copy, PartialEq, Eq, Structural)]
pub struct OutcomeCounts {
    pub successes: usize,
    pub failures: usize,
}

/// The cells of one payment method, by payment method type.
pub type TypeLevel = Vec<(Key, OutcomeCounts)>;

/// The cells of one connector, by payment method.
pub type MethodLevel = Vec<(Key, TypeLevel)>;

/// The cells of all connectors.
pub type ConnectorLevel = Vec<(Key, MethodLevel)>;

/// What a cell adds to a sum: its successes, or all its outcomes.
pub open spec fn weight(counts: OutcomeCounts, only_successes: bool) -> nat {
    if only_successes {
        counts.successes as nat
    } else {
        (counts.successes + counts.failures) as nat
    }
}

/// The weights of the cells of one payment method.
pub open spec fn type_weights(types: Seq<(Key, OutcomeCounts)>, only_successes: bool) -> Seq<nat> {
    Seq::new(types.len(), |i: int| weight(types[i].1, only_successes))
}

/// The outcomes, or the successes, counted for one payment method.
pub open spec fn types_total(types: Seq<(Key, OutcomeCounts)>, only_successes: bool) -> nat {
    sum_to(type_weights(types, only_successes), types.len() as int)
}

/// The totals of the payment methods of one connector.
pub open spec fn method_weights(methods: Seq<(Key, TypeLevel)>, only_successes: bool) -> Seq<nat> {
    Seq::new(methods.len(), |i: int| types_total(methods[i].1@, only_successes))
}

/// The outcomes, or the successes, counted for one connector.
pub open spec fn methods_total(methods: Seq<(Key, TypeLevel)>, only_successes: bool) -> nat {
    sum_to(method_weights(methods, only_successes), methods.len() as int)
}

/// The totals of the connectors.
pub open spec fn connector_weights(connectors: Seq<(Key, MethodLevel)>, only_successes: bool) -> Seq<
    nat,
> {
    Seq::new(connectors.len(), |i: int| methods_total(connectors[i].1@, only_successes))
}

/// The outcomes, or the successes, counted in the whole tree.
pub open spec fn connectors_total(connectors: Seq<(Key, MethodLevel)>, only_successes: bool) -> nat {
    sum_to(connector_weights(connectors, only_successes), connectors.len() as int)
}

/// No payment method occurs twice, and within none a type occurs twice.
pub open spec fn methods_distinct(methods: Seq<(Key, TypeLevel)>) -> bool {
    &&& keys_distinct(methods)
    &&& forall|i: int| 0 <= i < methods.len() ==> keys_distinct((#[trigger] methods[i]).1@)
}

/// No connector occurs twice, and within none a payment method or a type
/// occurs twice.
pub open spec fn connectors_distinct(connectors: Seq<(Key, MethodLevel)>) -> bool {
    &&& keys_distinct(connectors)
    &&& forall|i: int| 0 <= i < connectors.len() ==> methods_distinct((#[trigger] connectors[i]).1@)
}

/// The cell of the payment method type `kind` within one payment method.
pub open spec fn type_cell(types: Seq<(Key, OutcomeCounts)>, kind: Seq<char>) -> Option<
    OutcomeCounts,
> {
    value_at(types, kind)
}

/// The cell of `method` and `kind` within one connector.
pub open spec fn method_cell(methods: Seq<(Key, TypeLevel)>, method: Seq<char>, kind: Seq<char>) -> Option<
    OutcomeCounts,
> {
    match value_at(methods, method) {
        Some(types) => type_cell(types@, kind),
        None => None,
    }
}

/// The cell of `connector`, `method` and `kind`.
pub open spec fn connector_cell(
    connectors: Seq<(Key, MethodLevel)>,
    connector: Seq<char>,
    method: Seq<char>,
    kind: Seq<char>,
) -> Option<OutcomeCounts> {
    match value_at(connectors, connector) {
        Some(methods) => method_cell(methods@, method, kind),
        None => None,
    }
}

/// How often `verdict` was counted in a cell; never in a missing one.
pub open spec fn tally(cell: Option<OutcomeCounts>, verdict: Status) -> nat {
    match cell {
        Some(counts) => match verdict {
            Status::Success => counts.successes as nat,
            Status::Failure => counts.failures as nat,
        },
        None => 0,
    }
}

/// One if an outcome `verdict` in the cell in question is counted under
/// `under`, zero if it is another cell or the other outcome.
pub open spec fn hit(same_cell: bool, verdict: Status, under: Status) -> nat {
    if same_cell && verdict == under {
        1
    } else {
        0
    }
}

/// One if `verdict` adds to the sum, zero if it does not.
pub open spec fn adds(verdict: Status, only_successes: bool) -> nat {
    if only_successes && verdict == Status::Failure {
        0
    } else {
        1
    }
}

/// The types counted under the payment method `method`, in their order.
pub open spec fn types_under(methods: Seq<(Key, TypeLevel)>, method: Seq<char>) -> Seq<Seq<char>> {
    match value_at(methods, method) {
        Some(types) => key_names(types@),
        None => Seq::empty(),
    }
}

/// The payment methods counted under `connector`, in their order.
pub open spec fn methods_under(connectors: Seq<(Key, MethodLevel)>, connector: Seq<char>) -> Seq<
    Seq<char>,
> {
    match value_at(connectors, connector) {
        Some(methods) => key_names(methods@),
        None => Seq::empty(),
    }
}

/// The types counted under `connector` and `method`, in their order.
pub open spec fn types_below(
    connectors: Seq<(Key, MethodLevel)>,
    connector: Seq<char>,
    method: Seq<char>,
) -> Seq<Seq<char>> {
    match value_at(connectors, connector) {
        Some(methods) => types_under(methods@, method),
        None => Seq::empty(),
    }
}

/// Counts `verdict` in the cell of `kind`, which is made where it is missing.
pub fn bump_type(types: &mut TypeLevel, kind: &Key, verdict: Status)
    requires
        keys_distinct(old(types)@),
        types_total(old(types)@, false) < usize::MAX,
    ensures
        keys_distinct(final(types)@),
        key_names(final(types)@) == with_name(key_names(old(types)@), kind@),
        forall|k: Seq<char>, v: Status|
            #![trigger tally(type_cell(final(types)@, k), v)]
            tally(type_cell(final(types)@, k), v) == tally(type_cell(old(types)@, k), v) + hit(
                k == kind@,
                verdict,
                v,
            ),
        forall|only: bool|
            #![trigger types_total(final(types)@, only)]
            types_total(final(types)@, only) == types_total(old(types)@, only) + adds(
                verdict,
                only,
            ),
{
    let ghost before = types@;
    match find_key(types, kind) {
        Some(i) => {
            proof {
                lemma_sum_grows(type_weights(before, false), i as int, before.len() as int);
                lemma_value_at_entry(before, i as int);
            }
            match verdict {
                Status::Success => {
                    types[i].1.successes += 1;
                },
                Status::Failure => {
                    types[i].1.failures += 1;
                },
            }
            proof {
                let after = types@;
                let cell = after[i as int].1;
                assert(after =~= before.update(i as int, (before[i as int].0, cell)));
                lemma_replace_value(before, i as int, cell);
                lemma_key_names(before, kind@);
                assert(key_names(after) =~= key_names(before));
                assert forall|only: bool| #![trigger types_total(after, only)] types_total(after, only)
                    == types_total(before, only) + adds(verdict, only) by {
                    let old_weights = type_weights(before, only);
                    lemma_sum_replaced(
                        old_weights,
                        i as int,
                        weight(cell, only),
                        before.len() as int,
                    );
                    assert(type_weights(after, only) =~= old_weights.update(
                        i as int,
                        weight(cell, only),
                    ));
                }
            }
        },
        None => {
            let cell = match verdict {
                Status::Success => OutcomeCounts { successes: 1, failures: 0 },
                Status::Failure => OutcomeCounts { successes: 0, failures: 1 },
            };
            types.push((kind.clone(), cell));
            proof {
                let after = types@;
                lemma_push_entry(before, after[before.len() as int].0, cell);
                assert(after =~= before.push((after[before.len() as int].0, cell)));
                lemma_key_names(before, kind@);
                assert(key_names(after) =~= key_names(before).push(kind@));
                assert forall|only: bool| #![trigger types_total(after, only)] types_total(after, only)
                    == types_total(before, only) + adds(verdict, only) by {
                    lemma_sum_agrees(
                        type_weights(after, only),
                        type_weights(before, only),
                        before.len() as int,
                    );
                }
            }
        },
    }
}

/// Counts `verdict` in the cell of `method` and `kind`.
pub fn bump_method(methods: &mut MethodLevel, method: &Key, kind: &Key, verdict: Status)
    requires
        methods_distinct(old(methods)@),
        methods_total(old(methods)@, false) < usize::MAX,
    ensures
        methods_distinct(final(methods)@),
        key_names(final(methods)@) == with_name(key_names(old(methods)@), method@),
        forall|m: Seq<char>|
            #![trigger types_under(final(methods)@, m)]
            types_under(final(methods)@, m) == if m == method@ {
                with_name(types_under(old(methods)@, m), kind@)
            } else {
                types_under(old(methods)@, m)
            },
        forall|m: Seq<char>, k: Seq<char>, v: Status|
            #![trigger tally(method_cell(final(methods)@, m, k), v)]
            tally(method_cell(final(methods)@, m, k), v) == tally(
                method_cell(old(methods)@, m, k),
                v,
            ) + hit(m == method@ && k == kind@, verdict, v),
        forall|only: bool|
            #![trigger methods_total(final(methods)@, only)]
            methods_total(final(methods)@, only) == methods_total(old(methods)@, only) + adds(
                verdict,
                only,
            ),
{
    let ghost before = methods@;
    match find_key(methods, method) {
        Some(j) => {
            proof {
                lemma_sum_grows(method_weights(before, false), j as int, before.len() as int);
                lemma_value_at_entry(before, j as int);
            }
            bump_type(&mut methods[j].1, kind, verdict);
            proof {
                let after = methods@;
                let types = after[j as int].1;
                assert(after =~= before.update(j as int, (before[j as int].0, types)));
                lemma_replace_value(before, j as int, types);
                lemma_key_names(before, method@);
                assert(key_names(after) =~= key_names(before));
                assert forall|m: Seq<char>|
                    #![trigger types_under(after, m)]
                    types_under(after, m) == if m == method@ {
                        with_name(types_under(before, m), kind@)
                    } else {
                        types_under(before, m)
                    } by {
                    assert(value_at(after, m) == if m == before[j as int].0@ {
                        Some(types)
                    } else {
                        value_at(before, m)
                    });
                }
                assert forall|m: Seq<char>, k: Seq<char>, v: Status|
                    #![trigger tally(method_cell(after, m, k), v)]
                    tally(method_cell(after, m, k), v) == tally(method_cell(before, m, k), v)
                        + hit(m == method@ && k == kind@, verdict, v) by {
                    assert(value_at(after, m) == if m == before[j as int].0@ {
                        Some(types)
                    } else {
                        value_at(before, m)
                    });
                    if m == method@ {
                        assert(tally(type_cell(types@, k), v) == tally(
                            type_cell(before[j as int].1@, k),
                            v,
                        ) + hit(k == kind@, verdict, v));
                    }
                }
                assert forall|only: bool|
                    #![trigger methods_total(after, only)]
                    methods_total(after, only) == methods_total(before, only) + adds(
                        verdict,
                        only,
                    ) by {
                    let old_weights = method_weights(before, only);
                    assert(types_total(types@, only) == types_total(before[j as int].1@, only)
                        + adds(verdict, only));
                    lemma_sum_replaced(
                        old_weights,
                        j as int,
                        types_total(types@, only),
                        before.len() as int,
                    );
                    assert(method_weights(after, only) =~= old_weights.update(
                        j as int,
                        types_total(types@, only),
                    ));
                }
            }
        },
        None => {
            let mut types: TypeLevel = Vec::new();
            let ghost empty = types@;
            bump_type(&mut types, kind, verdict);
            methods.push((method.clone(), types));
            proof {
                let after = methods@;
                let added = after[before.len() as int];
                lemma_push_entry(before, added.0, added.1);
                assert(after =~= before.push((added.0, added.1)));
                assert(!has_key(empty, kind@));
                lemma_key_names(before, method@);
                assert(key_names(after) =~= key_names(before).push(method@));
                assert(key_names(empty) =~= Seq::<Seq<char>>::empty());
                assert forall|m: Seq<char>|
                    #![trigger types_under(after, m)]
                    types_under(after, m) == if m == method@ {
                        with_name(types_under(before, m), kind@)
                    } else {
                        types_under(before, m)
                    } by {
                    assert(value_at(after, m) == if m == added.0@ {
                        Some(added.1)
                    } else {
                        value_at(before, m)
                    });
                }
                assert forall|m: Seq<char>, k: Seq<char>, v: Status|
                    #![trigger tally(method_cell(after, m, k), v)]
                    tally(method_cell(after, m, k), v) == tally(method_cell(before, m, k), v)
                        + hit(m == method@ && k == kind@, verdict, v) by {
                    assert(value_at(after, m) == if m == added.0@ {
                        Some(added.1)
                    } else {
                        value_at(before, m)
                    });
                    if m == method@ {
                        assert(tally(type_cell(added.1@, k), v) == tally(type_cell(empty, k), v)
                            + hit(k == kind@, verdict, v));
                        assert(!has_key(empty, k));
                    }
                }
                assert forall|only: bool|
                    #![trigger methods_total(after, only)]
                    methods_total(after, only) == methods_total(before, only) + adds(
                        verdict,
                        only,
                    ) by {
                    assert(types_total(added.1@, only) == types_total(empty, only) + adds(
                        verdict,
                        only,
                    ));
                    lemma_sum_agrees(
                        method_weights(after, only),
                        method_weights(before, only),
                        before.len() as int,
                    );
                }
            }
        },
    }
}

/// Counts `verdict` in the cell of `connector`, `method` and `kind`.
pub fn bump_connector(
    connectors: &mut ConnectorLevel,
    connector: &Key,
    method: &Key,
    kind: &Key,
    verdict: Status,
)
    requires
        connectors_distinct(old(connectors)@),
        connectors_total(old(connectors)@, false) < usize::MAX,
    ensures
        connectors_distinct(final(connectors)@),
        key_names(final(connectors)@) == with_name(key_names(old(connectors)@), connector@),
        forall|c: Seq<char>|
            #![trigger methods_under(final(connectors)@, c)]
            methods_under(final(connectors)@, c) == if c == connector@ {
                with_name(methods_under(old(connectors)@, c), method@)
            } else {
                methods_under(old(connectors)@, c)
            },
        forall|c: Seq<char>, m: Seq<char>|
            #![trigger types_below(final(connectors)@, c, m)]
            types_below(final(connectors)@, c, m) == if c == connector@ && m == method@ {
                with_name(types_below(old(connectors)@, c, m), kind@)
            } else {
                types_below(old(connectors)@, c, m)
            },
        forall|c: Seq<char>, m: Seq<char>, k: Seq<char>, v: Status|
            #![trigger tally(connector_cell(final(connectors)@, c, m, k), v)]
            tally(connector_cell(final(connectors)@, c, m, k), v) == tally(
                connector_cell(old(connectors)@, c, m, k),
                v,
            ) + hit(c == connector@ && m == method@ && k == kind@, verdict, v),
        forall|only: bool|
            #![trigger connectors_total(final(connectors)@, only)]
            connectors_total(final(connectors)@, only) == connectors_total(
                old(connectors)@,
                only,
            ) + adds(verdict, only),
{
    let ghost before = connectors@;
    match find_key(connectors, connector) {
        Some(j) => {
            proof {
                lemma_sum_grows(connector_weights(before, false), j as int, before.len() as int);
                lemma_value_at_entry(before, j as int);
            }
            bump_method(&mut connectors[j].1, method, kind, verdict);
            proof {
                let after = connectors@;
                let methods = after[j as int].1;
                assert(after =~= before.update(j as int, (before[j as int].0, methods)));
                lemma_replace_value(before, j as int, methods);
                lemma_key_names(before, connector@);
                assert(key_names(after) =~= key_names(before));
                assert forall|c: Seq<char>|
                    #![trigger methods_under(after, c)]
                    methods_under(after, c) == if c == connector@ {
                        with_name(methods_under(before, c), method@)
                    } else {
                        methods_under(before, c)
                    } by {
                    assert(value_at(after, c) == if c == before[j as int].0@ {
                        Some(methods)
                    } else {
                        value_at(before, c)
                    });
                }
                assert forall|c: Seq<char>, m: Seq<char>|
                    #![trigger types_below(after, c, m)]
                    types_below(after, c, m) == if c == connector@ && m == method@ {
                        with_name(types_below(before, c, m), kind@)
                    } else {
                        types_below(before, c, m)
                    } by {
                    assert(value_at(after, c) == if c == before[j as int].0@ {
                        Some(methods)
                    } else {
                        value_at(before, c)
                    });
                    if c == connector@ {
                        assert(types_under(methods@, m) == if m == method@ {
                            with_name(types_under(before[j as int].1@, m), kind@)
                        } else {
                            types_under(before[j as int].1@, m)
                        });
                    }
                }
                assert forall|c: Seq<char>, m: Seq<char>, k: Seq<char>, v: Status|
                    #![trigger tally(connector_cell(after, c, m, k), v)]
                    tally(connector_cell(after, c, m, k), v) == tally(
                        connector_cell(before, c, m, k),
                        v,
                    ) + hit(c == connector@ && m == method@ && k == kind@, verdict, v) by {
                    assert(value_at(after, c) == if c == before[j as int].0@ {
                        Some(methods)
                    } else {
                        value_at(before, c)
                    });
                    if c == connector@ {
                        assert(tally(method_cell(methods@, m, k), v) == tally(
                            method_cell(before[j as int].1@, m, k),
                            v,
                        ) + hit(m == method@ && k == kind@, verdict, v));
                    }
                }
                assert forall|only: bool|
                    #![trigger connectors_total(after, only)]
                    connectors_total(after, only) == connectors_total(before, only) + adds(
                        verdict,
                        only,
                    ) by {
                    let old_weights = connector_weights(before, only);
                    assert(methods_total(methods@, only) == methods_total(
                        before[j as int].1@,
                        only,
                    ) + adds(verdict, only));
                    lemma_sum_replaced(
                        old_weights,
                        j as int,
                        methods_total(methods@, only),
                        before.len() as int,
                    );
                    assert(connector_weights(after, only) =~= old_weights.update(
                        j as int,
                        methods_total(methods@, only),
                    ));
                }
            }
        },
        None => {
            let mut methods: MethodLevel = Vec::new();
            let ghost empty = methods@;
            bump_method(&mut methods, method, kind, verdict);
            connectors.push((connector.clone(), methods));
            proof {
                let after = connectors@;
                let added = after[before.len() as int];
                lemma_push_entry(before, added.0, added.1);
                assert(after =~= before.push((added.0, added.1)));
                lemma_key_names(before, connector@);
                assert(key_names(after) =~= key_names(before).push(connector@));
                assert(key_names(empty) =~= Seq::<Seq<char>>::empty());
                assert forall|c: Seq<char>|
                    #![trigger methods_under(after, c)]
                    methods_under(after, c) == if c == connector@ {
                        with_name(methods_under(before, c), method@)
                    } else {
                        methods_under(before, c)
                    } by {
                    assert(value_at(after, c) == if c == added.0@ {
                        Some(added.1)
                    } else {
                        value_at(before, c)
                    });
                }
                assert forall|c: Seq<char>, m: Seq<char>|
                    #![trigger types_below(after, c, m)]
                    types_below(after, c, m) == if c == connector@ && m == method@ {
                        with_name(types_below(before, c, m), kind@)
                    } else {
                        types_below(before, c, m)
                    } by {
                    assert(value_at(after, c) == if c == added.0@ {
                        Some(added.1)
                    } else {
                        value_at(before, c)
                    });
                    if c == connector@ {
                        assert(types_under(added.1@, m) == if m == method@ {
                            with_name(types_under(empty, m), kind@)
                        } else {
                            types_under(empty, m)
                        });
                        assert(!has_key(empty, m));
                    }
                }
                assert forall|c: Seq<char>, m: Seq<char>, k: Seq<char>, v: Status|
                    #![trigger tally(connector_cell(after, c, m, k), v)]
                    tally(connector_cell(after, c, m, k), v) == tally(
                        connector_cell(before, c, m, k),
                        v,
                    ) + hit(c == connector@ && m == method@ && k == kind@, verdict, v) by {
                    assert(value_at(after, c) == if c == added.0@ {
                        Some(added.1)
                    } else {
                        value_at(before, c)
                    });
                    if c == connector@ {
                        assert(tally(method_cell(added.1@, m, k), v) == tally(
                            method_cell(empty, m, k),
                            v,
                        ) + hit(m == method@ && k == kind@, verdict, v));
                        assert(!has_key(empty, m));
                    }
                }
                assert forall|only: bool|
                    #![trigger connectors_total(after, only)]
                    connectors_total(after, only) == connectors_total(before, only) + adds(
                        verdict,
                        only,
                    ) by {
                    assert(methods_total(added.1@, only) == methods_total(empty, only) + adds(
                        verdict,
                        only,
                    ));
                    lemma_sum_agrees(
                        connector_weights(after, only),
                        connector_weights(before, only),
                        before.len() as int,
                    );
                }
            }
        },
    }
}

/// The lines of the first `n` payment method types of one payment method.
pub open spec fn cell_lines(
    connector: Seq<char>,
    method: Seq<char>,
    types: Seq<(Key, OutcomeCounts)>,
    n: int,
) -> Seq<RateLineView>
    decreases n,
{
    if n <= 0 {
        Seq::empty()
    } else {
        cell_lines(connector, method, types, n - 1).push(
            RateLineView {
                connector,
                payment_method: Some(method),
                payment_method_type: Some(types[n - 1].0@),
                successes: weight(types[n - 1].1, true),
                total: weight(types[n - 1].1, false),
            },
        )
    }
}

/// The lines of the first `n` payment methods of one connector: for each of
/// them its own line, then the lines of its types.
pub open spec fn level_lines(connector: Seq<char>, methods: Seq<(Key, TypeLevel)>, n: int) -> Seq<
    RateLineView,
>
    decreases n,
{
    if n <= 0 {
        Seq::empty()
    } else {
        let types = methods[n - 1].1@;
        level_lines(connector, methods, n - 1).push(
            RateLineView {
                connector,
                payment_method: Some(methods[n - 1].0@),
                payment_method_type: None,
                successes: types_total(types, true),
                total: types_total(types, false),
            },
        ) + cell_lines(connector, methods[n - 1].0@, types, types.len() as int)
    }
}

/// The lines of the first `n` connectors: for each of them its own line,
/// then the lines of its payment methods.
pub open spec fn tree_lines(connectors: Seq<(Key, MethodLevel)>, n: int) -> Seq<RateLineView>
    decreases n,
{
    if n <= 0 {
        Seq::empty()
    } else {
        let methods = connectors[n - 1].1@;
        tree_lines(connectors, n - 1).push(
            RateLineView {
                connector: connectors[n - 1].0@,
                payment_method: None,
                payment_method_type: None,
                successes: methods_total(methods, true),
                total: methods_total(methods, false),
            },
        ) + level_lines(connectors[n - 1].0@, methods, methods.len() as int)
    }
}

/// The successes of a payment method are among its outcomes.
pub proof fn lemma_types_successes_bounded(types: Seq<(Key, OutcomeCounts)>)
    ensures
        types_total(types, true) <= types_total(types, false),
{
    lemma_sum_ordered(type_weights(types, true), type_weights(types, false), types.len() as int);
}

/// The successes of a connector are among its outcomes.
pub proof fn lemma_methods_successes_bounded(methods: Seq<(Key, TypeLevel)>)
    ensures
        methods_total(methods, true) <= methods_total(methods, false),
{
    assert forall|i: int| 0 <= i < methods.len() implies method_weights(methods, true)[i]
        <= method_weights(methods, false)[i] by {
        lemma_types_successes_bounded(methods[i].1@);
    }
    lemma_sum_ordered(
        method_weights(methods, true),
        method_weights(methods, false),
        methods.len() as int,
    );
}

/// The successes of the whole tree are among its outcomes.
pub proof fn lemma_connectors_successes_bounded(connectors: Seq<(Key, MethodLevel)>)
    ensures
        connectors_total(connectors, true) <= connectors_total(connectors, false),
{
    assert forall|i: int| 0 <= i < connectors.len() implies connector_weights(connectors, true)[i]
        <= connector_weights(connectors, false)[i] by {
        lemma_methods_successes_bounded(connectors[i].1@);
    }
    lemma_sum_ordered(
        connector_weights(connectors, true),
        connector_weights(connectors, false),
        connectors.len() as int,
    );
}

/// The successes and the outcomes counted for one payment method.
pub fn count_types(types: &TypeLevel) -> (r: (usize, usize))
    requires
        types_total(types@, false) <= usize::MAX,
    ensures
        r.0 == types_total(types@, true),
        r.1 == types_total(types@, false),
{
    let mut successes: usize = 0;
    let mut total: usize = 0;
    let mut i: usize = 0;
    while i < types.len()
        invariant
            i <= types@.len(),
            types_total(types@, false) <= usize::MAX,
            successes == sum_to(type_weights(types@, true), i as int),
            total == sum_to(type_weights(types@, false), i as int),
            successes <= total,
        decreases types@.len() - i,
    {
        proof {
            lemma_sum_grows(type_weights(types@, false), i as int, types@.len() as int);
        }
        successes = successes + types[i].1.successes;
        total = total + types[i].1.successes + types[i].1.failures;
        i += 1;
    }
    (successes, total)
}

/// The successes and the outcomes counted for one connector.
pub fn count_methods(methods: &MethodLevel) -> (r: (usize, usize))
    requires
        methods_total(methods@, false) <= usize::MAX,
    ensures
        r.0 == methods_total(methods@, true),
        r.1 == methods_total(methods@, false),
{
    let mut successes: usize = 0;
    let mut total: usize = 0;
    let mut i: usize = 0;
    while i < methods.len()
        invariant
            i <= methods@.len(),
            methods_total(methods@, false) <= usize::MAX,
            successes == sum_to(method_weights(methods@, true), i as int),
            total == sum_to(method_weights(methods@, false), i as int),
            successes <= total,
        decreases methods@.len() - i,
    {
        proof {
            lemma_sum_grows(method_weights(methods@, false), i as int, methods@.len() as int);
            lemma_types_successes_bounded(methods@[i as int].1@);
        }
        let (some, all) = count_types(&methods[i].1);
        successes = successes + some;
        total = total + all;
        i += 1;
    }
    (successes, total)
}

/// The lines of the payment method types of one payment method.
pub fn rate_lines_of_types(connector: &Key, method: &Key, types: &TypeLevel) -> (r: Vec<RateLine>)
    requires
        types_total(types@, false) <= usize::MAX,
    ensures
        line_views(r@) == cell_lines(connector@, method@, types@, types@.len() as int),
        lines_bounded(r@),
{
    let mut lines: Vec<RateLine> = Vec::new();
    let mut i: usize = 0;
    assert(line_views(lines@) =~= cell_lines(connector@, method@, types@, 0));
    while i < types.len()
        invariant
            i <= types@.len(),
            types_total(types@, false) <= usize::MAX,
            line_views(lines@) == cell_lines(connector@, method@, types@, i as int),
            lines_bounded(lines@),
        decreases types@.len() - i,
    {
        proof {
            lemma_sum_grows(type_weights(types@, false), i as int, types@.len() as int);
        }
        let ghost before = lines@;
        let line = RateLine {
            connector: connector.0.clone(),
            payment_method: Some(method.0.clone()),
            payment_method_type: Some(types[i].0.0.clone()),
            successes: types[i].1.successes,
            total: types[i].1.successes + types[i].1.failures,
        };
        lines.push(line);
        assert(line_views(lines@) =~= line_views(before).push(line@));
        i += 1;
    }
    lines
}

/// The lines of the payment methods of one connector.
pub fn rate_lines_of_methods(connector: &Key, methods: &MethodLevel) -> (r: Vec<RateLine>)
    requires
        methods_total(methods@, false) <= usize::MAX,
    ensures
        line_views(r@) == level_lines(connector@, methods@, methods@.len() as int),
        lines_bounded(r@),
{
    let mut lines: Vec<RateLine> = Vec::new();
    let mut i: usize = 0;
    assert(line_views(lines@) =~= level_lines(connector@, methods@, 0));
    while i < methods.len()
        invariant
            i <= methods@.len(),
            methods_total(methods@, false) <= usize::MAX,
            line_views(lines@) == level_lines(connector@, methods@, i as int),
            lines_bounded(lines@),
        decreases methods@.len() - i,
    {
        proof {
            lemma_sum_grows(method_weights(methods@, false), i as int, methods@.len() as int);
            lemma_types_successes_bounded(methods@[i as int].1@);
        }
        let ghost before = lines@;
        let (successes, total) = count_types(&methods[i].1);
        let line = RateLine {
            connector: connector.0.clone(),
            payment_method: Some(methods[i].0.0.clone()),
            payment_method_type: None,
            successes,
            total,
        };
        lines.push(line);
        let mut below = rate_lines_of_types(connector, &methods[i].0, &methods[i].1);
        let ghost middle = lines@;
        let ghost tail = below@;
        lines.append(&mut below);
        assert(line_views(lines@) =~= line_views(before).push(line@) + line_views(tail)) by {
            assert(lines@ =~= middle + tail);
            assert(middle =~= before.push(line));
        }
        i += 1;
    }
    lines
}

/// The connector and the number of outcomes of each of the first `n`
/// connectors.
pub open spec fn tree_shares(connectors: Seq<(Key, MethodLevel)>, n: int) -> Seq<
    (Seq<char>, nat),
> {
    Seq::new(
        if n <= 0 {
            0nat
        } else {
            n as nat
        },
        |i: int| (connectors[i].0@, methods_total(connectors[i].1@, false)),
    )
}

} // verus!

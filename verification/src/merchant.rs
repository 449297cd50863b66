//! The merchant filter: which connectors may take a transaction.

use crate::context::Context;
use crate::key::{find_key, has_key, key_position, keys_distinct, lemma_key_position, Key};
use crate::types::{key_texts, ConnectorDetails, MerchantConfig};
use vstd::prelude::*;
use vstd::string::StringExecFns;

verus! {

/// The list `types` names the payment method type `kind`, or the wildcard
/// `*`. A missing list names nothing.
pub open spec fn lists_type(types: Option<Vec<String>>, kind: Seq<char>) -> bool {
    types matches Some(list) && exists|i: int|
        0 <= i < list@.len() && ((#[trigger] list@[i])@ == kind || list@[i]@ == "*"@)
}

impl ConnectorDetails {
    /// The connector may take the transaction `sample`: it supports the
    /// sample's payment method, and the sample names no payment method type
    /// or one that the connector lists for that method.
    pub open spec fn supports(self, sample: Map<Seq<char>, Seq<char>>) -> bool {
        &&& sample.contains_key("payment_methods"@)
        &&& has_key(self.supported_payment_methods@, sample["payment_methods"@])
        &&& sample.contains_key("payment_method_type"@) ==> lists_type(
            self.supported_payment_methods@[key_position(
                self.supported_payment_methods@,
                sample["payment_methods"@],
            )].1.payment_method_types,
            sample["payment_method_type"@],
        )
    }
}

/// The names of those among the first `n` connectors that may take the
/// transaction `sample`, in the order of the configuration.
pub open spec fn eligible(
    connectors: Seq<(Key, ConnectorDetails)>,
    sample: Map<Seq<char>, Seq<char>>,
    n: int,
) -> Seq<Seq<char>>
    decreases n,
{
    if n <= 0 {
        Seq::empty()
    } else if connectors[n - 1].1.supports(sample) {
        eligible(connectors, sample, n - 1).push(connectors[n - 1].0@)
    } else {
        eligible(connectors, sample, n - 1)
    }
}

/// Each of the names among the first `n` connectors that may take the
/// transaction is the name of one of those connectors, and where no
/// connector occurs twice in the configuration, none occurs twice among
/// them.
pub proof fn lemma_eligible_distinct(
    connectors: Seq<(Key, ConnectorDetails)>,
    sample: Map<Seq<char>, Seq<char>>,
    n: int,
)
    requires
        0 <= n <= connectors.len(),
    ensures
        forall|name: Seq<char>|
            eligible(connectors, sample, n).contains(name) ==> exists|i: int|
                0 <= i < n && (#[trigger] connectors[i]).0@ == name && connectors[i].1.supports(
                    sample,
                ),
        keys_distinct(connectors) ==> eligible(connectors, sample, n).no_duplicates(),
    decreases n,
{
    if n > 0 {
        lemma_eligible_distinct(connectors, sample, n - 1);
        let earlier = eligible(connectors, sample, n - 1);
        let now = eligible(connectors, sample, n);
        assert forall|name: Seq<char>| now.contains(name) implies exists|i: int|
            0 <= i < n && (#[trigger] connectors[i]).0@ == name && connectors[i].1.supports(
                sample,
            ) by {
            let at = choose|at: int| 0 <= at < now.len() && now[at] == name;
            if at < earlier.len() {
                assert(earlier[at] == name);
                assert(earlier.contains(name));
            } else {
                assert(connectors[n - 1].0@ == name);
            }
        }
        if keys_distinct(connectors) {
            assert forall|a: int, b: int| 0 <= a < now.len() && 0 <= b < now.len() && a
                != b implies now[a] != now[b] by {
                if a < earlier.len() && b < earlier.len() {
                } else {
                    let inner = if a < earlier.len() {
                        a
                    } else {
                        b
                    };
                    assert(earlier.contains(earlier[inner]));
                    let i = choose|i: int|
                        0 <= i < n - 1 && (#[trigger] connectors[i]).0@ == earlier[inner];
                    assert(connectors[i].0@ != connectors[n - 1].0@);
                }
            }
        }
    }
}

/// Tells whether `types` names `kind` or the wildcard.
fn names_type(types: &Option<Vec<String>>, kind: &Key) -> (r: bool)
    ensures
        r == lists_type(*types, kind@),
{
    match types {
        Some(list) => {
            let star = String::from_str("*");
            let mut i: usize = 0;
            while i < list.len()
                invariant
                    i <= list@.len(),
                    star@ == "*"@,
                    *types == Some(*list),
                    forall|j: int|
                        0 <= j < i ==> (#[trigger] list@[j])@ != kind@ && list@[j]@ != "*"@,
                decreases list@.len() - i,
            {
                if list[i] == kind.0 || list[i] == star {
                    assert(*types matches Some(listed) && listed@ == list@);
                    assert(exists|j: int|
                        0 <= j < list@.len() && ((#[trigger] list@[j])@ == kind@ || list@[j]@
                            == "*"@));
                    return true;
                }
                i += 1;
            }
            false
        },
        None => false,
    }
}

/// Tells whether the connector may take a transaction with the payment
/// method `method` and, where there is one, the payment method type `kind`.
fn connector_supports(details: &ConnectorDetails, method: Option<&Key>, kind: Option<&Key>) -> (r:
    bool)
    ensures
        forall|sample: Map<Seq<char>, Seq<char>>|
            {
                &&& match method {
                    Some(m) => sample.contains_key("payment_methods"@) && sample["payment_methods"@]
                        == m@,
                    None => !sample.contains_key("payment_methods"@),
                }
                &&& match kind {
                    Some(k) => sample.contains_key("payment_method_type"@)
                        && sample["payment_method_type"@] == k@,
                    None => !sample.contains_key("payment_method_type"@),
                }
            } ==> r == #[trigger] details.supports(sample),
{
    let method = match method {
        Some(method) => method,
        None => {
            return false;
        },
    };
    proof {
        lemma_key_position(details.supported_payment_methods@, method@);
    }
    match find_key(&details.supported_payment_methods, method) {
        Some(at) => match kind {
            Some(kind) => names_type(&details.supported_payment_methods[at].1.payment_method_types, kind),
            None => true,
        },
        None => false,
    }
}

/// The connectors that may take the transaction `sample`, in the order of
/// the merchant's configuration. The list is empty where none may.
pub fn find_suitable_connectors(sample: &Context, merchant_config: &MerchantConfig) -> (r: Vec<Key>)
    ensures
        key_texts(r@) == eligible(
            merchant_config.connectors_list@,
            sample@,
            merchant_config.connectors_list@.len() as int,
        ),
{
    let method = sample.get(&Key::new("payment_methods"));
    let kind = sample.get(&Key::new("payment_method_type"));
    let connectors = &merchant_config.connectors_list;
    let mut suitable: Vec<Key> = Vec::new();
    let mut i: usize = 0;
    assert(key_texts(suitable@) =~= eligible(connectors@, sample@, 0));
    while i < connectors.len()
        invariant
            i <= connectors@.len(),
            key_texts(suitable@) == eligible(connectors@, sample@, i as int),
            match method {
                Some(m) => sample@.contains_key("payment_methods"@) && sample@["payment_methods"@]
                    == m@,
                None => !sample@.contains_key("payment_methods"@),
            },
            match kind {
                Some(k) => sample@.contains_key("payment_method_type"@)
                    && sample@["payment_method_type"@] == k@,
                None => !sample@.contains_key("payment_method_type"@),
            },
        decreases connectors@.len() - i,
    {
        if connector_supports(&connectors[i].1, method, kind) {
            let ghost before = suitable@;
            suitable.push(connectors[i].0.clone());
            assert(key_texts(suitable@) =~= key_texts(before).push(connectors@[i as int].0@));
        }
        i += 1;
    }
    suitable
}

} // verus!

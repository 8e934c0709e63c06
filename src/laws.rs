//! Laws of the edit distance, stated over its model.

use vstd::prelude::*;

use crate::osa::{
    lemma_drop_common_prefix, lemma_prefix_bounded, lemma_prefix_identity, lemma_prefix_symmetric,
    max_nat, osa_distance,
};

verus! {

/// The distance does not depend on the order of its operands.
pub proof fn law_symmetric<T>(a: Seq<T>, b: Seq<T>)
    ensures
        osa_distance(a, b) == osa_distance(b, a),
{
    lemma_prefix_symmetric(a, b, a.len(), b.len());
}

/// A sequence is at distance zero from itself.
pub proof fn law_identity<T>(a: Seq<T>)
    ensures
        osa_distance(a, a) == 0,
{
    lemma_prefix_identity(a, a.len());
}

/// The distance never exceeds the length of the longer sequence.
pub proof fn law_bounded_by_longer<T>(a: Seq<T>, b: Seq<T>)
    ensures
        0 <= osa_distance(a, b) <= max_nat(a.len(), b.len()),
{
    lemma_prefix_bounded(a, b, a.len(), b.len());
}

/// Against an empty sequence the distance is the other sequence's length,
/// whichever side the empty one stands on.
pub proof fn law_empty_operand<T>(a: Seq<T>, b: Seq<T>)
    requires
        a.len() == 0,
    ensures
        osa_distance(a, b) == b.len(),
        osa_distance(b, a) == b.len(),
{
}

/// Setting aside a prefix that both sequences share does not change their
/// distance.
pub proof fn law_common_prefix_irrelevant<T>(a: Seq<T>, b: Seq<T>, k: nat)
    requires
        k <= a.len(),
        k <= b.len(),
        a.take(k as int) == b.take(k as int),
    ensures
        osa_distance(a, b) == osa_distance(a.skip(k as int), b.skip(k as int)),
{
    assert forall|t: int| 0 <= t < k implies a[t] == b[t] by {
        assert(a[t] == a.take(k as int)[t]);
        assert(b[t] == b.take(k as int)[t]);
    }
    lemma_drop_common_prefix(a, b, k);
}

} // verus!

//! The mathematical model of the distance: a recurrence over prefixes.

use vstd::prelude::*;

verus! {

/// The smaller of two naturals.
pub open spec fn min_nat(x: nat, y: nat) -> nat {
    if x <= y { x } else { y }
}

/// The larger of two naturals.
pub open spec fn max_nat(x: nat, y: nat) -> nat {
    if x >= y { x } else { y }
}

/// Cost of putting `x` where `y` stands: free when they are equal.
pub open spec fn substitution_cost<T>(x: T, y: T) -> nat {
    if x == y { 0 } else { 1 }
}

/// The last two elements of `a[..i]` are those of `b[..j]` swapped, and the
/// last elements differ: one transposition of neighbours fixes both places.
pub open spec fn swapped_pair<T>(a: Seq<T>, b: Seq<T>, i: nat, j: nat) -> bool {
    &&& i >= 2
    &&& j >= 2
    &&& a[i - 1] == b[j - 2]
    &&& a[i - 2] == b[j - 1]
    &&& a[i - 1] != b[j - 1]
}

/// Edit distance between the first `i` elements of `a` and the first `j`
/// elements of `b`: the fewest insertions, deletions, substitutions and
/// transpositions of two neighbouring elements, each costing one, that turn
/// one prefix into the other, where a transposed pair is not edited again.
pub open spec fn osa_prefix<T>(a: Seq<T>, b: Seq<T>, i: nat, j: nat) -> nat
    decreases i + j,
{
    if i == 0 {
        j
    } else if j == 0 {
        i
    } else {
        let delete = osa_prefix(a, b, (i - 1) as nat, j) + 1;
        let insert = osa_prefix(a, b, i, (j - 1) as nat) + 1;
        let substitute = osa_prefix(a, b, (i - 1) as nat, (j - 1) as nat)
            + substitution_cost(a[i - 1], b[j - 1]);
        let best = min_nat(min_nat(delete, insert), substitute);
        if swapped_pair(a, b, i, j) {
            min_nat(best, osa_prefix(a, b, (i - 2) as nat, (j - 2) as nat) + 1)
        } else {
            best
        }
    }
}

/// Edit distance between the whole of `a` and the whole of `b`.
pub open spec fn osa_distance<T>(a: Seq<T>, b: Seq<T>) -> nat {
    osa_prefix(a, b, a.len(), b.len())
}

/// A prefix distance never exceeds the longer of the two prefix lengths.
pub proof fn lemma_prefix_bounded<T>(a: Seq<T>, b: Seq<T>, i: nat, j: nat)
    ensures
        osa_prefix(a, b, i, j) <= max_nat(i, j),
    decreases i + j,
{
    if i > 0 && j > 0 {
        lemma_prefix_bounded(a, b, (i - 1) as nat, (j - 1) as nat);
    }
}

/// Swapping the operands leaves every prefix distance unchanged.
pub proof fn lemma_prefix_symmetric<T>(a: Seq<T>, b: Seq<T>, i: nat, j: nat)
    ensures
        osa_prefix(a, b, i, j) == osa_prefix(b, a, j, i),
    decreases i + j,
{
    if i > 0 && j > 0 {
        lemma_prefix_symmetric(a, b, (i - 1) as nat, j);
        lemma_prefix_symmetric(a, b, i, (j - 1) as nat);
        lemma_prefix_symmetric(a, b, (i - 1) as nat, (j - 1) as nat);
        if i >= 2 && j >= 2 {
            lemma_prefix_symmetric(a, b, (i - 2) as nat, (j - 2) as nat);
        }
        assert(swapped_pair(a, b, i, j) == swapped_pair(b, a, j, i));
        assert(substitution_cost(a[i - 1], b[j - 1]) == substitution_cost(b[j - 1], a[i - 1]));
    }
}

/// Equal prefixes are at distance zero.
pub proof fn lemma_prefix_identity<T>(a: Seq<T>, i: nat)
    ensures
        osa_prefix(a, a, i, i) == 0,
    decreases i,
{
    if i > 0 {
        lemma_prefix_identity(a, (i - 1) as nat);
    }
}


/// When both sequences start with the same element, the one-element prefix of
/// `a` is at distance `j - 1` from the first `j` elements of `b`.
proof fn lemma_head_row<T>(a: Seq<T>, b: Seq<T>, j: nat)
    requires
        a.len() >= 1,
        1 <= j <= b.len(),
        a[0] == b[0],
    ensures
        osa_prefix(a, b, 1, j) == j - 1,
    decreases j,
{
    assert(osa_prefix(a, b, 0, j) == j);
    assert(osa_prefix(a, b, 0, (j - 1) as nat) == j - 1);
    if j == 1 {
        assert(osa_prefix(a, b, 1, 0) == 1);
    } else {
        lemma_head_row(a, b, (j - 1) as nat);
    }
}

/// The column counterpart of `lemma_head_row`.
proof fn lemma_head_column<T>(a: Seq<T>, b: Seq<T>, i: nat)
    requires
        b.len() >= 1,
        1 <= i <= a.len(),
        a[0] == b[0],
    ensures
        osa_prefix(a, b, i, 1) == i - 1,
{
    lemma_head_row(b, a, i);
    lemma_prefix_symmetric(a, b, i, 1);
}

/// A shared first element can be dropped from both sequences: the prefix
/// distances of the rests are those of the whole, one row and column over.
proof fn lemma_drop_head<T>(a: Seq<T>, b: Seq<T>, i: nat, j: nat)
    requires
        1 <= i <= a.len(),
        1 <= j <= b.len(),
        a[0] == b[0],
    ensures
        osa_prefix(a, b, i, j) == osa_prefix(a.skip(1), b.skip(1), (i - 1) as nat, (j - 1) as nat),
    decreases i + j,
{
    let a1 = a.skip(1);
    let b1 = b.skip(1);
    if i == 1 {
        lemma_head_row(a, b, j);
    } else if j == 1 {
        lemma_head_column(a, b, i);
    } else {
        lemma_drop_head(a, b, (i - 1) as nat, j);
        lemma_drop_head(a, b, i, (j - 1) as nat);
        lemma_drop_head(a, b, (i - 1) as nat, (j - 1) as nat);
        assert(a[i - 1] == a1[i - 2]);
        assert(b[j - 1] == b1[j - 2]);
        if i >= 3 && j >= 3 {
            lemma_drop_head(a, b, (i - 2) as nat, (j - 2) as nat);
            assert(a[i - 2] == a1[i - 3]);
            assert(b[j - 2] == b1[j - 3]);
            assert(swapped_pair(a, b, i, j) == swapped_pair(a1, b1, (i - 1) as nat, (j - 1) as nat));
        } else if swapped_pair(a, b, i, j) {
            if i == 2 {
                lemma_head_row(a, b, (j - 1) as nat);
                assert(osa_prefix(a, b, 0, (j - 2) as nat) == j - 2);
            } else {
                lemma_head_column(a, b, (i - 1) as nat);
                assert(osa_prefix(a, b, (i - 2) as nat, 0) == i - 2);
            }
        }
    }
}

/// Removing a common prefix from both sequences leaves their distance
/// unchanged.
pub proof fn lemma_drop_common_prefix<T>(a: Seq<T>, b: Seq<T>, k: nat)
    requires
        k <= a.len(),
        k <= b.len(),
        forall|t: int| 0 <= t < k ==> a[t] == b[t],
    ensures
        osa_distance(a, b) == osa_distance(a.skip(k as int), b.skip(k as int)),
    decreases k,
{
    if k == 0 {
        assert(a.skip(0) =~= a);
        assert(b.skip(0) =~= b);
    } else {
        let k1 = (k - 1) as nat;
        lemma_drop_common_prefix(a, b, k1);
        let a1 = a.skip(k1 as int);
        let b1 = b.skip(k1 as int);
        assert(a1[0] == a[k1 as int]);
        assert(b1[0] == b[k1 as int]);
        lemma_drop_head(a1, b1, a1.len(), b1.len());
        assert(a1.skip(1) =~= a.skip(k as int));
        assert(b1.skip(1) =~= b.skip(k as int));
    }
}

} // verus!

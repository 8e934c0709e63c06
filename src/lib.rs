//! Restricted Damerau–Levenshtein ("optimal string alignment") edit distance
//! between two sequences, with its mathematical model and the laws it obeys.

pub mod laws;
pub mod osa;

use vstd::laws_eq::obeys_concrete_eq;
use vstd::prelude::*;
use vstd::std_specs::cmp::PartialEqSpec;

use crate::osa::{
    lemma_drop_common_prefix, lemma_prefix_bounded, lemma_prefix_symmetric, max_nat, min_nat,
    osa_distance, osa_prefix, substitution_cost,
};

verus! {

/// The smaller of two table entries.
fn smaller(x: usize, y: usize) -> (r: usize)
    ensures
        r == min_nat(x as nat, y as nat),
{
    if x <= y {
        x
    } else {
        y
    }
}

/// Calculates the Damerau-Levenshtein distance between two lists of
/// comparable elements: the fewest insertions, deletions, substitutions and
/// swaps of two neighbouring elements that turn one list into the other.
///
/// The rows of the table run over the shorter list, after a common prefix is
/// set aside; only three rows are kept at any time. A row holds one entry
/// more than the longer list, so neither list may be `usize::MAX` long.
pub fn distance_native<T: PartialEq>(seq1: &Vec<T>, seq2: &Vec<T>) -> (r: usize)
    requires
        obeys_concrete_eq::<T>(),
        seq1@.len() < usize::MAX,
        seq2@.len() < usize::MAX,
    ensures
        r == osa_distance(seq1@, seq2@),
        r <= max_nat(seq1@.len(), seq2@.len()),
{
    proof {
        reveal(obeys_concrete_eq);
        lemma_prefix_bounded(seq1@, seq2@, seq1@.len(), seq2@.len());
    }
    // The first list is never longer than the second.
    let (s, t) = if seq2.len() < seq1.len() {
        (seq2, seq1)
    } else {
        (seq1, seq2)
    };
    proof {
        lemma_prefix_symmetric(seq1@, seq2@, seq1@.len(), seq2@.len());
    }
    assert(osa_distance(s@, t@) == osa_distance(seq1@, seq2@));

    // Set aside the common prefix.
    let mut k: usize = 0;
    while k < s.len() && k < t.len() && s[k] == t[k]
        invariant
            k <= s@.len(),
            k <= t@.len(),
            forall|x: int| 0 <= x < k ==> s@[x] == t@[x],
            T::obeys_eq_spec(),
            s@.len() < usize::MAX,
            t@.len() < usize::MAX,
            forall|x: T, y: T| x.eq_spec(&y) <==> (x == y),
        decreases s@.len() - k,
    {
        k += 1;
    }
    let ghost a = s@.skip(k as int);
    let ghost b = t@.skip(k as int);
    proof {
        lemma_drop_common_prefix(s@, t@, k as nat);
    }
    let n: usize = s.len() - k;
    let m: usize = t.len() - k;
    if n == 0 {
        return m;
    }
    if m == 0 {
        return n;
    }

    // Row zero: the empty prefix of `a` against each prefix of `b`.
    let mut one_ago: Vec<usize> = Vec::new();
    let mut c: usize = 0;
    while c <= m
        invariant
            c <= m + 1,
            m < usize::MAX,
            one_ago@.len() == c,
            forall|x: int| 0 <= x < c ==> one_ago@[x] == osa_prefix(a, b, 0, x as nat),
        decreases m + 1 - c,
    {
        one_ago.push(c);
        c += 1;
    }
    let mut two_ago: Vec<usize> = Vec::new();

    let mut i: usize = 0;
    while i < n
        invariant
            i <= n,
            n <= m < usize::MAX,
            a.len() == n,
            b.len() == m,
            forall|x: int| 0 <= x < n ==> a[x] == s@[k + x],
            forall|x: int| 0 <= x < m ==> b[x] == t@[k + x],
            k + n == s@.len(),
            k + m == t@.len(),
            T::obeys_eq_spec(),
            s@.len() < usize::MAX,
            t@.len() < usize::MAX,
            forall|x: T, y: T| x.eq_spec(&y) <==> (x == y),
            one_ago@.len() == m + 1,
            forall|x: int| 0 <= x <= m ==> one_ago@[x] == osa_prefix(a, b, i as nat, x as nat),
            i >= 1 ==> two_ago@.len() == m + 1,
            i >= 1 ==> forall|x: int| 0 <= x <= m ==> two_ago@[x] == osa_prefix(a, b, (i - 1) as nat, x as nat),
        decreases n - i,
    {
        let ghost row = (i + 1) as nat;
        let mut this_row: Vec<usize> = Vec::new();
        this_row.push(i + 1);
        let mut j: usize = 1;
        while j <= m
            invariant
                1 <= j <= m + 1,
                i < n <= m < usize::MAX,
                row == i + 1,
                a.len() == n,
                b.len() == m,
                forall|x: int| 0 <= x < n ==> a[x] == s@[k + x],
                forall|x: int| 0 <= x < m ==> b[x] == t@[k + x],
                k + n == s@.len(),
                k + m == t@.len(),
                T::obeys_eq_spec(),
                s@.len() < usize::MAX,
                t@.len() < usize::MAX,
                forall|x: T, y: T| x.eq_spec(&y) <==> (x == y),
                one_ago@.len() == m + 1,
                forall|x: int| 0 <= x <= m ==> one_ago@[x] == osa_prefix(a, b, i as nat, x as nat),
                i >= 1 ==> two_ago@.len() == m + 1,
                i >= 1 ==> forall|x: int| 0 <= x <= m ==> two_ago@[x] == osa_prefix(a, b, (i - 1) as nat, x as nat),
                this_row@.len() == j,
                forall|x: int| 0 <= x < j ==> this_row@[x] == osa_prefix(a, b, row, x as nat),
            decreases m + 1 - j,
        {
            proof {
                lemma_prefix_bounded(a, b, i as nat, j as nat);
                lemma_prefix_bounded(a, b, row, (j - 1) as nat);
                lemma_prefix_bounded(a, b, i as nat, (j - 1) as nat);
            }
            let delete_cost = one_ago[j] + 1;
            let add_cost = this_row[j - 1] + 1;
            let mut subtract_cost = one_ago[j - 1];
            if !(s[k + i] == t[k + j - 1]) {
                subtract_cost += 1;
            }
            let mut best = smaller(smaller(delete_cost, add_cost), subtract_cost);
            if i > 0 && j > 1 && s[k + i] == t[k + j - 2] && s[k + i - 1] == t[k + j - 1]
                && !(s[k + i] == t[k + j - 1]) {
                proof {
                    lemma_prefix_bounded(a, b, (i - 1) as nat, (j - 2) as nat);
                }
                best = smaller(best, two_ago[j - 2] + 1);
            }
            proof {
                assert(a[row - 1] == s@[k + i]);
                assert(b[j - 1] == t@[k + j - 1]);
                if i > 0 && j > 1 {
                    assert(a[row - 2] == s@[k + i - 1]);
                    assert(b[j - 2] == t@[k + j - 2]);
                }
                assert(substitution_cost(a[row - 1], b[j - 1]) == subtract_cost - one_ago@[j - 1]);
                assert(best == osa_prefix(a, b, row, j as nat));
            }
            this_row.push(best);
            j += 1;
        }
        two_ago = one_ago;
        one_ago = this_row;
        i += 1;
    }
    one_ago[m]
}

/// The parts of the normalized distance: the distance, and the length of the
/// longer list, or one where both lists are empty. Their quotient lies
/// between zero and one; the similarity is one minus that quotient.
pub fn normalized_distance_fraction<T: PartialEq>(seq1: &Vec<T>, seq2: &Vec<T>) -> (r: (usize, usize))
    requires
        obeys_concrete_eq::<T>(),
        seq1@.len() < usize::MAX,
        seq2@.len() < usize::MAX,
    ensures
        r.0 == osa_distance(seq1@, seq2@),
        r.1 == max_nat(max_nat(seq1@.len(), seq2@.len()), 1),
        r.0 <= r.1,
        r.1 >= 1,
{
    let longer = if seq1.len() >= seq2.len() {
        seq1.len()
    } else {
        seq2.len()
    };
    let denominator = if longer >= 1 {
        longer
    } else {
        1
    };
    (distance_native(seq1, seq2), denominator)
}

} // verus!

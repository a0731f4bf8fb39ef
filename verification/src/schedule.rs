//! Which jobs are repaired from which: every two jobs of a list, each from
//! the other.

use itertools::Itertools;
use vstd::prelude::*;

verus! {

/// All pairs `(i, j)` with `first <= i < j < count`, in lexicographic order:
/// first those with the smallest `i`, by ascending `j`.
pub open spec fn ordered_pairs(first: nat, count: nat) -> Seq<(usize, usize)>
    decreases count - first,
{
    if first + 1 >= count {
        Seq::empty()
    } else {
        Seq::new((count - first - 1) as nat, |j: int| (first as usize, (first + 1 + j) as usize))
            + ordered_pairs(first + 1, count)
    }
}

/// Calls `itertools::Itertools::combinations` with `k = 2` on the range
/// `0..count` and collects what it yields. Claimed: it yields each pair of
/// positions `i < j` below `count` once, in lexicographic order.
#[verifier::external_body]
fn index_pairs(count: usize) -> (pairs: Vec<(usize, usize)>)
    requires
        count * (count - 1) / 2 <= usize::MAX,
    ensures
        pairs@ == ordered_pairs(0, count as nat),
{
    (0..count).combinations(2).map(|c| (c[0], c[1])).collect()
}

/// Every pair of `ordered_pairs(first, count)` is of two positions in
/// ascending order, from `first` on and below `count`.
pub proof fn lemma_ordered_pairs_bounds(first: nat, count: nat, k: int)
    requires
        count <= usize::MAX,
        0 <= k < ordered_pairs(first, count).len(),
    ensures
        first <= ordered_pairs(first, count)[k].0 < ordered_pairs(first, count)[k].1 < count,
    decreases count - first,
{
    if first + 1 < count {
        let head = (count - first - 1) as nat;
        if k >= head {
            lemma_ordered_pairs_bounds(first + 1, count, k - head);
        }
    }
}

/// Every pair of two positions in ascending order, from `first` on and below
/// `count`, is in `ordered_pairs(first, count)`.
pub proof fn lemma_ordered_pairs_complete(first: nat, count: nat, i: nat, j: nat)
    requires
        count <= usize::MAX,
        first <= i < j < count,
    ensures
        ordered_pairs(first, count).contains((i as usize, j as usize)),
    decreases count - first,
{
    let head = Seq::new(
        (count - first - 1) as nat,
        |j: int| (first as usize, (first + 1 + j) as usize),
    );
    let rest = ordered_pairs(first + 1, count);
    if i == first {
        assert((head + rest)[j - first - 1] == (i as usize, j as usize));
    } else {
        lemma_ordered_pairs_complete(first + 1, count, i, j);
        let at = choose|at: int| 0 <= at < rest.len() && rest[at] == (i as usize, j as usize);
        assert((head + rest)[head.len() + at] == (i as usize, j as usize));
    }
}

/// The runs for a list of jobs: for every two jobs, taken in the order of
/// `ordered_pairs`, one run from the first to the second and then one from the
/// second to the first. A run is written as (source, destination).
pub fn job_pairs(hashes: &Vec<String>) -> (runs: Vec<(String, String)>)
    requires
        hashes@.len() * (hashes@.len() - 1) <= usize::MAX,
    ensures
        runs@.len() == 2 * ordered_pairs(0, hashes@.len()).len(),
        forall|k: int|
            0 <= k < ordered_pairs(0, hashes@.len()).len() ==> {
                let (i, j) = #[trigger] ordered_pairs(0, hashes@.len())[k];
                &&& runs@[2 * k].0@ == hashes@[i as int]@
                &&& runs@[2 * k].1@ == hashes@[j as int]@
                &&& runs@[2 * k + 1].0@ == hashes@[j as int]@
                &&& runs@[2 * k + 1].1@ == hashes@[i as int]@
            },
{
    let count = hashes.len();
    let combinations = index_pairs(count);
    let mut runs: Vec<(String, String)> = Vec::new();
    let mut k: usize = 0;
    while k < combinations.len()
        invariant
            k <= combinations.len(),
            count == hashes@.len(),
            combinations@ == ordered_pairs(0, count as nat),
            runs@.len() == 2 * k,
            forall|m: int|
                0 <= m < k ==> {
                    let (i, j) = #[trigger] combinations@[m];
                    &&& runs@[2 * m].0@ == hashes@[i as int]@
                    &&& runs@[2 * m].1@ == hashes@[j as int]@
                    &&& runs@[2 * m + 1].0@ == hashes@[j as int]@
                    &&& runs@[2 * m + 1].1@ == hashes@[i as int]@
                },
        decreases combinations.len() - k,
    {
        proof {
            lemma_ordered_pairs_bounds(0, count as nat, k as int);
        }
        let (i, j) = combinations[k];
        runs.push((hashes[i].clone(), hashes[j].clone()));
        runs.push((hashes[j].clone(), hashes[i].clone()));
        k += 1;
    }
    runs
}

} // verus!

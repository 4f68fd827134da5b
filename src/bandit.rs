use vstd::prelude::*;
use crate::arm::Arm;
use crate::memory::index_matches;

verus! {

/// The largest number of evaluations among the arms; zero when there are none.
pub open spec fn max_evaluations(arms: Seq<Arm>) -> nat
    decreases arms.len(),
{
    if arms.len() == 0 {
        0
    } else {
        let rest = max_evaluations(arms.drop_last());
        if arms.last().evaluations() > rest {
            arms.last().evaluations()
        } else {
            rest
        }
    }
}

/// `r` lists the arms of the non-dominated prefix of `index`: the entries up
/// to and including the first one whose arm has `most` evaluations, or all
/// entries when none has.
pub open spec fn is_ucb_prefix(index: Seq<(u64, usize)>, arms: Seq<Arm>, most: nat, r: Seq<usize>) -> bool {
    &&& r.len() <= index.len()
    &&& index.len() > 0 ==> r.len() > 0
    &&& forall|m: int| 0 <= m < r.len() ==> #[trigger] r[m] == index[m].1
    &&& forall|m: int| 0 <= m < r.len() - 1 ==> arms[(#[trigger] index[m]).1 as int].evaluations() != most
    &&& r.len() < index.len() ==> arms[index[r.len() - 1].1 as int].evaluations() == most
}

/// The means of the listed arms are all equal: none exceeds the first.
pub open spec fn means_level(arms: Seq<Arm>, prefix: Seq<usize>) -> bool {
    forall|m: int| 0 <= m < prefix.len() ==> arms[(#[trigger] prefix[m]) as int].mean() <= arms[prefix[0] as int].mean()
}

/// `i` is the first position of a smallest value of `s`.
pub open spec fn is_first_min(s: Seq<u64>, i: int) -> bool {
    &&& 0 <= i < s.len()
    &&& forall|j: int| 0 <= j < s.len() ==> s[i] <= #[trigger] s[j]
    &&& forall|j: int| 0 <= j < i ==> s[i] < #[trigger] s[j]
}

/// The arm chosen among a non-dominated prefix. When the smallest and the
/// largest mean of the prefix are equal, the scores are not used and the last
/// arm of the prefix is chosen; otherwise the arm with the smallest score, the
/// earliest of equal ones.
pub fn find_best_ucb(prefix: &Vec<usize>, means_equal: bool, scores: &Vec<u64>) -> (r: usize)
    requires
        prefix@.len() > 0,
        !means_equal ==> scores@.len() == prefix@.len(),
    ensures
        means_equal ==> r == prefix@.last(),
        !means_equal ==> exists|i: int| is_first_min(scores@, i) && r == prefix@[i],
{
    if means_equal {
        return prefix[prefix.len() - 1];
    }
    let mut best: usize = 0;
    let mut i: usize = 1;
    while i < scores.len()
        invariant
            scores@.len() == prefix@.len(),
            1 <= i <= scores@.len(),
            best < i,
            forall|j: int| 0 <= j < i ==> scores@[best as int] <= #[trigger] scores@[j],
            forall|j: int| 0 <= j < best ==> scores@[best as int] < #[trigger] scores@[j],
        decreases scores@.len() - i,
    {
        if scores[i] < scores[best] {
            best = i;
        }
        i = i + 1;
    }
    assert(is_first_min(scores@, best as int));
    prefix[best]
}

/// With a single arm in the memory, the non-dominated prefix is that arm
/// alone, so the selection returns it.
pub proof fn lemma_single_arm_prefix(index: Seq<(u64, usize)>, arms: Seq<Arm>, r: Seq<usize>)
    requires
        index_matches(index, arms),
        arms.len() == 1,
        is_ucb_prefix(index, arms, max_evaluations(arms), r),
    ensures
        r == seq![0usize],
        forall|i: int| 0 <= i < r.len() ==> #[trigger] r[i] == 0,
{
    assert(index[0].1 < 1);
    assert(r[0] == index[0].1);
    assert(r =~= seq![0usize]);
}

} // verus!

use vstd::prelude::*;
use crate::arm::Arm;
use crate::sorted_multi_map::{count_at_most, first_position, inserted_after_equal_keys};
use crate::vector::{in_box, vector_hash};

verus! {

/// The index and the memory agree: one entry per arm, each under the arm's
/// current mean.
pub open spec fn index_matches(index: Seq<(u64, usize)>, arms: Seq<Arm>) -> bool {
    &&& index.len() == arms.len()
    &&& forall|p: int|
        0 <= p < index.len() ==> (#[trigger] index[p]).1 < arms.len() && index[p].0 == arms[index[p].1 as int].mean()
    &&& forall|p: int, q: int| 0 <= p < index.len() && 0 <= q < index.len() && p != q ==> (#[trigger] index[p]).1 != (#[trigger] index[q]).1
    &&& forall|i: int| 0 <= i < arms.len() ==> #[trigger] holds_arm(index, i)
}

/// Some entry of the index refers to arm `i`.
pub open spec fn holds_arm(index: Seq<(u64, usize)>, i: int) -> bool {
    exists|p: int| 0 <= p < index.len() && (#[trigger] index[p]).1 == i
}

/// The index after arm `i` moves from under `old_key` to under `new_key`: the
/// first entry `(old_key, i)` removed, and `(new_key, i)` placed after every
/// entry whose key is not greater.
pub open spec fn index_moved(index: Seq<(u64, usize)>, i: usize, old_key: u64, new_key: u64) -> Seq<(u64, usize)> {
    let mid = index.remove(first_position(index, (old_key, i)) as int);
    mid.insert(count_at_most(mid, new_key) as int, (new_key, i))
}

/// The index after a new arm `i` enters under `key`, after every entry whose
/// key is not greater.
pub open spec fn index_added(index: Seq<(u64, usize)>, i: usize, key: u64) -> Seq<(u64, usize)> {
    index.insert(count_at_most(index, key) as int, (key, i))
}

/// No two arms hold the same vector.
pub open spec fn arms_distinct(arms: Seq<Arm>) -> bool {
    forall|i: int, j: int| 0 <= i < arms.len() && 0 <= j < arms.len() && i != j ==> (#[trigger] arms[i]).action() != (#[trigger] arms[j]).action()
}

/// Every arm holds a vector of the box.
pub open spec fn arms_in_box(arms: Seq<Arm>, lower: Seq<i32>, upper: Seq<i32>) -> bool {
    forall|i: int| 0 <= i < arms.len() ==> in_box((#[trigger] arms[i]).action(), lower, upper)
}

/// Every arm has been evaluated, at least once and at most `used` times.
pub open spec fn arms_counted(arms: Seq<Arm>, used: nat) -> bool {
    forall|i: int| 0 <= i < arms.len() ==> 1 <= (#[trigger] arms[i]).evaluations() <= used
}

/// The bucket of `table` for `v`'s hash lists arm `i`.
pub open spec fn table_holds(table: Map<u64, Vec<usize>>, v: Seq<i32>, i: int) -> bool {
    table.contains_key(vector_hash(v)) && table[vector_hash(v)]@.contains(i as usize)
}

/// The lookup table lists every arm in the bucket of its vector's hash, and
/// only arms of the memory.
pub open spec fn table_matches(table: Map<u64, Vec<usize>>, arms: Seq<Arm>) -> bool {
    &&& forall|i: int| 0 <= i < arms.len() ==> #[trigger] table_holds(table, arms[i].action(), i)
    &&& forall|h: u64, p: int| table.contains_key(h) && 0 <= p < table[h]@.len() ==> (#[trigger] table[h]@[p]) < arms.len()
}

pub(crate) proof fn lemma_table_append(
    table: Map<u64, Vec<usize>>,
    table2: Map<u64, Vec<usize>>,
    arms: Seq<Arm>,
    arm: Arm,
    bucket: Seq<usize>,
)
    requires
        table_matches(table, arms),
        table.contains_key(vector_hash(arm.action())) ==> bucket == table[vector_hash(arm.action())]@.push(arms.len() as usize),
        !table.contains_key(vector_hash(arm.action())) ==> bucket == seq![arms.len() as usize],
        table2.contains_key(vector_hash(arm.action())),
        table2[vector_hash(arm.action())]@ == bucket,
        forall|h: u64| h != vector_hash(arm.action()) ==> (table2.contains_key(h) == table.contains_key(h)),
        forall|h: u64| h != vector_hash(arm.action()) && table.contains_key(h) ==> table2[h] == table[h],
        arms.len() <= usize::MAX,
    ensures
        table_matches(table2, arms.push(arm)),
{
    let arms2 = arms.push(arm);
    let h = vector_hash(arm.action());
    let n = arms.len() as int;
    assert forall|i: int| 0 <= i < arms2.len() implies #[trigger] table_holds(table2, arms2[i].action(), i) by {
        if i == n {
            assert(bucket[bucket.len() - 1] == n as usize);
        } else {
            assert(arms2[i] == arms[i]);
            assert(table_holds(table, arms[i].action(), i));
            let hi = vector_hash(arms[i].action());
            if hi == h {
                let k = choose|k: int| 0 <= k < table[h]@.len() && table[h]@[k] == i as usize;
                assert(bucket[k] == i as usize);
            }
        }
    }
    assert forall|g: u64, p: int| table2.contains_key(g) && 0 <= p < table2[g]@.len() implies (#[trigger] table2[g]@[p]) < arms2.len() by {
        if g == h {
            if p < bucket.len() - 1 {
                assert(bucket[p] == table[h]@[p]);
            }
        }
    }
}

pub(crate) proof fn lemma_index_update(
    index: Seq<(u64, usize)>,
    index1: Seq<(u64, usize)>,
    index2: Seq<(u64, usize)>,
    arms: Seq<Arm>,
    arms2: Seq<Arm>,
    i: int,
    p: int,
    key: u64,
)
    requires
        index_matches(index, arms),
        0 <= i < arms.len(),
        0 <= p < index.len(),
        index[p].1 == i,
        index1 == index.remove(p),
        inserted_after_equal_keys(index1, (key, i as usize), index2),
        arms2.len() == arms.len(),
        arms2[i].mean() == key,
        forall|j: int| 0 <= j < arms.len() && j != i ==> arms2[j] == arms[j],
    ensures
        index_matches(index2, arms2),
{
    let q = choose|q: int|
        0 <= q <= index1.len() && (forall|m: int| 0 <= m < q ==> #[trigger] index1[m].0 <= key) && (forall|m: int|
            q <= m < index1.len() ==> #[trigger] index1[m].0 > key) && index2 == #[trigger] index1.insert(q, (key, i as usize));
    assert forall|m2: int| 0 <= m2 < index2.len() implies (#[trigger] index2[m2]).1 < arms2.len() && index2[m2].0
        == arms2[index2[m2].1 as int].mean() by {
        if m2 != q {
            let m1 = if m2 < q { m2 } else { m2 - 1 };
            let m = if m1 < p { m1 } else { m1 + 1 };
            assert(index[m] == index2[m2]);
            assert(index[m].1 != index[p].1);
        }
    }
    assert forall|a: int, b: int| 0 <= a < index2.len() && 0 <= b < index2.len() && a != b implies (#[trigger] index2[a]).1
        != (#[trigger] index2[b]).1 by {
        if a != q && b != q {
            let a1 = if a < q { a } else { a - 1 };
            let am = if a1 < p { a1 } else { a1 + 1 };
            let b1 = if b < q { b } else { b - 1 };
            let bm = if b1 < p { b1 } else { b1 + 1 };
            assert(index2[a] == index[am]);
            assert(index2[b] == index[bm]);
        } else if a == q {
            let b1 = if b < q { b } else { b - 1 };
            let bm = if b1 < p { b1 } else { b1 + 1 };
            assert(index2[b] == index[bm]);
            assert(index[bm].1 != index[p].1);
        } else {
            let a1 = if a < q { a } else { a - 1 };
            let am = if a1 < p { a1 } else { a1 + 1 };
            assert(index2[a] == index[am]);
            assert(index[am].1 != index[p].1);
        }
    }
    assert forall|j: int| 0 <= j < arms2.len() implies #[trigger] holds_arm(index2, j) by {
        if j == i {
            assert(index2[q].1 == j);
        } else {
            assert(holds_arm(index, j));
            let m = choose|m: int| 0 <= m < index.len() && (#[trigger] index[m]).1 == j;
            assert(m != p);
            let m1 = if m < p { m } else { m - 1 };
            let m2 = if m1 < q { m1 } else { m1 + 1 };
            assert(index2[m2] == index[m]);
        }
    }
}

pub(crate) proof fn lemma_index_append(
    index: Seq<(u64, usize)>,
    index2: Seq<(u64, usize)>,
    arms: Seq<Arm>,
    arm: Arm,
    key: u64,
)
    requires
        index_matches(index, arms),
        arm.mean() == key,
        inserted_after_equal_keys(index, (key, arms.len() as usize), index2),
        arms.len() <= usize::MAX,
    ensures
        index_matches(index2, arms.push(arm)),
{
    let arms2 = arms.push(arm);
    let n = arms.len() as int;
    let q = choose|q: int|
        0 <= q <= index.len() && (forall|m: int| 0 <= m < q ==> #[trigger] index[m].0 <= key) && (forall|m: int|
            q <= m < index.len() ==> #[trigger] index[m].0 > key) && index2 == #[trigger] index.insert(q, (key, n as usize));
    assert forall|m2: int| 0 <= m2 < index2.len() implies (#[trigger] index2[m2]).1 < arms2.len() && index2[m2].0
        == arms2[index2[m2].1 as int].mean() by {
        if m2 != q {
            let m = if m2 < q { m2 } else { m2 - 1 };
            assert(index2[m2] == index[m]);
            assert(arms2[index[m].1 as int] == arms[index[m].1 as int]);
        }
    }
    assert forall|a: int, b: int| 0 <= a < index2.len() && 0 <= b < index2.len() && a != b implies (#[trigger] index2[a]).1
        != (#[trigger] index2[b]).1 by {
        let am = if a < q { a } else { a - 1 };
        let bm = if b < q { b } else { b - 1 };
        if a != q && b != q {
            assert(index2[a] == index[am]);
            assert(index2[b] == index[bm]);
        } else if a == q {
            assert(index2[b] == index[bm]);
        } else {
            assert(index2[a] == index[am]);
        }
    }
    assert forall|j: int| 0 <= j < arms2.len() implies #[trigger] holds_arm(index2, j) by {
        if j == n {
            assert(index2[q].1 == j);
        } else {
            assert(holds_arm(index, j));
            let m = choose|m: int| 0 <= m < index.len() && (#[trigger] index[m]).1 == j;
            let m2 = if m < q { m } else { m + 1 };
            assert(index2[m2] == index[m]);
        }
    }
}

} // verus!

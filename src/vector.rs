use vstd::prelude::*;
use vstd::arithmetic::div_mod::{lemma_fundamental_div_mod, lemma_mod_pos_bound};

verus! {

/// The contents of each vector of a list.
pub open spec fn vectors_of(list: Seq<Vec<i32>>) -> Seq<Seq<i32>> {
    list.map_values(|v: Vec<i32>| v@)
}

/// Per-dimension inclusive bounds that describe a non-empty box.
pub open spec fn valid_bounds(lower: Seq<i32>, upper: Seq<i32>) -> bool {
    &&& lower.len() == upper.len()
    &&& lower.len() > 0
    &&& forall|j: int| 0 <= j < lower.len() ==> #[trigger] lower[j] <= #[trigger] upper[j]
}

/// `v` has one component per dimension, each within its inclusive bounds.
pub open spec fn in_box(v: Seq<i32>, lower: Seq<i32>, upper: Seq<i32>) -> bool {
    &&& v.len() == lower.len()
    &&& v.len() == upper.len()
    &&& forall|j: int| 0 <= j < v.len() ==> lower[j] <= #[trigger] v[j] && v[j] <= upper[j]
}

/// The number of integer vectors in the box spanned by the first `n` dimensions.
pub open spec fn box_size(lower: Seq<i32>, upper: Seq<i32>, n: nat) -> int
    decreases n,
{
    if n == 0 {
        1
    } else {
        box_size(lower, upper, (n - 1) as nat) * (upper[n - 1] - lower[n - 1] + 1)
    }
}

/// Whether two vectors hold the same components.
pub fn same_vector(a: &Vec<i32>, b: &Vec<i32>) -> (r: bool)
    ensures
        r == (a@ == b@),
{
    if a.len() != b.len() {
        return false;
    }
    let mut j: usize = 0;
    while j < a.len()
        invariant
            a@.len() == b@.len(),
            j <= a@.len(),
            forall|i: int| 0 <= i < j ==> a@[i] == b@[i],
        decreases a@.len() - j,
    {
        if a[j] != b[j] {
            return false;
        }
        j = j + 1;
    }
    assert(a@ =~= b@);
    true
}

/// The first position in `list` that holds `v`, if any.
pub fn position_of(list: &Vec<Vec<i32>>, v: &Vec<i32>) -> (r: Option<usize>)
    ensures
        match r {
            Some(i) => i < list@.len() && list@[i as int]@ == v@ && forall|k: int|
                0 <= k < i ==> (#[trigger] list@[k])@ != v@,
            None => !vectors_of(list@).contains(v@),
        },
{
    let mut i: usize = 0;
    while i < list.len()
        invariant
            i <= list@.len(),
            forall|k: int| 0 <= k < i ==> (#[trigger] list@[k])@ != v@,
        decreases list@.len() - i,
    {
        if same_vector(&list[i], v) {
            return Some(i);
        }
        i = i + 1;
    }
    assert forall|k: int| 0 <= k < vectors_of(list@).len() implies #[trigger] vectors_of(list@)[k] != v@ by {
        assert(vectors_of(list@)[k] == list@[k]@);
    }
    None
}

/// A copy of `v`.
pub fn copy_vector(v: &Vec<i32>) -> (r: Vec<i32>)
    ensures
        r@ == v@,
{
    let mut r: Vec<i32> = Vec::new();
    let mut j: usize = 0;
    while j < v.len()
        invariant
            j <= v@.len(),
            r@ == v@.subrange(0, j as int),
        decreases v@.len() - j,
    {
        r.push(v[j]);
        j = j + 1;
    }
    assert(r@ =~= v@);
    r
}

/// The FNV-1a offset basis.
pub const HASH_BASIS: u64 = 0xcbf2_9ce4_8422_2325;

/// The FNV-1a prime.
pub const HASH_PRIME: u64 = 0x100_0000_01b3;

/// An FNV-1a style hash of a vector, one 32-bit word per component.
pub open spec fn vector_hash(v: Seq<i32>) -> u64
    decreases v.len(),
{
    if v.len() == 0 {
        HASH_BASIS
    } else {
        vstd::wrapping::u64_specs::wrapping_mul(vector_hash(v.drop_last()) ^ (v.last() as u32 as u64), HASH_PRIME)
    }
}

/// The hash of `v`.
pub fn hash_vector(v: &Vec<i32>) -> (r: u64)
    ensures
        r == vector_hash(v@),
{
    let mut h: u64 = HASH_BASIS;
    let mut j: usize = 0;
    while j < v.len()
        invariant
            j <= v@.len(),
            h == vector_hash(v@.take(j as int)),
        decreases v@.len() - j,
    {
        proof {
            assert(v@.take(j + 1).drop_last() =~= v@.take(j as int));
        }
        h = (h ^ (v[j] as u32 as u64)).wrapping_mul(HASH_PRIME);
        j = j + 1;
    }
    proof {
        assert(v@.take(j as int) =~= v@);
    }
    h
}

/// The width of dimension `j` of the box.
pub open spec fn width(lower: Seq<i32>, upper: Seq<i32>, j: int) -> int {
    upper[j] - lower[j] + 1
}

/// The `r`-th vector of the box spanned by the first `n` dimensions, counting
/// in mixed radix with the last dimension fastest.
pub open spec fn nth_in_box(lower: Seq<i32>, upper: Seq<i32>, r: nat, n: nat) -> Seq<i32>
    decreases n,
{
    if n == 0 {
        Seq::empty()
    } else {
        let w = width(lower, upper, n - 1);
        nth_in_box(lower, upper, (r as int / w) as nat, (n - 1) as nat).push((lower[n - 1] + r as int % w) as i32)
    }
}

proof fn lemma_box_size_positive(lower: Seq<i32>, upper: Seq<i32>, n: nat)
    requires
        n <= lower.len(),
        n <= upper.len(),
        forall|j: int| 0 <= j < n ==> #[trigger] lower[j] <= #[trigger] upper[j],
    ensures
        box_size(lower, upper, n) >= 1,
    decreases n,
{
    if n > 0 {
        lemma_box_size_positive(lower, upper, (n - 1) as nat);
        let b = box_size(lower, upper, (n - 1) as nat);
        let w = width(lower, upper, n - 1);
        assert(b * w >= 1) by (nonlinear_arith)
            requires b >= 1, w >= 1;
    }
}

/// Every numbered vector lies in the box.
proof fn lemma_nth_in_box(lower: Seq<i32>, upper: Seq<i32>, r: nat, n: nat)
    requires
        n <= lower.len(),
        n <= upper.len(),
        forall|j: int| 0 <= j < n ==> #[trigger] lower[j] <= #[trigger] upper[j],
    ensures
        nth_in_box(lower, upper, r, n).len() == n,
        forall|j: int| 0 <= j < n ==> lower[j] <= #[trigger] nth_in_box(lower, upper, r, n)[j] <= upper[j],
    decreases n,
{
    if n > 0 {
        let w = width(lower, upper, n - 1);
        assert(lower[n - 1] <= upper[n - 1]);
        lemma_mod_pos_bound(r as int, w);
        lemma_nth_in_box(lower, upper, (r as int / w) as nat, (n - 1) as nat);
        let s = nth_in_box(lower, upper, r, n);
        assert forall|j: int| 0 <= j < n implies lower[j] <= #[trigger] s[j] <= upper[j] by {
            if j < n - 1 {
                assert(s[j] == nth_in_box(lower, upper, (r as int / w) as nat, (n - 1) as nat)[j]);
            }
        }
    }
}

/// Distinct numbers below the box size give distinct vectors.
proof fn lemma_nth_injective(lower: Seq<i32>, upper: Seq<i32>, r1: nat, r2: nat, n: nat)
    requires
        n <= lower.len(),
        n <= upper.len(),
        forall|j: int| 0 <= j < n ==> #[trigger] lower[j] <= #[trigger] upper[j],
        r1 < box_size(lower, upper, n),
        r2 < box_size(lower, upper, n),
        r1 != r2,
    ensures
        nth_in_box(lower, upper, r1, n) != nth_in_box(lower, upper, r2, n),
    decreases n,
{
    if n > 0 {
        let w = width(lower, upper, n - 1);
        let b = box_size(lower, upper, (n - 1) as nat);
        assert(lower[n - 1] <= upper[n - 1]);
        lemma_mod_pos_bound(r1 as int, w);
        lemma_mod_pos_bound(r2 as int, w);
        lemma_fundamental_div_mod(r1 as int, w);
        lemma_fundamental_div_mod(r2 as int, w);
        let q1 = r1 as int / w;
        let q2 = r2 as int / w;
        let m1 = r1 as int % w;
        let m2 = r2 as int % w;
        assert(q1 >= 0 && q2 >= 0) by (nonlinear_arith)
            requires r1 >= 0, r2 >= 0, w >= 1, r1 == w * q1 + m1, r2 == w * q2 + m2, 0 <= m1 < w, 0 <= m2 < w;
        assert(q1 < b && q2 < b) by (nonlinear_arith)
            requires r1 < b * w, r2 < b * w, w >= 1, r1 == w * q1 + m1, r2 == w * q2 + m2, 0 <= m1 < w, 0 <= m2 < w;
        let s1 = nth_in_box(lower, upper, r1, n);
        let s2 = nth_in_box(lower, upper, r2, n);
        if m1 != m2 {
            lemma_nth_in_box(lower, upper, r1, n);
            lemma_nth_in_box(lower, upper, r2, n);
            assert(s1[n - 1] == (lower[n - 1] + m1) as i32);
            assert(s2[n - 1] == (lower[n - 1] + m2) as i32);
            assert(s1[n - 1] != s2[n - 1]);
        } else {
            assert(q1 != q2);
            lemma_nth_injective(lower, upper, q1 as nat, q2 as nat, (n - 1) as nat);
            assert(s1.drop_last() == nth_in_box(lower, upper, q1 as nat, (n - 1) as nat));
            assert(s2.drop_last() == nth_in_box(lower, upper, q2 as nat, (n - 1) as nat));
        }
    }
}

/// A list of fewer vectors than the box holds misses one of the first `k + 1`
/// numbered vectors, `k` being its length.
proof fn lemma_box_pigeonhole(lower: Seq<i32>, upper: Seq<i32>, taken: Seq<Seq<i32>>)
    requires
        valid_bounds(lower, upper),
        taken.len() < box_size(lower, upper, lower.len()),
    ensures
        exists|r: nat| r <= taken.len() && !taken.contains(#[trigger] nth_in_box(lower, upper, r, lower.len())),
{
    if forall|r: nat| r <= taken.len() ==> taken.contains(#[trigger] nth_in_box(lower, upper, r, lower.len())) {
        lemma_all_taken_impossible(lower, upper, taken);
    }
}

proof fn lemma_all_taken_impossible(lower: Seq<i32>, upper: Seq<i32>, taken: Seq<Seq<i32>>)
    requires
        valid_bounds(lower, upper),
        taken.len() < box_size(lower, upper, lower.len()),
        forall|r: nat| r <= taken.len() ==> taken.contains(#[trigger] nth_in_box(lower, upper, r, lower.len())),
    ensures
        taken.len() >= box_size(lower, upper, lower.len()),
{
    let n = lower.len();
    let k = taken.len();
    let e = Seq::new((k + 1) as nat, |r: int| nth_in_box(lower, upper, r as nat, n));
    assert forall|a: int, b: int| 0 <= a < e.len() && 0 <= b < e.len() && a != b implies e[a] != e[b] by {
        lemma_nth_injective(lower, upper, a as nat, b as nat, n);
    }
    assert(e.no_duplicates());
    e.unique_seq_to_set();
    taken.lemma_cardinality_of_set();
    assert forall|x: Seq<i32>| e.to_set().contains(x) implies taken.to_set().contains(x) by {
        let r = choose|r: int| 0 <= r < e.len() && e[r] == x;
        assert(taken.contains(nth_in_box(lower, upper, r as nat, n)));
    }
    vstd::set_lib::lemma_len_subset(e.to_set(), taken.to_set());
    assert(e.len() == k + 1);
}

/// The `r`-th vector of the box.
pub fn nth_vector(lower: &Vec<i32>, upper: &Vec<i32>, r: usize) -> (v: Vec<i32>)
    requires
        valid_bounds(lower@, upper@),
    ensures
        v@ == nth_in_box(lower@, upper@, r as nat, lower@.len()),
        in_box(v@, lower@, upper@),
{
    let d = lower.len();
    let mut v: Vec<i32> = Vec::new();
    let mut j: usize = 0;
    while j < d
        invariant
            j <= d,
            v@.len() == j,
        decreases d - j,
    {
        v.push(0);
        j = j + 1;
    }
    let mut rr: u64 = r as u64;
    let mut n: usize = d;
    proof {
        assert(v@.subrange(d as int, d as int) =~= Seq::<i32>::empty());
        assert(nth_in_box(lower@, upper@, r as nat, d as nat) =~= nth_in_box(lower@, upper@, rr as nat, n as nat) + v@.subrange(
            n as int,
            d as int,
        ));
    }
    while n > 0
        invariant
            valid_bounds(lower@, upper@),
            d == lower@.len(),
            n <= d,
            v@.len() == d,
            nth_in_box(lower@, upper@, r as nat, d as nat) == nth_in_box(lower@, upper@, rr as nat, n as nat) + v@.subrange(
                n as int,
                d as int,
            ),
        decreases n,
    {
        let w: u64 = (upper[n - 1] as i64 - lower[n - 1] as i64 + 1) as u64;
        proof {
            assert(lower@[n - 1] <= upper@[n - 1]);
            lemma_mod_pos_bound(rr as int, w as int);
        }
        let digit = rr % w;
        let c: i32 = (lower[n - 1] as i64 + digit as i64) as i32;
        let ghost old_v = v@;
        let ghost old_rr = rr;
        v.set(n - 1, c);
        rr = rr / w;
        proof {
            let prefix = nth_in_box(lower@, upper@, rr as nat, (n - 1) as nat);
            assert(nth_in_box(lower@, upper@, old_rr as nat, n as nat) == prefix.push(c));
            assert(v@.subrange(n - 1, d as int) =~= seq![c] + old_v.subrange(n as int, d as int));
            assert(prefix.push(c) + old_v.subrange(n as int, d as int) =~= prefix + v@.subrange(n - 1, d as int));
        }
        n = n - 1;
    }
    proof {
        assert(v@.subrange(0, d as int) =~= v@);
        assert(nth_in_box(lower@, upper@, rr as nat, 0) =~= Seq::<i32>::empty());
        assert(v@ =~= nth_in_box(lower@, upper@, r as nat, d as nat));
        lemma_nth_in_box(lower@, upper@, r as nat, d as nat);
    }
    v
}

/// A vector of the box that `taken` does not hold, when the box holds more
/// vectors than `taken` lists: the first such in the numbering of the box.
pub fn free_vector(taken: &Vec<Vec<i32>>, lower: &Vec<i32>, upper: &Vec<i32>) -> (v: Vec<i32>)
    requires
        valid_bounds(lower@, upper@),
        taken@.len() < box_size(lower@, upper@, lower@.len()),
    ensures
        in_box(v@, lower@, upper@),
        !vectors_of(taken@).contains(v@),
{
    let k = taken.len();
    let mut r: usize = 0;
    loop
        invariant
            valid_bounds(lower@, upper@),
            taken@.len() < box_size(lower@, upper@, lower@.len()),
            k == taken@.len(),
            r <= k,
            forall|q: nat| q < r ==> vectors_of(taken@).contains(#[trigger] nth_in_box(lower@, upper@, q, lower@.len())),
        ensures
            forall|q: nat| q <= k ==> vectors_of(taken@).contains(#[trigger] nth_in_box(lower@, upper@, q, lower@.len())),
        decreases k - r,
    {
        let v = nth_vector(lower, upper, r);
        match position_of(taken, &v) {
            None => {
                return v;
            },
            Some(i) => {
                proof {
                    assert(vectors_of(taken@)[i as int] == v@);
                    assert(vectors_of(taken@).contains(nth_in_box(lower@, upper@, r as nat, lower@.len())));
                }
            },
        }
        if r == k {
            break;
        }
        r = r + 1;
    }
    proof {
        lemma_box_pigeonhole(lower@, upper@, vectors_of(taken@));
    }
    nth_vector(lower, upper, 0)
}

} // verus!

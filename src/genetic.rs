use vstd::prelude::*;
use rand::rngs::StdRng;
use crate::random::{draw_i32_in, draw_usize_in, entropy_seed, next_draw, seeded_rng, shuffle_in_place};
use crate::vector::{box_size, copy_vector, free_vector, in_box, position_of, valid_bounds, vectors_of};

verus! {

/// 2^53. A uniform draw in [0, 1) is taken as 53 random bits, a rate in [0, 1]
/// as a threshold on them: the draw falls under the rate when the bits are
/// below the threshold.
pub const UNIT: u64 = 0x20_0000_0000_0000;

/// The child that takes `a`'s components before `s` and `b`'s from `s` on.
pub open spec fn cross(a: Seq<i32>, b: Seq<i32>, s: int) -> Seq<i32> {
    a.subrange(0, s) + b.subrange(s, b.len() as int)
}

/// The `k`-th pair of `r` repeats the `k`-th pair of `p`.
pub open spec fn kept_pair(p: Seq<Seq<i32>>, r: Seq<Seq<i32>>, k: int) -> bool {
    r[2 * k] == p[2 * k] && r[2 * k + 1] == p[2 * k + 1]
}

/// The `k`-th pair of `r` is the `k`-th pair of `p` crossed at a split point
/// in `1..d`.
pub open spec fn crossed_pair(p: Seq<Seq<i32>>, r: Seq<Seq<i32>>, k: int, d: int) -> bool {
    exists|s: int|
        1 <= s < d && r[2 * k] == #[trigger] cross(p[2 * k], p[2 * k + 1], s) && r[2 * k + 1] == cross(
            p[2 * k + 1],
            p[2 * k],
            s,
        )
}

proof fn lemma_cross_in_box(a: Seq<i32>, b: Seq<i32>, s: int, lower: Seq<i32>, upper: Seq<i32>)
    requires
        in_box(a, lower, upper),
        in_box(b, lower, upper),
        0 <= s <= a.len(),
    ensures
        in_box(cross(a, b, s), lower, upper),
{
    let c = cross(a, b, s);
    assert forall|j: int| 0 <= j < c.len() implies lower[j] <= #[trigger] c[j] && c[j] <= upper[j] by {
        if j < s {
            assert(c[j] == a[j]);
        } else {
            assert(c[j] == b[j]);
        }
    }
}

/// How many draws one slot of the initial population makes before it takes
/// the first free vector of the box instead.
pub const MAX_DRAWS_PER_SLOT: u64 = 0x1_0000;

/// `x` brought into `[lo, hi]`.
pub open spec fn clamp(x: i32, lo: i32, hi: i32) -> i32 {
    if x < lo {
        lo
    } else if x > hi {
        hi
    } else {
        x
    }
}

/// `v` with each marked component replaced by its moved value, clamped to the
/// bounds of its dimension.
pub open spec fn mutated_vector(
    v: Seq<i32>,
    sites: Seq<bool>,
    moved: Seq<i32>,
    lower: Seq<i32>,
    upper: Seq<i32>,
) -> Seq<i32> {
    Seq::new(v.len(), |j: int| if sites[j] { clamp(moved[j], lower[j], upper[j]) } else { v[j] })
}

/// Each vector of `population` with its marked components moved and clamped.
pub open spec fn mutation_candidates(
    population: Seq<Seq<i32>>,
    sites: Seq<Seq<bool>>,
    moved: Seq<Seq<i32>>,
    lower: Seq<i32>,
    upper: Seq<i32>,
) -> Seq<Seq<i32>> {
    Seq::new(population.len(), |i: int| mutated_vector(population[i], sites[i], moved[i], lower, upper))
}

/// The first occurrence of each vector of `s`, in order.
pub open spec fn dedup(s: Seq<Seq<i32>>) -> Seq<Seq<i32>>
    decreases s.len(),
{
    if s.len() == 0 {
        s
    } else {
        let d = dedup(s.drop_last());
        if d.contains(s.last()) {
            d
        } else {
            d.push(s.last())
        }
    }
}

/// Appending a vector that is not there keeps a list distinct.
pub proof fn lemma_push_distinct(s: Seq<Seq<i32>>, x: Seq<i32>)
    requires
        s.no_duplicates(),
        !s.contains(x),
    ensures
        s.push(x).no_duplicates(),
{
    let t = s.push(x);
    assert forall|i: int, j: int| 0 <= i < t.len() && 0 <= j < t.len() && i != j implies t[i] != t[j] by {
        if i == s.len() {
            assert(t[j] == s[j]);
        } else if j == s.len() {
            assert(t[i] == s[i]);
        } else {
            assert(t[i] == s[i] && t[j] == s[j]);
        }
    }
}

/// What `dedup` keeps is distinct, drawn from its input, and no longer.
pub proof fn lemma_dedup(s: Seq<Seq<i32>>)
    ensures
        dedup(s).no_duplicates(),
        dedup(s).len() <= s.len(),
        forall|i: int| 0 <= i < dedup(s).len() ==> s.contains(#[trigger] dedup(s)[i]),
    decreases s.len(),
{
    if s.len() > 0 {
        let p = s.drop_last();
        lemma_dedup(p);
        let d = dedup(p);
        assert forall|i: int| 0 <= i < d.len() implies s.contains(#[trigger] d[i]) by {
            let k = choose|k: int| 0 <= k < p.len() && p[k] == d[i];
            assert(s[k] == d[i]);
        }
        if !d.contains(s.last()) {
            lemma_push_distinct(d, s.last());
            assert(s[s.len() - 1] == s.last());
        }
    }
}

/// A uniform draw in [0, 1), as the integer `r` of `r / UNIT`: the top 53 bits
/// of the next 64, which are what rand turns into a uniform `f64`.
fn unit_draw(rng: &mut StdRng) -> (r: u64)
    ensures
        r < UNIT,
{
    let bits = next_draw(rng);
    assert(bits >> 11u64 < 0x20_0000_0000_0000u64) by (bit_vector);
    bits >> 11
}

/// The two children of `a` and `b` crossed at `s`.
pub fn cross_pair(a: &Vec<i32>, b: &Vec<i32>, s: usize) -> (r: (Vec<i32>, Vec<i32>))
    requires
        a@.len() == b@.len(),
        s <= a@.len(),
    ensures
        r.0@ == cross(a@, b@, s as int),
        r.1@ == cross(b@, a@, s as int),
{
    let mut c1: Vec<i32> = Vec::new();
    let mut c2: Vec<i32> = Vec::new();
    let mut j: usize = 0;
    while j < a.len()
        invariant
            a@.len() == b@.len(),
            s <= a@.len(),
            j <= a@.len(),
            c1@.len() == j,
            c2@.len() == j,
            forall|m: int| 0 <= m < j ==> #[trigger] c1@[m] == if m < s { a@[m] } else { b@[m] },
            forall|m: int| 0 <= m < j ==> #[trigger] c2@[m] == if m < s { b@[m] } else { a@[m] },
        decreases a@.len() - j,
    {
        if j < s {
            c1.push(a[j]);
            c2.push(b[j]);
        } else {
            c1.push(b[j]);
            c2.push(a[j]);
        }
        j = j + 1;
    }
    assert(c1@ =~= cross(a@, b@, s as int));
    assert(c2@ =~= cross(b@, a@, s as int));
    (c1, c2)
}

/// `p` with each consecutive pair crossed at its split point when its draw is
/// under `threshold`, and kept as it is otherwise.
pub open spec fn recombined(p: Seq<Seq<i32>>, draws: Seq<u64>, splits: Seq<usize>, threshold: u64) -> Seq<Seq<i32>> {
    Seq::new(
        p.len(),
        |i: int|
            {
                let k = i / 2;
                if draws[k] < threshold {
                    if i % 2 == 0 {
                        cross(p[2 * k], p[2 * k + 1], splits[k] as int)
                    } else {
                        cross(p[2 * k + 1], p[2 * k], splits[k] as int)
                    }
                } else {
                    p[i]
                }
            },
    )
}

/// Each pair of `population` holds two vectors of one length, and its split
/// point is within that length.
pub open spec fn pairs_fit(population: Seq<Vec<i32>>, splits: Seq<usize>) -> bool {
    forall|k: int|
        0 <= k < splits.len() ==> population[2 * k]@.len() == population[2 * k + 1]@.len() && #[trigger] splits[k]
            <= population[2 * k]@.len()
}

/// Crosses the `k`-th pair of `population` at `splits[k]` when `draws[k]` is
/// under `threshold`, and keeps it otherwise.
pub fn recombine(population: &Vec<Vec<i32>>, draws: &Vec<u64>, splits: &Vec<usize>, threshold: u64) -> (r: Vec<Vec<i32>>)
    requires
        population@.len() % 2 == 0,
        draws@.len() == population@.len() / 2,
        splits@.len() == draws@.len(),
        pairs_fit(population@, splits@),
    ensures
        vectors_of(r@) == recombined(vectors_of(population@), draws@, splits@, threshold),
{
    let ghost want = recombined(vectors_of(population@), draws@, splits@, threshold);
    let n = population.len();
    let mut out: Vec<Vec<i32>> = Vec::new();
    let mut k: usize = 0;
    while k < draws.len()
        invariant
            want == recombined(vectors_of(population@), draws@, splits@, threshold),
            population@.len() % 2 == 0,
            draws@.len() == population@.len() / 2,
            splits@.len() == draws@.len(),
            pairs_fit(population@, splits@),
            n == population@.len(),
            k <= draws@.len(),
            out@.len() == 2 * k,
            forall|m: int| 0 <= m < 2 * k ==> (#[trigger] out@[m])@ == want[m],
        decreases draws@.len() - k,
    {
        proof {
            assert(2 * k + 1 < population@.len());
        }
        let i = 2 * k;
        proof {
            assert(splits@[k as int] <= population@[2 * k]@.len());
            assert(i / 2 == k && (i + 1) / 2 == k && i % 2 == 0 && (i + 1) % 2 == 1);
        }
        if draws[k] < threshold {
            let (c1, c2) = cross_pair(&population[i], &population[i + 1], splits[k]);
            out.push(c1);
            out.push(c2);
        } else {
            out.push(copy_vector(&population[i]));
            out.push(copy_vector(&population[i + 1]));
        }
        k = k + 1;
    }
    assert(vectors_of(out@) =~= want);
    out
}

/// Each draw of `draws` compared with `threshold`: whether it falls under it.
pub open spec fn marks_of(draws: Seq<Seq<u64>>, threshold: u64) -> Seq<Seq<bool>> {
    draws.map_values(|row: Seq<u64>| row.map_values(|u: u64| u < threshold))
}

/// For each draw, whether it falls under `threshold`.
pub fn marks_below(draws: &Vec<Vec<u64>>, threshold: u64) -> (r: Vec<Vec<bool>>)
    ensures
        r@.map_values(|s: Vec<bool>| s@) == marks_of(draws@.map_values(|s: Vec<u64>| s@), threshold),
        r@.len() == draws@.len(),
        forall|i: int| 0 <= i < draws@.len() ==> (#[trigger] r@[i])@.len() == draws@[i]@.len(),
        forall|i: int, j: int| 0 <= i < draws@.len() && 0 <= j < draws@[i]@.len() ==> #[trigger] r@[i]@[j] == (draws@[i]@[j] < threshold),
{
    let mut r: Vec<Vec<bool>> = Vec::new();
    let mut i: usize = 0;
    while i < draws.len()
        invariant
            i <= draws@.len(),
            r@.len() == i,
            forall|m: int| 0 <= m < i ==> (#[trigger] r@[m])@.len() == draws@[m]@.len(),
            forall|m: int, j: int| 0 <= m < i && 0 <= j < draws@[m]@.len() ==> #[trigger] r@[m]@[j] == (draws@[m]@[j] < threshold),
        decreases draws@.len() - i,
    {
        let mut row: Vec<bool> = Vec::new();
        let mut j: usize = 0;
        while j < draws[i].len()
            invariant
                i < draws@.len(),
                j <= draws@[i as int]@.len(),
                row@.len() == j,
                forall|m: int| 0 <= m < j ==> #[trigger] row@[m] == (draws@[i as int]@[m] < threshold),
            decreases draws@[i as int]@.len() - j,
        {
            row.push(draws[i][j] < threshold);
            j = j + 1;
        }
        r.push(row);
        i = i + 1;
    }
    proof {
        let lhs = r@.map_values(|s: Vec<bool>| s@);
        let rhs = marks_of(draws@.map_values(|s: Vec<u64>| s@), threshold);
        assert forall|m: int| 0 <= m < lhs.len() implies lhs[m] == rhs[m] by {
            assert(lhs[m] =~= rhs[m]);
        }
        assert(lhs =~= rhs);
    }
    r
}

/// A random generator with the settings of the genetic search: the
/// population size, the box of admissible vectors, and the mutation and
/// crossover rates as thresholds over `UNIT`.
pub struct GeneticAlgorithm {
    rng: StdRng,
    mutation_threshold: u64,
    crossover_threshold: u64,
    population_size: usize,
    dimension: usize,
    lower_bound: Vec<i32>,
    upper_bound: Vec<i32>,
}

/// Settings that the genetic search can run with.
pub open spec fn valid_settings(
    population_size: nat,
    mutation_threshold: u64,
    crossover_threshold: u64,
    lower: Seq<i32>,
    upper: Seq<i32>,
) -> bool {
    &&& valid_bounds(lower, upper)
    &&& population_size >= 2
    &&& population_size % 2 == 0
    &&& mutation_threshold <= UNIT
    &&& crossover_threshold <= UNIT
    &&& (crossover_threshold > 0 ==> lower.len() >= 2)
    &&& box_size(lower, upper, lower.len()) >= population_size
}

impl GeneticAlgorithm {
    pub closed spec fn population_size(&self) -> nat {
        self.population_size as nat
    }

    pub closed spec fn mutation_threshold(&self) -> u64 {
        self.mutation_threshold
    }

    pub closed spec fn crossover_threshold(&self) -> u64 {
        self.crossover_threshold
    }

    pub closed spec fn lower(&self) -> Seq<i32> {
        self.lower_bound@
    }

    pub closed spec fn upper(&self) -> Seq<i32> {
        self.upper_bound@
    }

    pub closed spec fn wf(&self) -> bool {
        &&& valid_settings(
            self.population_size(),
            self.mutation_threshold,
            self.crossover_threshold,
            self.lower(),
            self.upper(),
        )
        &&& self.dimension == self.lower_bound@.len()
    }

    /// The dimension of the vectors searched.
    pub open spec fn dimension(&self) -> nat {
        self.lower().len()
    }

    /// Whether `other` has the settings of `self`.
    pub open spec fn same_settings(&self, other: &GeneticAlgorithm) -> bool {
        &&& other.population_size() == self.population_size()
        &&& other.mutation_threshold() == self.mutation_threshold()
        &&& other.crossover_threshold() == self.crossover_threshold()
        &&& other.lower() == self.lower()
        &&& other.upper() == self.upper()
    }

    /// A well-formed generator runs with valid settings.
    pub proof fn lemma_wf(&self)
        requires
            self.wf(),
        ensures
            valid_settings(
                self.population_size(),
                self.mutation_threshold(),
                self.crossover_threshold(),
                self.lower(),
                self.upper(),
            ),
    {
    }

    /// A generator with the given settings, seeded by `seed` or, when there is
    /// none, from the system's entropy.
    pub fn new(
        population_size: usize,
        mutation_threshold: u64,
        crossover_threshold: u64,
        lower_bound: Vec<i32>,
        upper_bound: Vec<i32>,
        seed: Option<u64>,
    ) -> (r: GeneticAlgorithm)
        requires
            valid_settings(
                population_size as nat,
                mutation_threshold,
                crossover_threshold,
                lower_bound@,
                upper_bound@,
            ),
        ensures
            r.wf(),
            r.population_size() == population_size,
            r.mutation_threshold() == mutation_threshold,
            r.crossover_threshold() == crossover_threshold,
            r.lower() == lower_bound@,
            r.upper() == upper_bound@,
    {
        let seed = match seed {
            Some(s) => s,
            None => entropy_seed(),
        };
        let dimension = lower_bound.len();
        GeneticAlgorithm {
            rng: seeded_rng(seed),
            mutation_threshold,
            crossover_threshold,
            population_size,
            dimension,
            lower_bound,
            upper_bound,
        }
    }

    /// The number of vectors in a population.
    pub fn get_population_size(&self) -> (r: usize)
        ensures
            r == self.population_size(),
    {
        self.population_size
    }

    pub(crate) fn lower_bound_ref(&self) -> (r: &Vec<i32>)
        ensures
            r@ == self.lower(),
    {
        &self.lower_bound
    }

    pub(crate) fn upper_bound_ref(&self) -> (r: &Vec<i32>)
        ensures
            r@ == self.upper(),
    {
        &self.upper_bound
    }

    /// The dimension of the vectors searched.
    pub fn get_dimension(&self) -> (r: usize)
        requires
            self.wf(),
        ensures
            r == self.dimension(),
    {
        self.dimension
    }

    /// A generator seeded by a fresh draw of this one.
    fn sub_rng(&mut self) -> (r: StdRng)
        ensures
            final(self).wf() == old(self).wf(),
            old(self).same_settings(final(self)),
            final(self).dimension == old(self).dimension,
    {
        let seed = next_draw(&mut self.rng);
        seeded_rng(seed)
    }

    /// A vector drawn uniformly from the box.
    fn draw_vector(&self, rng: &mut StdRng) -> (r: Vec<i32>)
        requires
            self.wf(),
        ensures
            in_box(r@, self.lower(), self.upper()),
    {
        let mut v: Vec<i32> = Vec::new();
        let mut j: usize = 0;
        while j < self.dimension
            invariant
                self.wf(),
                j <= self.dimension,
                v@.len() == j,
                forall|i: int| 0 <= i < j ==> self.lower()[i] <= #[trigger] v@[i] && v@[i] <= self.upper()[i],
            decreases self.dimension - j,
        {
            let x = draw_i32_in(rng, self.lower_bound[j], self.upper_bound[j]);
            v.push(x);
            j = j + 1;
        }
        v
    }

    /// A population of distinct vectors drawn uniformly from the box, from a
    /// fresh sub-seed. A draw that repeats a vector already taken is made
    /// again; after `MAX_DRAWS_PER_SLOT` such draws in a row the slot takes the
    /// first vector of the box, in its numbering, that is not taken yet.
    pub fn generate_new_population(&mut self) -> (r: Vec<Vec<i32>>)
        requires
            old(self).wf(),
        ensures
            final(self).wf(),
            old(self).same_settings(final(self)),
            r@.len() == old(self).population_size(),
            vectors_of(r@).no_duplicates(),
            forall|i: int| 0 <= i < r@.len() ==> in_box(#[trigger] r@[i]@, old(self).lower(), old(self).upper()),
    {
        let mut rng = self.sub_rng();
        let mut individuals: Vec<Vec<i32>> = Vec::new();
        while individuals.len() < self.population_size
            invariant
                self.wf(),
                old(self).same_settings(self),
                individuals@.len() <= self.population_size,
                vectors_of(individuals@).no_duplicates(),
                forall|i: int| 0 <= i < individuals@.len() ==> in_box(#[trigger] individuals@[i]@, self.lower(), self.upper()),
            decreases self.population_size - individuals@.len(),
        {
            let mut found: Option<Vec<i32>> = None;
            let mut draws: u64 = 0;
            while found.is_none() && draws < MAX_DRAWS_PER_SLOT
                invariant
                    self.wf(),
                    match found {
                        Some(c) => in_box(c@, self.lower(), self.upper()) && !vectors_of(individuals@).contains(c@),
                        None => true,
                    },
                decreases MAX_DRAWS_PER_SLOT - draws,
            {
                draws = draws + 1;
                let candidate = self.draw_vector(&mut rng);
                if position_of(&individuals, &candidate).is_none() {
                    found = Some(candidate);
                }
            }
            let candidate = match found {
                Some(c) => c,
                None => {
                    proof {
                        assert(individuals@.len() < box_size(self.lower(), self.upper(), self.lower().len()));
                    }
                    free_vector(&individuals, &self.lower_bound, &self.upper_bound)
                },
            };
            proof {
                lemma_push_distinct(vectors_of(individuals@), candidate@);
                assert(vectors_of(individuals@.push(candidate)) =~= vectors_of(individuals@).push(candidate@));
            }
            individuals.push(candidate);
        }
        individuals
    }

    /// Puts the positions in a random order drawn from a fresh sub-seed.
    pub fn shuffle_population(&mut self, positions: &mut Vec<usize>)
        requires
            old(self).wf(),
        ensures
            final(self).wf(),
            old(self).same_settings(final(self)),
            final(positions)@.to_multiset() == old(positions)@.to_multiset(),
            final(positions)@.len() == old(positions)@.len(),
    {
        let mut rng = self.sub_rng();
        shuffle_in_place(&mut rng, positions);
    }

    /// Recombines consecutive pairs. For each pair a uniform draw decides: under
    /// the crossover rate the pair is crossed at a split point drawn from
    /// `1..dimension`, else it is kept as it is. Draws from a fresh sub-seed,
    /// the split point right after the draw that asks for it.
    pub fn crossover(&mut self, population: &Vec<Vec<i32>>) -> (r: Vec<Vec<i32>>)
        requires
            old(self).wf(),
            population@.len() == old(self).population_size(),
            forall|i: int| 0 <= i < population@.len() ==> (#[trigger] population@[i])@.len() == old(self).dimension(),
        ensures
            final(self).wf(),
            old(self).same_settings(final(self)),
            r@.len() == population@.len(),
            exists|draws: Seq<u64>, splits: Seq<usize>|
                #![trigger recombined(vectors_of(population@), draws, splits, old(self).crossover_threshold())]
                draws.len() == population@.len() / 2 && splits.len() == draws.len() && (forall|k: int|
                    0 <= k < draws.len() ==> #[trigger] draws[k] < UNIT) && (forall|k: int|
                    0 <= k < draws.len() && draws[k] < old(self).crossover_threshold() ==> 1 <= #[trigger] splits[k]
                        < old(self).dimension()) && vectors_of(r@) == recombined(
                    vectors_of(population@),
                    draws,
                    splits,
                    old(self).crossover_threshold(),
                ),
            forall|k: int|
                0 <= k < r@.len() / 2 ==> kept_pair(vectors_of(population@), vectors_of(r@), k)
                    || crossed_pair(vectors_of(population@), vectors_of(r@), k, old(self).dimension() as int),
            old(self).crossover_threshold() == 0 ==> forall|k: int|
                0 <= k < r@.len() / 2 ==> kept_pair(vectors_of(population@), vectors_of(r@), k),
            old(self).crossover_threshold() == UNIT ==> forall|k: int|
                0 <= k < r@.len() / 2 ==> crossed_pair(vectors_of(population@), vectors_of(r@), k, old(self).dimension() as int),
            (forall|i: int| 0 <= i < population@.len() ==> in_box(#[trigger] population@[i]@, old(self).lower(), old(self).upper()))
                ==> forall|i: int| 0 <= i < r@.len() ==> in_box(#[trigger] r@[i]@, old(self).lower(), old(self).upper()),
    {
        let mut rng = self.sub_rng();
        let pairs = self.population_size / 2;
        let threshold = self.crossover_threshold;
        let mut draws: Vec<u64> = Vec::new();
        let mut splits: Vec<usize> = Vec::new();
        let mut k: usize = 0;
        while k < pairs
            invariant
                self.wf(),
                old(self).same_settings(self),
                threshold == self.crossover_threshold,
                pairs == self.population_size / 2,
                k <= pairs,
                draws@.len() == k,
                splits@.len() == k,
                forall|m: int| 0 <= m < k ==> #[trigger] draws@[m] < UNIT,
                forall|m: int| 0 <= m < k && draws@[m] < threshold ==> 1 <= #[trigger] splits@[m] < self.dimension(),
                forall|m: int| 0 <= m < k ==> #[trigger] splits@[m] <= self.dimension(),
            decreases pairs - k,
        {
            let u = unit_draw(&mut rng);
            let s = if u < threshold {
                draw_usize_in(&mut rng, 1, self.dimension - 1)
            } else {
                0
            };
            draws.push(u);
            splits.push(s);
            k = k + 1;
        }
        proof {
            assert forall|q: int| 0 <= q < splits@.len() implies population@[2 * q]@.len() == population@[2 * q + 1]@.len()
                && #[trigger] splits@[q] <= population@[2 * q]@.len() by {
                assert(population@[2 * q]@.len() == self.dimension());
                assert(population@[2 * q + 1]@.len() == self.dimension());
            }
        }
        let r = recombine(population, &draws, &splits, threshold);
        proof {
            let p = vectors_of(population@);
            let d = self.dimension() as int;
            let rr = vectors_of(r@);
            assert(rr == recombined(p, draws@, splits@, threshold));
            assert forall|k: int| 0 <= k < r@.len() / 2 implies (draws@[k] < threshold ==> crossed_pair(p, rr, k, d))
                && (draws@[k] >= threshold ==> kept_pair(p, rr, k)) by {
                assert(rr[2 * k] == recombined(p, draws@, splits@, threshold)[2 * k]);
                assert(rr[2 * k + 1] == recombined(p, draws@, splits@, threshold)[2 * k + 1]);
                assert((2 * k) / 2 == k && (2 * k + 1) / 2 == k && (2 * k) % 2 == 0 && (2 * k + 1) % 2 == 1);
                if draws@[k] < threshold {
                    assert(rr[2 * k] == cross(p[2 * k], p[2 * k + 1], splits@[k] as int));
                }
            }
            if threshold == UNIT {
                assert forall|k: int| 0 <= k < r@.len() / 2 implies crossed_pair(p, rr, k, d) by {
                    assert(draws@[k] < UNIT);
                    assert(rr[2 * k] == recombined(p, draws@, splits@, threshold)[2 * k]);
                    assert(rr[2 * k + 1] == recombined(p, draws@, splits@, threshold)[2 * k + 1]);
                    assert((2 * k) / 2 == k && (2 * k + 1) / 2 == k && (2 * k) % 2 == 0 && (2 * k + 1) % 2 == 1);
                    assert(rr[2 * k] == cross(p[2 * k], p[2 * k + 1], splits@[k] as int));
                }
            }
            assert forall|i: int| 0 <= i < r@.len() && (forall|m: int|
                0 <= m < population@.len() ==> in_box(#[trigger] population@[m]@, self.lower(), self.upper())) implies in_box(
                #[trigger] r@[i]@,
                self.lower(),
                self.upper(),
            ) by {
                let k = i / 2;
                assert(rr[i] == r@[i]@);
                assert(in_box(population@[2 * k]@, self.lower(), self.upper()));
                assert(in_box(population@[2 * k + 1]@, self.lower(), self.upper()));
                if draws@[k] < threshold {
                    lemma_cross_in_box(p[2 * k], p[2 * k + 1], splits@[k] as int, self.lower(), self.upper());
                    lemma_cross_in_box(p[2 * k + 1], p[2 * k], splits@[k] as int, self.lower(), self.upper());
                }
            }
        }
        r
    }

    /// For each component of each vector, whether it moves: a uniform draw
    /// under the mutation rate. Draws from a fresh sub-seed; also returns a
    /// second fresh sub-seed, for the draws of how far the marked components
    /// move. (Those draws are of real numbers, so their generator is handed to
    /// the caller rather than shared with the marks.)
    pub fn mutation_sites(&mut self, population: &Vec<Vec<i32>>) -> (r: (Vec<Vec<bool>>, u64))
        requires
            old(self).wf(),
        ensures
            final(self).wf(),
            old(self).same_settings(final(self)),
            r.0@.len() == population@.len(),
            forall|i: int| 0 <= i < population@.len() ==> (#[trigger] r.0@[i])@.len() == population@[i]@.len(),
            exists|draws: Seq<Seq<u64>>|
                #![trigger marks_of(draws, old(self).mutation_threshold())]
                draws.len() == population@.len() && (forall|i: int, j: int|
                    0 <= i < draws.len() && 0 <= j < draws[i].len() ==> #[trigger] draws[i][j] < UNIT)
                    && r.0@.map_values(|s: Vec<bool>| s@) == marks_of(draws, old(self).mutation_threshold()),
            old(self).mutation_threshold() == 0 ==> forall|i: int, j: int|
                0 <= i < r.0@.len() && 0 <= j < r.0@[i]@.len() ==> !(#[trigger] r.0@[i]@[j]),
            old(self).mutation_threshold() == UNIT ==> forall|i: int, j: int|
                0 <= i < r.0@.len() && 0 <= j < r.0@[i]@.len() ==> #[trigger] r.0@[i]@[j],
    {
        let mut rng = self.sub_rng();
        let mut draws: Vec<Vec<u64>> = Vec::new();
        let mut i: usize = 0;
        while i < population.len()
            invariant
                self.wf(),
                old(self).same_settings(self),
                i <= population@.len(),
                draws@.len() == i,
                forall|m: int| 0 <= m < i ==> (#[trigger] draws@[m])@.len() == population@[m]@.len(),
                forall|m: int, j: int| 0 <= m < i && 0 <= j < draws@[m]@.len() ==> #[trigger] draws@[m]@[j] < UNIT,
            decreases population@.len() - i,
        {
            let mut row: Vec<u64> = Vec::new();
            let mut j: usize = 0;
            while j < population[i].len()
                invariant
                    i < population@.len(),
                    j <= population@[i as int]@.len(),
                    row@.len() == j,
                    forall|m: int| 0 <= m < j ==> #[trigger] row@[m] < UNIT,
                decreases population@[i as int]@.len() - j,
            {
                let u = unit_draw(&mut rng);
                row.push(u);
                j = j + 1;
            }
            draws.push(row);
            i = i + 1;
        }
        let sites = marks_below(&draws, self.mutation_threshold);
        proof {
            let dv = draws@.map_values(|s: Vec<u64>| s@);
            assert forall|a: int, b: int| 0 <= a < dv.len() && 0 <= b < dv[a].len() implies #[trigger] dv[a][b] < UNIT by {
                assert(dv[a] == draws@[a]@);
            }
        }
        let noise_seed = next_draw(&mut self.rng);
        (sites, noise_seed)
    }

    /// Moves the marked components of each vector to their moved values,
    /// clamped to the box, and keeps each resulting vector only at its first
    /// appearance.
    pub fn mutate(&self, population: &Vec<Vec<i32>>, sites: &Vec<Vec<bool>>, moved: &Vec<Vec<i32>>) -> (r: Vec<Vec<i32>>)
        requires
            self.wf(),
            sites@.len() == population@.len(),
            moved@.len() == population@.len(),
            forall|i: int| 0 <= i < population@.len() ==> (#[trigger] population@[i])@.len() == self.dimension(),
            forall|i: int| 0 <= i < sites@.len() ==> (#[trigger] sites@[i])@.len() == self.dimension(),
            forall|i: int| 0 <= i < moved@.len() ==> (#[trigger] moved@[i])@.len() == self.dimension(),
        ensures
            vectors_of(r@) == dedup(
                mutation_candidates(vectors_of(population@), sites@.map_values(|s: Vec<bool>| s@), vectors_of(moved@), self.lower(), self.upper()),
            ),
            vectors_of(r@).no_duplicates(),
            r@.len() <= population@.len(),
            (forall|i: int| 0 <= i < population@.len() ==> in_box(#[trigger] population@[i]@, self.lower(), self.upper()))
                ==> forall|i: int| 0 <= i < r@.len() ==> in_box(#[trigger] r@[i]@, self.lower(), self.upper()),
    {
        let ghost all = Seq::new(
            population@.len(),
            |i: int| mutated_vector(population@[i]@, sites@[i]@, moved@[i]@, self.lower(), self.upper()),
        );
        let mut out: Vec<Vec<i32>> = Vec::new();
        let mut i: usize = 0;
        while i < population.len()
            invariant
                self.wf(),
                sites@.len() == population@.len(),
                moved@.len() == population@.len(),
                forall|m: int| 0 <= m < population@.len() ==> (#[trigger] population@[m])@.len() == self.dimension(),
                forall|m: int| 0 <= m < sites@.len() ==> (#[trigger] sites@[m])@.len() == self.dimension(),
                forall|m: int| 0 <= m < moved@.len() ==> (#[trigger] moved@[m])@.len() == self.dimension(),
                all == Seq::new(
                    population@.len(),
                    |m: int| mutated_vector(population@[m]@, sites@[m]@, moved@[m]@, self.lower(), self.upper()),
                ),
                i <= population@.len(),
                vectors_of(out@) == dedup(all.take(i as int)),
            decreases population@.len() - i,
        {
            let v = self.mutate_one(&population[i], &sites[i], &moved[i]);
            proof {
                assert(all.take(i + 1).drop_last() =~= all.take(i as int));
                assert(all.take(i + 1).last() == all[i as int]);
                assert(v@ == all[i as int]);
            }
            if position_of(&out, &v).is_none() {
                proof {
                    assert(vectors_of(out@.push(v)) =~= vectors_of(out@).push(v@));
                }
                out.push(v);
            } else {
                proof {
                    let k = choose|k: int| 0 <= k < out@.len() && out@[k]@ == v@;
                    assert(vectors_of(out@)[k] == v@);
                }
            }
            i = i + 1;
        }
        proof {
            assert(all.take(population@.len() as int) =~= all);
            assert(all =~= mutation_candidates(vectors_of(population@), sites@.map_values(|s: Vec<bool>| s@), vectors_of(moved@), self.lower(), self.upper()));
            lemma_dedup(all);
            assert forall|m: int| 0 <= m < out@.len() implies
                (forall|q: int| 0 <= q < population@.len() ==> in_box(#[trigger] population@[q]@, self.lower(), self.upper()))
                    ==> in_box(#[trigger] out@[m]@, self.lower(), self.upper()) by {
                assert(vectors_of(out@)[m] == out@[m]@);
                assert(all.contains(out@[m]@));
                let q = choose|q: int| 0 <= q < all.len() && all[q] == out@[m]@;
                if forall|q2: int| 0 <= q2 < population@.len() ==> in_box(#[trigger] population@[q2]@, self.lower(), self.upper()) {
                    assert(in_box(population@[q]@, self.lower(), self.upper()));
                }
            }
        }
        out
    }

    /// One vector with its marked components moved and clamped to the box.
    fn mutate_one(&self, v: &Vec<i32>, sites: &Vec<bool>, moved: &Vec<i32>) -> (r: Vec<i32>)
        requires
            self.wf(),
            v@.len() == self.dimension(),
            sites@.len() == self.dimension(),
            moved@.len() == self.dimension(),
        ensures
            r@ == mutated_vector(v@, sites@, moved@, self.lower(), self.upper()),
    {
        let mut r: Vec<i32> = Vec::new();
        let mut j: usize = 0;
        while j < v.len()
            invariant
                self.wf(),
                v@.len() == self.dimension(),
                sites@.len() == self.dimension(),
                moved@.len() == self.dimension(),
                j <= v@.len(),
                r@ =~= mutated_vector(v@, sites@, moved@, self.lower(), self.upper()).subrange(0, j as int),
            decreases v@.len() - j,
        {
            let x = if sites[j] {
                let lo = self.lower_bound[j];
                let hi = self.upper_bound[j];
                if moved[j] < lo {
                    lo
                } else if moved[j] > hi {
                    hi
                } else {
                    moved[j]
                }
            } else {
                v[j]
            };
            r.push(x);
            j = j + 1;
        }
        r
    }
}

} // verus!

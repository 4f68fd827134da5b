use vstd::prelude::*;
use std::collections::BTreeMap;
use crate::arm::Arm;
use crate::bandit::{find_best_ucb, is_first_min, is_ucb_prefix, max_evaluations, means_level};
use crate::genetic::{crossed_pair, dedup, kept_pair, mutation_candidates, GeneticAlgorithm, UNIT};
use crate::memory::{
    arms_counted, arms_distinct, arms_in_box, holds_arm, index_matches, lemma_index_append, lemma_index_update,
    lemma_table_append, table_holds, table_matches, index_moved, index_added,
};
use crate::sorted_multi_map::{removed_first_at, sorted_by_key, SortedMultiMap};
use crate::vector::{box_size, copy_vector, hash_vector, in_box, same_vector, vector_hash, vectors_of};

verus! {

/// Whether `v` is the vector of one of the arms listed in `current`.
pub open spec fn held_by_current(v: Seq<i32>, arms: Seq<Arm>, current: Seq<usize>) -> bool {
    exists|k: int| 0 <= k < current.len() && (#[trigger] current[k]) < arms.len() && arms[current[k] as int].action() == v
}

/// The vectors of `mutated` that no arm listed in `current` holds, in order.
pub open spec fn fresh_offspring(mutated: Seq<Seq<i32>>, arms: Seq<Arm>, current: Seq<usize>) -> Seq<Seq<i32>>
    decreases mutated.len(),
{
    if mutated.len() == 0 {
        mutated
    } else {
        let rest = fresh_offspring(mutated.drop_last(), arms, current);
        if held_by_current(mutated.last(), arms, current) {
            rest
        } else {
            rest.push(mutated.last())
        }
    }
}

/// Whether `v` lists `x`.
fn lists_index(v: &Vec<usize>, x: usize) -> (r: bool)
    ensures
        r == v@.contains(x),
{
    let mut j: usize = 0;
    while j < v.len()
        invariant
            j <= v@.len(),
            forall|m: int| 0 <= m < j ==> v@[m] != x,
        decreases v@.len() - j,
    {
        if v[j] == x {
            return true;
        }
        j = j + 1;
    }
    false
}

/// A copy of a list of arm indices.
fn copy_indexes(v: &Vec<usize>) -> (r: Vec<usize>)
    ensures
        r@ == v@,
{
    let mut r: Vec<usize> = Vec::new();
    let mut j: usize = 0;
    while j < v.len()
        invariant
            j <= v@.len(),
            r@ == v@.subrange(0, j as int),
        decreases v@.len() - j,
    {
        r.push(v[j]);
        j = j + 1;
    }
    assert(r@ =~= v@);
    r
}

/// Whether the box of `lower` and `upper` holds at least `count` vectors.
fn box_holds_at_least(lower: &Vec<i32>, upper: &Vec<i32>, count: usize) -> (r: bool)
    requires
        lower@.len() == upper@.len(),
        forall|j: int| 0 <= j < lower@.len() ==> #[trigger] lower@[j] <= #[trigger] upper@[j],
    ensures
        r == (box_size(lower@, upper@, lower@.len()) >= count),
{
    // the box size of the dimensions seen so far, capped at `count`
    let mut acc: u128 = if count >= 1 { 1 } else { 0 };
    let mut j: usize = 0;
    proof {
        assert(box_size(lower@, upper@, 0) == 1);
    }
    while j < lower.len()
        invariant
            lower@.len() == upper@.len(),
            forall|m: int| 0 <= m < lower@.len() ==> #[trigger] lower@[m] <= #[trigger] upper@[m],
            j <= lower@.len(),
            box_size(lower@, upper@, j as nat) >= 1,
            acc as int == if box_size(lower@, upper@, j as nat) < count as int { box_size(lower@, upper@, j as nat) } else { count as int },
        decreases lower@.len() - j,
    {
        let width: u128 = (upper[j] as i64 - lower[j] as i64 + 1) as u128;
        let ghost b = box_size(lower@, upper@, j as nat);
        proof {
            assert(box_size(lower@, upper@, (j + 1) as nat) == b * width);
            assert(b * width >= b) by (nonlinear_arith)
                requires b >= 1, width >= 1;
            assert(acc * width <= 0xffff_ffff_ffff_ffff * 0x1_0000_0000) by (nonlinear_arith)
                requires acc <= 0xffff_ffff_ffff_ffff, width <= 0x1_0000_0000;
            if b >= count {
                assert(acc * width >= acc) by (nonlinear_arith)
                    requires width >= 1, acc >= 0;
            }
        }
        let grown = acc * width;
        acc = if grown < count as u128 { grown } else { count as u128 };
        j = j + 1;
    }
    acc >= count as u128
}

/// `g` has started a generation from `index` and `arms`: its survivors are the
/// arms of the first `population_size` entries of the index, in an order that
/// is a permutation of theirs; the offspring of crossover repeat or cross
/// consecutive pairs of the survivors' vectors; and one mark is drawn for each
/// component of each offspring.
pub open spec fn generation_started(
    index: Seq<(u64, usize)>,
    arms: Seq<Arm>,
    population_size: nat,
    dimension: nat,
    g: Gmab,
) -> bool {
    &&& g.current() == index.take(population_size as int).map_values(|e: (u64, usize)| e.1)
    &&& g.survivor_arms().to_multiset() == g.current().to_multiset()
    &&& g.survivor_vectors() == g.survivor_arms().map_values(|s: usize| arms[s as int].action())
    &&& g.parents_of_mutation().len() == population_size
    &&& forall|k: int|
        0 <= k < population_size / 2 ==> kept_pair(g.survivor_vectors(), g.parents_of_mutation(), k)
            || crossed_pair(g.survivor_vectors(), g.parents_of_mutation(), k, dimension as int)
    &&& g.sites_of_mutation().len() == population_size
    &&& forall|m: int| 0 <= m < population_size ==> (#[trigger] g.sites_of_mutation()[m]).len() == dimension
}

/// Why a search cannot be set up.
#[derive(Debug, Clone, Copy, PartialEq, Eq, Structural)]
pub enum GmabError {
    /// A lower bound above its upper bound, no dimension, bounds of the wrong
    /// length, a single dimension while crossover is enabled, or a box with
    /// fewer vectors than the population.
    InvalidBounds,
    /// A rate above one, or a population size that is odd or below two, or a
    /// budget of zero.
    InvalidHyperparameters,
    /// A budget smaller than the population, which the first generation spends.
    BudgetExhaustedNoEvaluations,
}

/// What the caller is asked to do next.
pub enum Step {
    /// Evaluate `action_vector` once, and report with `record_reward` the
    /// cumulative reward and the mean after adding that evaluation to
    /// `reward_bits` (a double's bit pattern) over `n_evaluations` earlier ones.
    Evaluate { action_vector: Vec<i32>, reward_bits: u64, n_evaluations: u64 },
    /// Move the marked components of `mutation_parents` (see
    /// `mutation_sites`), drawing from a generator seeded with `noise_seed`,
    /// and report with `record_mutation`.
    Mutate { noise_seed: u64 },
    /// Score each listed arm, and report with `record_scores`.
    Score { arms: Vec<usize> },
    /// The budget is spent; this is the vector chosen.
    Done { action_vector: Vec<i32> },
}

/// The bounds describe a box that a population of `population_size` fits in.
pub open spec fn bounds_valid(
    population_size: nat,
    crossover_threshold: u64,
    dimension: nat,
    lower: Seq<i32>,
    upper: Seq<i32>,
) -> bool {
    &&& dimension > 0
    &&& lower.len() == dimension
    &&& upper.len() == dimension
    &&& forall|j: int| 0 <= j < dimension ==> #[trigger] lower[j] <= #[trigger] upper[j]
    &&& !(dimension == 1 && crossover_threshold > 0)
    &&& box_size(lower, upper, dimension) >= population_size
}

/// The rates are at most one, the population size is even and at least two,
/// and the budget is positive.
pub open spec fn hyperparameters_valid(
    population_size: nat,
    mutation_threshold: u64,
    crossover_threshold: u64,
    max_simulations: nat,
) -> bool {
    &&& mutation_threshold <= UNIT
    &&& crossover_threshold <= UNIT
    &&& population_size >= 2
    &&& population_size % 2 == 0
    &&& max_simulations > 0
}

/// Settings a search can be set up with: valid bounds and hyperparameters,
/// and a budget that covers the initial population.
pub open spec fn setup_valid(
    population_size: nat,
    mutation_threshold: u64,
    crossover_threshold: u64,
    max_simulations: nat,
    dimension: nat,
    lower: Seq<i32>,
    upper: Seq<i32>,
) -> bool {
    &&& bounds_valid(population_size, crossover_threshold, dimension, lower, upper)
    &&& hyperparameters_valid(population_size, mutation_threshold, crossover_threshold, max_simulations)
    &&& max_simulations >= population_size
}

/// What the search waits for.
#[derive(Debug, Clone, Copy, PartialEq, Eq, Structural)]
pub enum Phase {
    /// Nothing: the next step can be asked for.
    Ready,
    /// The evaluation of the vector last handed out.
    Reward,
    /// The moved components of the population last handed out.
    Mutation,
    /// The scores of the arms last handed out.
    Scores,
    /// Nothing any more: the search is over.
    Finished,
}

/// The state of a search: the memory of arms, the sorted mean index over it,
/// the genetic engine, the evaluation budget, and the vectors queued for
/// evaluation in the current generation.
pub struct Gmab {
    sample_average_tree: SortedMultiMap,
    arm_memory: Vec<Arm>,
    lookup_table: BTreeMap<u64, Vec<usize>>,
    genetic_algorithm: GeneticAlgorithm,
    current_indexes: Vec<usize>,
    simulations_used: u64,
    max_simulations: u64,
    queue: Vec<Vec<i32>>,
    cursor: usize,
    seeding: bool,
    survivor_indexes: Vec<usize>,
    survivors: Vec<Vec<i32>>,
    parents: Vec<Vec<i32>>,
    sites: Vec<Vec<bool>>,
    prefix: Vec<usize>,
    best_arm: usize,
    phase: Phase,
}

impl Gmab {
    pub closed spec fn arms(&self) -> Seq<Arm> {
        self.arm_memory@
    }

    /// The arms listed under each vector hash.
    pub closed spec fn table(&self) -> Map<u64, Vec<usize>> {
        self.lookup_table@
    }

    pub closed spec fn index(&self) -> Seq<(u64, usize)> {
        self.sample_average_tree@
    }

    pub closed spec fn used(&self) -> nat {
        self.simulations_used as nat
    }

    pub closed spec fn budget(&self) -> nat {
        self.max_simulations as nat
    }

    pub closed spec fn lower(&self) -> Seq<i32> {
        self.genetic_algorithm.lower()
    }

    pub closed spec fn upper(&self) -> Seq<i32> {
        self.genetic_algorithm.upper()
    }

    pub closed spec fn population_size(&self) -> nat {
        self.genetic_algorithm.population_size()
    }

    pub closed spec fn phase(&self) -> Phase {
        self.phase
    }

    /// The vectors queued for evaluation in this generation.
    pub closed spec fn queued(&self) -> Seq<Seq<i32>> {
        vectors_of(self.queue@)
    }

    /// How many of the queued vectors have been handed out.
    pub closed spec fn next_in_queue(&self) -> nat {
        self.cursor as nat
    }

    /// The arms handed out to be scored.
    pub closed spec fn scored_arms(&self) -> Seq<usize> {
        self.prefix@
    }

    /// The offspring of crossover waiting to be moved.
    pub closed spec fn parents_of_mutation(&self) -> Seq<Seq<i32>> {
        vectors_of(self.parents@)
    }

    /// Which components of those offspring move.
    pub closed spec fn sites_of_mutation(&self) -> Seq<Seq<bool>> {
        self.sites@.map_values(|s: Vec<bool>| s@)
    }

    /// The vectors of this generation's survivors, in shuffled order.
    pub closed spec fn survivor_vectors(&self) -> Seq<Seq<i32>> {
        vectors_of(self.survivors@)
    }

    /// The arms of this generation's survivors, in shuffled order.
    pub closed spec fn survivor_arms(&self) -> Seq<usize> {
        self.survivor_indexes@
    }

    /// The arms this generation's survivors were taken from.
    pub closed spec fn current(&self) -> Seq<usize> {
        self.current_indexes@
    }

    /// The arm that the search chose, once it is over.
    pub closed spec fn best(&self) -> usize {
        self.best_arm
    }

    /// A search just set up: nothing evaluated yet, and its initial population
    /// of distinct vectors of the box queued for evaluation.
    pub open spec fn fresh_search(&self, population_size: nat, max_simulations: nat, lower: Seq<i32>, upper: Seq<i32>) -> bool {
        &&& self.wf()
        &&& self.phase() == Phase::Ready
        &&& self.arms().len() == 0
        &&& self.index().len() == 0
        &&& self.used() == 0
        &&& self.budget() == max_simulations
        &&& self.population_size() == population_size
        &&& self.lower() == lower
        &&& self.upper() == upper
        &&& self.queued().len() == population_size
        &&& self.queued().no_duplicates()
        &&& forall|m: int| 0 <= m < self.queued().len() ==> in_box(#[trigger] self.queued()[m], lower, upper)
        &&& self.next_in_queue() == 0
    }

    /// `other` searches the same box, with the same population size and budget.
    pub open spec fn same_config(&self, other: &Gmab) -> bool {
        &&& other.lower() == self.lower()
        &&& other.upper() == self.upper()
        &&& other.population_size() == self.population_size()
        &&& other.budget() == self.budget()
    }

    /// The state of the memory and the index that every operation keeps.
    pub open spec fn memory_wf(&self) -> bool {
        &&& index_matches(self.index(), self.arms())
        &&& arms_distinct(self.arms())
        &&& arms_in_box(self.arms(), self.lower(), self.upper())
        &&& arms_counted(self.arms(), self.used())
        &&& self.used() <= self.budget()
        &&& self.arms().len() <= self.used()
        &&& self.used() > 0 ==> self.arms().len() > 0
    }

    pub closed spec fn wf(&self) -> bool {
        &&& self.genetic_algorithm.wf()
        &&& self.sample_average_tree.wf()
        &&& table_matches(self.table(), self.arms())
        &&& self.max_simulations > 0
        &&& self.memory_wf()
        &&& self.cursor <= self.queue@.len()
        &&& forall|m: int| 0 <= m < self.queue@.len() ==> in_box((#[trigger] self.queue@[m])@, self.lower(), self.upper())
        &&& self.seeding ==> {
            &&& self.queue@.len() == self.population_size()
            &&& vectors_of(self.queue@).no_duplicates()
            &&& self.arm_memory@.len() == self.cursor
            &&& forall|m: int| 0 <= m < self.cursor ==> (#[trigger] self.arm_memory@[m]).action() == self.queue@[m]@
        }
        &&& !self.seeding ==> self.arm_memory@.len() >= self.population_size()
        &&& self.phase == Phase::Reward ==> self.cursor < self.queue@.len() && self.simulations_used < self.max_simulations
        &&& self.phase == Phase::Mutation ==> {
            &&& !self.seeding
            &&& self.parents@.len() == self.population_size()
            &&& self.sites@.len() == self.population_size()
            &&& forall|m: int| 0 <= m < self.parents@.len() ==> in_box((#[trigger] self.parents@[m])@, self.lower(), self.upper())
            &&& forall|m: int| 0 <= m < self.survivors@.len() ==> in_box((#[trigger] self.survivors@[m])@, self.lower(), self.upper())
            &&& forall|m: int| 0 <= m < self.sites@.len() ==> (#[trigger] self.sites@[m])@.len() == self.lower().len()
            &&& forall|m: int| 0 <= m < self.current_indexes@.len() ==> (#[trigger] self.current_indexes@[m]) < self.arm_memory@.len()
        }
        &&& self.phase == Phase::Scores ==> {
            &&& self.prefix@.len() > 0
            &&& self.simulations_used == self.max_simulations
            &&& forall|m: int| 0 <= m < self.prefix@.len() ==> (#[trigger] self.prefix@[m]) < self.arm_memory@.len()
        }
        &&& self.phase == Phase::Finished ==> self.best_arm < self.arm_memory@.len() && self.simulations_used == self.max_simulations
    }

    /// In every state that the search passes through, each vector sits at one
    /// arm only: the arm that holds a vector is unique.
    pub proof fn lemma_memory_unique(&self, i: int, j: int)
        requires
            self.wf(),
            0 <= i < self.arms().len(),
            0 <= j < self.arms().len(),
            self.arms()[i].action() == self.arms()[j].action(),
        ensures
            i == j,
    {
    }

    /// In every state that the search passes through, the index is sorted by
    /// key, each entry refers to an arm of the memory and sits under that arm's
    /// current mean,
    /// and the index holds as many entries as there are arms, one per arm,
    /// every arm having been evaluated.
    pub proof fn lemma_index_consistent(&self)
        requires
            self.wf(),
        ensures
            index_matches(self.index(), self.arms()),
            sorted_by_key(self.index()),
            forall|p: int| 0 <= p < self.index().len() ==> self.arms()[(#[trigger] self.index()[p]).1 as int].mean() == self.index()[p].0,
            forall|i: int| 0 <= i < self.arms().len() ==> (#[trigger] self.arms()[i]).evaluations() >= 1,
    {
        self.sample_average_tree.lemma_sorted();
    }

    /// In every state that the search passes through, every stored vector
    /// lies within the bounds, component by component.
    pub proof fn lemma_bounds_safe(&self, i: int, j: int)
        requires
            self.wf(),
            0 <= i < self.arms().len(),
            0 <= j < self.lower().len(),
        ensures
            self.arms()[i].action().len() == self.lower().len(),
            self.lower()[j] <= self.arms()[i].action()[j] <= self.upper()[j],
    {
        assert(in_box(self.arms()[i].action(), self.lower(), self.upper()));
    }

    /// The number of evaluations never exceeds the budget, and the search is
    /// over only once it has reached it.
    pub proof fn lemma_budget(&self)
        requires
            self.wf(),
        ensures
            self.used() <= self.budget(),
            self.phase() == Phase::Finished ==> self.used() == self.budget(),
            self.phase() == Phase::Reward ==> self.used() < self.budget(),
    {
    }

    /// The arm that holds `action_vector`, if any: one of those listed under
    /// its hash in the lookup table.
    pub fn get_arm_index(&self, action_vector: &Vec<i32>) -> (r: Option<usize>)
        requires
            self.wf(),
        ensures
            match r {
                Some(i) => i < self.arms().len() && self.arms()[i as int].action() == action_vector@,
                None => forall|i: int| 0 <= i < self.arms().len() ==> (#[trigger] self.arms()[i]).action() != action_vector@,
            },
    {
        self.find_arm(action_vector)
    }

    fn find_arm(&self, action_vector: &Vec<i32>) -> (r: Option<usize>)
        requires
            table_matches(self.table(), self.arms()),
        ensures
            match r {
                Some(i) => i < self.arms().len() && self.arms()[i as int].action() == action_vector@,
                None => forall|i: int| 0 <= i < self.arms().len() ==> (#[trigger] self.arms()[i]).action() != action_vector@,
            },
    {
        let h = hash_vector(action_vector);
        let count = self.arm_memory.len();
        match self.lookup_table.get(&h) {
            None => {
                proof {
                    assert forall|i: int| 0 <= i < self.arms().len() implies (#[trigger] self.arms()[i]).action() != action_vector@ by {
                        assert(table_holds(self.table(), self.arms()[i].action(), i));
                    }
                }
                None
            },
            Some(bucket) => {
                let mut p: usize = 0;
                while p < bucket.len()
                    invariant
                        table_matches(self.table(), self.arms()),
                        count == self.arms().len(),
                        self.table().contains_key(h),
                        bucket@ == self.table()[h]@,
                        h == vector_hash(action_vector@),
                        p <= bucket@.len(),
                        forall|q: int| 0 <= q < p ==> self.arms()[(#[trigger] bucket@[q]) as int].action() != action_vector@,
                    decreases bucket@.len() - p,
                {
                    let i = bucket[p];
                    proof {
                        assert(bucket@[p as int] < self.arms().len());
                    }
                    if same_vector(self.arm_memory[i].action_vector_ref(), action_vector) {
                        return Some(i);
                    }
                    p = p + 1;
                }
                proof {
                    assert forall|i: int| 0 <= i < self.arms().len() implies (#[trigger] self.arms()[i]).action() != action_vector@ by {
                        if self.arms()[i].action() == action_vector@ {
                            assert(table_holds(self.table(), self.arms()[i].action(), i));
                            assert(self.table()[h]@.contains(i as usize));
                            assert(bucket@.contains(i as usize));
                            let q = choose|q: int| 0 <= q < bucket@.len() && bucket@[q] == i as usize;
                            assert(p == bucket@.len());
                            assert(self.arms()[(bucket@[q]) as int].action() != action_vector@);
                            assert(bucket@[q] as int == i);
                        }
                    }
                }
                None
            },
        }
    }

    /// Evaluates `action_vector` once more: the arm that holds it, or a new
    /// arm appended for it, records the cumulative reward and mean it has
    /// after the evaluation, the index moves the arm under its new mean, and
    /// one more simulation is counted.
    fn sample_and_update(&mut self, action_vector: &Vec<i32>, reward_bits: u64, mean_key: u64)
        requires
            old(self).genetic_algorithm.wf(),
            old(self).sample_average_tree.wf(),
            old(self).memory_wf(),
            table_matches(old(self).table(), old(self).arms()),
            old(self).used() < old(self).budget(),
            in_box(action_vector@, old(self).lower(), old(self).upper()),
        ensures
            final(self).genetic_algorithm == old(self).genetic_algorithm,
            final(self).sample_average_tree.wf(),
            final(self).memory_wf(),
            table_matches(final(self).table(), final(self).arms()),
            final(self).used() == old(self).used() + 1,
            final(self).budget() == old(self).budget(),
            final(self).queue == old(self).queue,
            final(self).cursor == old(self).cursor,
            final(self).seeding == old(self).seeding,
            final(self).phase == old(self).phase,
            final(self).current_indexes == old(self).current_indexes,
            final(self).parents == old(self).parents,
            final(self).sites == old(self).sites,
            final(self).prefix == old(self).prefix,
            final(self).best_arm == old(self).best_arm,
            match old(self).get_arm_index_spec(action_vector@) {
                Some(i) => {
                    &&& final(self).arms().len() == old(self).arms().len()
                    &&& final(self).arms()[i].action() == action_vector@
                    &&& final(self).arms()[i].evaluations() == old(self).arms()[i].evaluations() + 1
                    &&& final(self).arms()[i].reward() == reward_bits
                    &&& final(self).arms()[i].mean() == mean_key
                    &&& forall|j: int| 0 <= j < old(self).arms().len() && j != i ==> final(self).arms()[j] == old(self).arms()[j]
                    &&& final(self).index() == index_moved(old(self).index(), i as usize, old(self).arms()[i].mean(), mean_key)
                    &&& final(self).table() == old(self).table()
                },
                None => {
                    &&& final(self).arms().len() == old(self).arms().len() + 1
                    &&& final(self).arms().drop_last() == old(self).arms()
                    &&& final(self).arms().last().action() == action_vector@
                    &&& final(self).arms().last().evaluations() == 1
                    &&& final(self).arms().last().reward() == reward_bits
                    &&& final(self).arms().last().mean() == mean_key
                    &&& final(self).index() == index_added(old(self).index(), old(self).arms().len() as usize, mean_key)
                },
            },
    {
        let ghost arms0 = self.arm_memory@;
        let ghost index0 = self.sample_average_tree@;
        match self.find_arm(action_vector) {
            Some(i) => {
                let ghost p = choose|p: int| 0 <= p < index0.len() && (#[trigger] index0[p]).1 == i as int;
                proof {
                    assert(holds_arm(index0, i as int));
                    assert(index0[p] == (arms0[i as int].mean(), i));
                }
                let old_key = self.arm_memory[i].get_mean_key();
                let found = self.sample_average_tree.delete(&old_key, &i);
                let ghost index1 = self.sample_average_tree@;
                let mut arm = self.arm_memory[i].clone();
                arm.record(reward_bits, mean_key);
                self.arm_memory.set(i, arm);
                self.simulations_used = self.simulations_used + 1;
                self.sample_average_tree.insert(mean_key, i);
                proof {
                    let q = choose|q: int| removed_first_at(index0, (old_key, i), q, index1);
                    assert(index0[q].1 == i);
                    if q != p {
                        assert(index0[q].1 != index0[p].1);
                    }
                    lemma_index_update(index0, index1, self.sample_average_tree@, arms0, self.arm_memory@, i as int, p, mean_key);
                    assert forall|a: int, b: int| 0 <= a < self.arm_memory@.len() && 0 <= b < self.arm_memory@.len() && a != b implies
                        (#[trigger] self.arm_memory@[a]).action() != (#[trigger] self.arm_memory@[b]).action() by {
                        assert(arms0[a].action() != arms0[b].action());
                    }
                    assert forall|a: int| 0 <= a < self.arm_memory@.len() implies 1 <= (#[trigger] self.arm_memory@[a]).evaluations() <= self.used() by {
                        assert(1 <= arms0[a].evaluations() <= self.used() - 1);
                    }
                    assert(arms_in_box(self.arms(), self.lower(), self.upper()));
                    assert forall|a: int| 0 <= a < self.arm_memory@.len() implies #[trigger] table_holds(self.table(), self.arms()[a].action(), a) by {
                        assert(self.arms()[a].action() == arms0[a].action());
                        assert(table_holds(self.table(), arms0[a].action(), a));
                    }
                }
            },
            None => {
                let mut arm = Arm::new(action_vector.as_slice());
                arm.record(reward_bits, mean_key);
                let n = self.arm_memory.len();
                proof {
                    assert(n <= self.used());
                }
                let h = hash_vector(action_vector);
                let ghost table0 = self.lookup_table@;
                let mut bucket: Vec<usize> = match self.lookup_table.get(&h) {
                    Some(b) => copy_indexes(b),
                    None => Vec::new(),
                };
                bucket.push(n);
                let ghost bucket_view = bucket@;
                proof {
                    if !table0.contains_key(h) {
                        assert(bucket_view =~= seq![n]);
                    }
                }
                self.lookup_table.insert(h, bucket);
                proof {
                    lemma_table_append(table0, self.lookup_table@, arms0, arm, bucket_view);
                }
                self.sample_average_tree.insert(mean_key, n);
                let ghost index2 = self.sample_average_tree@;
                proof {
                    lemma_index_append(index0, index2, arms0, arm, mean_key);
                }
                self.arm_memory.push(arm);
                self.simulations_used = self.simulations_used + 1;
                proof {
                    assert(self.arm_memory@.drop_last() =~= arms0);
                    assert forall|a: int, b: int| 0 <= a < self.arm_memory@.len() && 0 <= b < self.arm_memory@.len() && a != b implies
                        (#[trigger] self.arm_memory@[a]).action() != (#[trigger] self.arm_memory@[b]).action() by {
                        if a < n && b < n {
                            assert(arms0[a].action() != arms0[b].action());
                        } else if a == n {
                            assert(arms0[b].action() != action_vector@);
                        } else {
                            assert(arms0[a].action() != action_vector@);
                        }
                    }
                    assert forall|a: int| 0 <= a < self.arm_memory@.len() implies 1 <= (#[trigger] self.arm_memory@[a]).evaluations() <= self.used() by {
                        if a < n {
                            assert(1 <= arms0[a].evaluations() <= self.used() - 1);
                        }
                    }
                    assert forall|a: int| 0 <= a < self.arm_memory@.len() implies in_box((#[trigger] self.arm_memory@[a]).action(), self.lower(), self.upper()) by {
                        if a < n {
                            assert(in_box(arms0[a].action(), self.lower(), self.upper()));
                        }
                    }
                }
            },
        }
    }

    /// The largest number of evaluations among the arms.
    pub fn max_number_pulls(&self) -> (r: u64)
        ensures
            r == max_evaluations(self.arms()),
    {
        let mut most: u64 = 0;
        let mut i: usize = 0;
        while i < self.arm_memory.len()
            invariant
                i <= self.arm_memory@.len(),
                most == max_evaluations(self.arm_memory@.take(i as int)),
            decreases self.arm_memory@.len() - i,
        {
            proof {
                assert(self.arm_memory@.take(i + 1).drop_last() =~= self.arm_memory@.take(i as int));
            }
            let n = self.arm_memory[i].get_n_evaluations();
            if n > most {
                most = n;
            }
            i = i + 1;
        }
        proof {
            assert(self.arm_memory@.take(i as int) =~= self.arm_memory@);
        }
        most
    }

    /// The non-dominated prefix of the index: from the smallest mean up, the
    /// arms up to and including the first one with the most evaluations.
    pub fn ucb_prefix(&self) -> (r: Vec<usize>)
        requires
            self.wf(),
        ensures
            is_ucb_prefix(self.index(), self.arms(), max_evaluations(self.arms()), r@),
            r@.len() <= self.arms().len(),
            forall|m: int| 0 <= m < r@.len() ==> #[trigger] r@[m] < self.arms().len(),
    {
        let most = self.max_number_pulls();
        let mut r: Vec<usize> = Vec::new();
        let mut p: usize = 0;
        let len = self.sample_average_tree.len();
        while p < len
            invariant
                self.wf(),
                most == max_evaluations(self.arms()),
                len == self.index().len(),
                p <= len,
                r@.len() == p,
                forall|m: int| 0 <= m < p ==> #[trigger] r@[m] == self.index()[m].1,
                forall|m: int| 0 <= m < p ==> self.arms()[(#[trigger] self.index()[m]).1 as int].evaluations() != most,
            decreases len - p,
        {
            let (_key, arm_index) = self.sample_average_tree.entry(p);
            proof {
                assert(self.index()[p as int].1 < self.arms().len());
            }
            r.push(arm_index);
            if self.arm_memory[arm_index].get_n_evaluations() == most {
                return r;
            }
            p = p + 1;
        }
        r
    }

    /// A search over the box of `lower_bound` and `upper_bound` with the given
    /// population size, rates (thresholds over `UNIT`) and evaluation budget,
    /// seeded by `seed` or, when there is none, from the system's entropy. The
    /// initial population is drawn at once and queued for evaluation.
    pub fn new(
        population_size: usize,
        mutation_threshold: u64,
        crossover_threshold: u64,
        max_simulations: u64,
        dimension: usize,
        lower_bound: Vec<i32>,
        upper_bound: Vec<i32>,
        seed: Option<u64>,
    ) -> (r: Result<Gmab, GmabError>)
        ensures
            (r == Err::<Gmab, GmabError>(GmabError::InvalidBounds)) == !bounds_valid(
                population_size as nat,
                crossover_threshold,
                dimension as nat,
                lower_bound@,
                upper_bound@,
            ),
            (r == Err::<Gmab, GmabError>(GmabError::InvalidHyperparameters)) == (bounds_valid(
                population_size as nat,
                crossover_threshold,
                dimension as nat,
                lower_bound@,
                upper_bound@,
            ) && !hyperparameters_valid(population_size as nat, mutation_threshold, crossover_threshold, max_simulations as nat)),
            (r == Err::<Gmab, GmabError>(GmabError::BudgetExhaustedNoEvaluations)) == (bounds_valid(
                population_size as nat,
                crossover_threshold,
                dimension as nat,
                lower_bound@,
                upper_bound@,
            ) && hyperparameters_valid(population_size as nat, mutation_threshold, crossover_threshold, max_simulations as nat)
                && max_simulations < population_size),
            r is Ok == setup_valid(
                population_size as nat,
                mutation_threshold,
                crossover_threshold,
                max_simulations as nat,
                dimension as nat,
                lower_bound@,
                upper_bound@,
            ),
            r matches Ok(g) ==> g.fresh_search(population_size as nat, max_simulations as nat, lower_bound@, upper_bound@),
    {
        if dimension == 0 || lower_bound.len() != dimension || upper_bound.len() != dimension {
            return Err(GmabError::InvalidBounds);
        }
        let mut j: usize = 0;
        while j < dimension
            invariant
                lower_bound@.len() == dimension,
                upper_bound@.len() == dimension,
                j <= dimension,
                forall|m: int| 0 <= m < j ==> #[trigger] lower_bound@[m] <= #[trigger] upper_bound@[m],
            decreases dimension - j,
        {
            if lower_bound[j] > upper_bound[j] {
                return Err(GmabError::InvalidBounds);
            }
            j = j + 1;
        }
        if dimension == 1 && crossover_threshold > 0 {
            return Err(GmabError::InvalidBounds);
        }
        if !box_holds_at_least(&lower_bound, &upper_bound, population_size) {
            return Err(GmabError::InvalidBounds);
        }
        if mutation_threshold > UNIT || crossover_threshold > UNIT || population_size < 2 || population_size % 2 != 0
            || max_simulations == 0 {
            return Err(GmabError::InvalidHyperparameters);
        }
        if max_simulations < population_size as u64 {
            return Err(GmabError::BudgetExhaustedNoEvaluations);
        }
        let mut genetic_algorithm = GeneticAlgorithm::new(
            population_size,
            mutation_threshold,
            crossover_threshold,
            lower_bound,
            upper_bound,
            seed,
        );
        let population = genetic_algorithm.generate_new_population();
        let g = Gmab {
            sample_average_tree: SortedMultiMap::new(),
            arm_memory: Vec::new(),
            lookup_table: BTreeMap::new(),
            genetic_algorithm,
            current_indexes: Vec::new(),
            survivor_indexes: Vec::new(),
            simulations_used: 0,
            max_simulations,
            queue: population,
            cursor: 0,
            seeding: true,
            survivors: Vec::new(),
            parents: Vec::new(),
            sites: Vec::new(),
            prefix: Vec::new(),
            best_arm: 0,
            phase: Phase::Ready,
        };
        proof {
            assert(index_matches(g.index(), g.arms()));
        }
        Ok(g)
    }

    /// A search over the box given as one `(lower, upper)` pair per
    /// dimension; otherwise as `new`.
    pub fn with_bounds(
        bounds: &Vec<(i32, i32)>,
        population_size: usize,
        mutation_threshold: u64,
        crossover_threshold: u64,
        max_simulations: u64,
        seed: Option<u64>,
    ) -> (r: Result<Gmab, GmabError>)
        ensures
            (r == Err::<Gmab, GmabError>(GmabError::InvalidBounds)) == !bounds_valid(
                population_size as nat,
                crossover_threshold,
                bounds@.len(),
                bounds@.map_values(|b: (i32, i32)| b.0),
                bounds@.map_values(|b: (i32, i32)| b.1),
            ),
            (r == Err::<Gmab, GmabError>(GmabError::InvalidHyperparameters)) == (bounds_valid(
                population_size as nat,
                crossover_threshold,
                bounds@.len(),
                bounds@.map_values(|b: (i32, i32)| b.0),
                bounds@.map_values(|b: (i32, i32)| b.1),
            ) && !hyperparameters_valid(population_size as nat, mutation_threshold, crossover_threshold, max_simulations as nat)),
            (r == Err::<Gmab, GmabError>(GmabError::BudgetExhaustedNoEvaluations)) == (bounds_valid(
                population_size as nat,
                crossover_threshold,
                bounds@.len(),
                bounds@.map_values(|b: (i32, i32)| b.0),
                bounds@.map_values(|b: (i32, i32)| b.1),
            ) && hyperparameters_valid(population_size as nat, mutation_threshold, crossover_threshold, max_simulations as nat)
                && max_simulations < population_size),
            r is Ok == setup_valid(
                population_size as nat,
                mutation_threshold,
                crossover_threshold,
                max_simulations as nat,
                bounds@.len(),
                bounds@.map_values(|b: (i32, i32)| b.0),
                bounds@.map_values(|b: (i32, i32)| b.1),
            ),
            r matches Ok(g) ==> g.fresh_search(
                population_size as nat,
                max_simulations as nat,
                bounds@.map_values(|b: (i32, i32)| b.0),
                bounds@.map_values(|b: (i32, i32)| b.1),
            ),
    {
        let mut lower_bound: Vec<i32> = Vec::new();
        let mut upper_bound: Vec<i32> = Vec::new();
        let mut j: usize = 0;
        while j < bounds.len()
            invariant
                j <= bounds@.len(),
                lower_bound@ == bounds@.map_values(|b: (i32, i32)| b.0).take(j as int),
                upper_bound@ == bounds@.map_values(|b: (i32, i32)| b.1).take(j as int),
            decreases bounds@.len() - j,
        {
            let (lo, hi) = bounds[j];
            lower_bound.push(lo);
            upper_bound.push(hi);
            proof {
                assert(lower_bound@ =~= bounds@.map_values(|b: (i32, i32)| b.0).take(j + 1));
                assert(upper_bound@ =~= bounds@.map_values(|b: (i32, i32)| b.1).take(j + 1));
            }
            j = j + 1;
        }
        proof {
            assert(lower_bound@ =~= bounds@.map_values(|b: (i32, i32)| b.0));
            assert(upper_bound@ =~= bounds@.map_values(|b: (i32, i32)| b.1));
        }
        Gmab::new(
            population_size,
            mutation_threshold,
            crossover_threshold,
            max_simulations,
            bounds.len(),
            lower_bound,
            upper_bound,
            seed,
        )
    }

    /// The next thing for the caller to do. Once the budget is spent: the
    /// vector chosen, or the arms of the non-dominated prefix to score when its
    /// means differ. Before that: the next queued vector to evaluate, or, when
    /// the queue is done, a new generation whose offspring are to be moved.
    pub fn next_step(&mut self) -> (r: Step)
        requires
            old(self).wf(),
            old(self).phase() == Phase::Ready || old(self).phase() == Phase::Finished,
        ensures
            final(self).wf(),
            old(self).same_config(&*final(self)),
            final(self).arms() == old(self).arms(),
            final(self).index() == old(self).index(),
            final(self).used() == old(self).used(),
            final(self).budget() == old(self).budget(),
            match r {
                Step::Evaluate { action_vector, reward_bits, n_evaluations } => {
                    &&& old(self).phase() == Phase::Ready
                    &&& old(self).used() < old(self).budget()
                    &&& final(self).phase() == Phase::Reward
                    &&& old(self).next_in_queue() < old(self).queued().len()
                    &&& action_vector@ == old(self).queued()[old(self).next_in_queue() as int]
                    &&& final(self).queued() == old(self).queued()
                    &&& final(self).next_in_queue() == old(self).next_in_queue()
                    &&& match old(self).get_arm_index_spec(action_vector@) {
                        Some(i) => reward_bits == old(self).arms()[i].reward() && n_evaluations == old(self).arms()[i].evaluations(),
                        None => reward_bits == 0 && n_evaluations == 0,
                    }
                },
                Step::Mutate { noise_seed } => {
                    &&& old(self).phase() == Phase::Ready
                    &&& old(self).used() < old(self).budget()
                    &&& old(self).next_in_queue() == old(self).queued().len()
                    &&& final(self).phase() == Phase::Mutation
                    &&& generation_started(old(self).index(), old(self).arms(), old(self).population_size(), old(self).lower().len(), *final(self))
                },
                Step::Score { arms } => {
                    &&& old(self).phase() == Phase::Ready
                    &&& old(self).used() == old(self).budget()
                    &&& final(self).phase() == Phase::Scores
                    &&& is_ucb_prefix(old(self).index(), old(self).arms(), max_evaluations(old(self).arms()), arms@)
                    &&& !means_level(old(self).arms(), arms@)
                    &&& final(self).scored_arms() == arms@
                },
                Step::Done { action_vector } => {
                    &&& old(self).used() == old(self).budget()
                    &&& final(self).phase() == Phase::Finished
                    &&& final(self).best() < final(self).arms().len()
                    &&& action_vector@ == final(self).arms()[final(self).best() as int].action()
                    &&& old(self).phase() == Phase::Finished ==> final(self).best() == old(self).best()
                    &&& old(self).phase() == Phase::Ready ==> exists|prefix: Seq<usize>|
                        is_ucb_prefix(old(self).index(), old(self).arms(), max_evaluations(old(self).arms()), prefix)
                            && means_level(old(self).arms(), prefix) && final(self).best() == prefix.last()
                },
            },
    {
        if self.phase == Phase::Finished {
            let v = copy_vector(self.arm_memory[self.best_arm].action_vector_ref());
            return Step::Done { action_vector: v };
        }
        if self.simulations_used >= self.max_simulations {
            return self.begin_selection();
        }
        if self.cursor < self.queue.len() {
            let v = copy_vector(&self.queue[self.cursor]);
            self.phase = Phase::Reward;
            return match self.get_arm_index(&v) {
                Some(i) => Step::Evaluate {
                    action_vector: v,
                    reward_bits: self.arm_memory[i].get_reward_bits(),
                    n_evaluations: self.arm_memory[i].get_n_evaluations(),
                },
                None => Step::Evaluate { action_vector: v, reward_bits: 0, n_evaluations: 0 },
            };
        }
        self.begin_generation()
    }

    /// Takes the non-dominated prefix; chooses its last arm when its means
    /// are all equal, else hands its arms out to be scored.
    fn begin_selection(&mut self) -> (r: Step)
        requires
            old(self).wf(),
            old(self).phase() == Phase::Ready,
            old(self).used() >= old(self).budget(),
        ensures
            final(self).wf(),
            old(self).same_config(&*final(self)),
            final(self).arms() == old(self).arms(),
            final(self).index() == old(self).index(),
            final(self).used() == old(self).used(),
            final(self).budget() == old(self).budget(),
            match r {
                Step::Score { arms } => {
                    &&& final(self).phase() == Phase::Scores
                    &&& is_ucb_prefix(old(self).index(), old(self).arms(), max_evaluations(old(self).arms()), arms@)
                    &&& !means_level(old(self).arms(), arms@)
                    &&& final(self).scored_arms() == arms@
                },
                Step::Done { action_vector } => {
                    &&& final(self).phase() == Phase::Finished
                    &&& final(self).best() < final(self).arms().len()
                    &&& action_vector@ == final(self).arms()[final(self).best() as int].action()
                    &&& exists|prefix: Seq<usize>|
                        is_ucb_prefix(old(self).index(), old(self).arms(), max_evaluations(old(self).arms()), prefix)
                            && means_level(old(self).arms(), prefix) && final(self).best() == prefix.last()
                },
                _ => false,
            },
    {
        let prefix = self.ucb_prefix();
        proof {
            assert(self.index().len() == self.arms().len());
            assert(self.arms().len() > 0);
        }
        let mean_min = self.arm_memory[prefix[0]].get_mean_key();
        let mut mean_max = mean_min;
        let mut k: usize = 1;
        proof {
            assert(self.arms()[prefix@[0] as int].mean() == mean_max);
        }
        while k < prefix.len()
            invariant
                self.wf(),
                self.arms() == old(self).arms(),
                self.index() == old(self).index(),
                is_ucb_prefix(old(self).index(), old(self).arms(), max_evaluations(old(self).arms()), prefix@),
                1 <= k <= prefix@.len(),
                forall|m: int| 0 <= m < prefix@.len() ==> #[trigger] prefix@[m] < self.arms().len(),
                mean_min == self.arms()[prefix@[0] as int].mean(),
                mean_max >= mean_min,
                forall|m: int| 0 <= m < k ==> self.arms()[(#[trigger] prefix@[m]) as int].mean() <= mean_max,
                exists|m: int| 0 <= m < k && self.arms()[(#[trigger] prefix@[m]) as int].mean() == mean_max,
            decreases prefix@.len() - k,
        {
            let m = self.arm_memory[prefix[k]].get_mean_key();
            if m > mean_max {
                mean_max = m;
            }
            k = k + 1;
        }
        if mean_max == mean_min {
            let best = prefix[prefix.len() - 1];
            self.best_arm = best;
            self.phase = Phase::Finished;
            proof {
                assert(is_ucb_prefix(old(self).index(), old(self).arms(), max_evaluations(old(self).arms()), prefix@)
                    && means_level(old(self).arms(), prefix@) && self.best() == prefix@.last());
            }
            let v = copy_vector(self.arm_memory[best].action_vector_ref());
            Step::Done { action_vector: v }
        } else {
            proof {
                let m = choose|m: int| 0 <= m < prefix@.len() && self.arms()[(#[trigger] prefix@[m]) as int].mean() == mean_max;
                assert(self.arms()[prefix@[m] as int].mean() > self.arms()[prefix@[0] as int].mean());
            }
            let arms = copy_indexes(&prefix);
            self.prefix = prefix;
            self.phase = Phase::Scores;
            Step::Score { arms }
        }
    }

    /// Starts a generation: the first `population_size` arms of the index,
    /// shuffled, recombined by crossover, and marked for mutation.
    fn begin_generation(&mut self) -> (r: Step)
        requires
            old(self).wf(),
            old(self).phase() == Phase::Ready,
            old(self).used() < old(self).budget(),
            old(self).next_in_queue() == old(self).queued().len(),
        ensures
            final(self).wf(),
            old(self).same_config(&*final(self)),
            final(self).arms() == old(self).arms(),
            final(self).index() == old(self).index(),
            final(self).used() == old(self).used(),
            final(self).budget() == old(self).budget(),
            final(self).phase() == Phase::Mutation,
            r is Mutate,
            generation_started(old(self).index(), old(self).arms(), old(self).population_size(), old(self).lower().len(), *final(self)),
    {
        self.seeding = false;
        let population_size = self.genetic_algorithm.get_population_size();
        let mut survivors: Vec<usize> = Vec::new();
        let mut k: usize = 0;
        while k < population_size
            invariant
                self.wf(),
                !self.seeding,
                population_size == self.population_size(),
                k <= population_size,
                survivors@.len() == k,
                forall|m: int| 0 <= m < k ==> #[trigger] survivors@[m] < self.arms().len(),
                forall|m: int| 0 <= m < k ==> #[trigger] survivors@[m] == self.index()[m].1,
            decreases population_size - k,
        {
            let (_key, arm_index) = self.sample_average_tree.entry(k);
            survivors.push(arm_index);
            k = k + 1;
        }
        self.current_indexes = copy_indexes(&survivors);
        let ghost before = survivors@;
        self.genetic_algorithm.shuffle_population(&mut survivors);
        proof {
            before.to_multiset_ensures();
            survivors@.to_multiset_ensures();
            assert forall|m: int| 0 <= m < survivors@.len() implies #[trigger] survivors@[m] < self.arms().len() by {
                assert(survivors@.contains(survivors@[m]));
                assert(survivors@.to_multiset().count(survivors@[m]) > 0);
                assert(before.to_multiset().count(survivors@[m]) > 0);
                assert(before.contains(survivors@[m]));
            }
        }
        let mut population: Vec<Vec<i32>> = Vec::new();
        let mut k: usize = 0;
        while k < survivors.len()
            invariant
                self.wf(),
                k <= survivors@.len(),
                population@.len() == k,
                forall|m: int| 0 <= m < survivors@.len() ==> #[trigger] survivors@[m] < self.arms().len(),
                forall|m: int| 0 <= m < k ==> in_box((#[trigger] population@[m])@, self.lower(), self.upper()),
                forall|m: int| 0 <= m < k ==> (#[trigger] population@[m])@ == self.arms()[survivors@[m] as int].action(),
                self.arms() == old(self).arms(),
                survivors@.len() == self.population_size(),
            decreases survivors@.len() - k,
        {
            let v = copy_vector(self.arm_memory[survivors[k]].action_vector_ref());
            proof {
                assert(in_box(self.arms()[survivors@[k as int] as int].action(), self.lower(), self.upper()));
            }
            population.push(v);
            k = k + 1;
        }
        let parents = self.genetic_algorithm.crossover(&population);
        let (sites, noise_seed) = self.genetic_algorithm.mutation_sites(&parents);
        proof {
            assert(vectors_of(population@) =~= survivors@.map_values(|s: usize| self.arms()[s as int].action()));
            assert(self.current_indexes@ =~= old(self).index().take(self.population_size() as int).map_values(|e: (u64, usize)| e.1));
        }
        self.survivor_indexes = survivors;
        self.survivors = population;
        self.parents = parents;
        self.sites = sites;
        self.phase = Phase::Mutation;
        Step::Mutate { noise_seed }
    }

    /// Records the evaluation of the vector last handed out: its arm, or a new
    /// arm appended for it, takes the cumulative reward and the mean it has
    /// after the evaluation, and one more simulation is counted.
    pub fn record_reward(&mut self, reward_bits: u64, mean_key: u64)
        requires
            old(self).wf(),
            old(self).phase() == Phase::Reward,
        ensures
            final(self).wf(),
            old(self).same_config(&*final(self)),
            final(self).phase() == Phase::Ready,
            final(self).used() == old(self).used() + 1,
            final(self).budget() == old(self).budget(),
            final(self).queued() == old(self).queued(),
            final(self).next_in_queue() == old(self).next_in_queue() + 1,
            match old(self).get_arm_index_spec(old(self).queued()[old(self).next_in_queue() as int]) {
                Some(i) => {
                    &&& final(self).arms().len() == old(self).arms().len()
                    &&& final(self).arms()[i].action() == old(self).arms()[i].action()
                    &&& final(self).arms()[i].evaluations() == old(self).arms()[i].evaluations() + 1
                    &&& final(self).arms()[i].reward() == reward_bits
                    &&& final(self).arms()[i].mean() == mean_key
                    &&& forall|j: int| 0 <= j < old(self).arms().len() && j != i ==> final(self).arms()[j] == old(self).arms()[j]
                    &&& final(self).index() == index_moved(old(self).index(), i as usize, old(self).arms()[i].mean(), mean_key)
                },
                None => {
                    &&& final(self).index() == index_added(old(self).index(), old(self).arms().len() as usize, mean_key)
                    &&& final(self).arms().drop_last() == old(self).arms()
                    &&& final(self).arms().last().action() == old(self).queued()[old(self).next_in_queue() as int]
                    &&& final(self).arms().last().evaluations() == 1
                    &&& final(self).arms().last().reward() == reward_bits
                    &&& final(self).arms().last().mean() == mean_key
                },
            },
    {
        let v = copy_vector(&self.queue[self.cursor]);
        let ghost queue_len = self.queue@.len();
        proof {
            assert(self.cursor < queue_len);
            assert(v@ == self.queued()[self.cursor as int]);
            if self.seeding {
                assert forall|i: int| 0 <= i < self.arms().len() implies (#[trigger] self.arms()[i]).action() != v@ by {
                    assert(vectors_of(self.queue@)[i] == self.queue@[i]@);
                }
            }
        }
        self.sample_and_update(&v, reward_bits, mean_key);
        proof {
            assert(self.queue@.len() == queue_len);
            if self.seeding {
                assert forall|m: int| 0 <= m < self.cursor + 1 implies (#[trigger] self.arm_memory@[m]).action() == self.queue@[m]@ by {
                    if m < self.cursor {
                        assert(self.arm_memory@[m] == old(self).arm_memory@[m]);
                    }
                }
            }
        }
        let queue_len_now = self.queue.len();
        proof {
            assert(self.cursor < queue_len_now);
        }
        self.cursor = self.cursor + 1;
        self.phase = Phase::Ready;
    }

    /// Takes the moved components of the offspring, mutates them, and queues
    /// for evaluation the mutated vectors that no survivor holds, then the
    /// survivors in their shuffled order.
    pub fn record_mutation(&mut self, moved: &Vec<Vec<i32>>)
        requires
            old(self).wf(),
            old(self).phase() == Phase::Mutation,
            moved@.len() == old(self).population_size(),
            forall|i: int| 0 <= i < moved@.len() ==> (#[trigger] moved@[i])@.len() == old(self).lower().len(),
        ensures
            final(self).wf(),
            old(self).same_config(&*final(self)),
            final(self).phase() == Phase::Ready,
            final(self).arms() == old(self).arms(),
            final(self).index() == old(self).index(),
            final(self).used() == old(self).used(),
            final(self).budget() == old(self).budget(),
            final(self).next_in_queue() == 0,
            final(self).queued() == fresh_offspring(
                dedup(
                    mutation_candidates(
                        old(self).parents_of_mutation(),
                        old(self).sites_of_mutation(),
                        vectors_of(moved@),
                        old(self).lower(),
                        old(self).upper(),
                    ),
                ),
                old(self).arms(),
                old(self).current(),
            ) + old(self).survivor_vectors(),
    {
        proof {
            self.genetic_algorithm.lemma_wf();
        }
        let mutated = self.genetic_algorithm.mutate(&self.parents, &self.sites, moved);
        let ghost m = vectors_of(mutated@);
        let ghost arms = self.arms();
        let ghost current = self.current();
        let mut queue: Vec<Vec<i32>> = Vec::new();
        let mut k: usize = 0;
        while k < mutated.len()
            invariant
                self.wf(),
                self.phase == Phase::Mutation,
                arms == self.arms(),
                current == self.current(),
                m == vectors_of(mutated@),
                forall|q: int| 0 <= q < mutated@.len() ==> in_box((#[trigger] mutated@[q])@, self.lower(), self.upper()),
                k <= mutated@.len(),
                vectors_of(queue@) == fresh_offspring(m.take(k as int), arms, current),
                forall|q: int| 0 <= q < queue@.len() ==> in_box((#[trigger] queue@[q])@, self.lower(), self.upper()),
            decreases mutated@.len() - k,
        {
            let held = match self.get_arm_index(&mutated[k]) {
                Some(i) => lists_index(&self.current_indexes, i),
                None => false,
            };
            proof {
                assert(m.take(k + 1).drop_last() =~= m.take(k as int));
                assert(m.take(k + 1).last() == mutated@[k as int]@);
                let v = mutated@[k as int]@;
                if held {
                    let i = choose|i: int| 0 <= i < arms.len() && arms[i].action() == v && current.contains(i as usize);
                    let c = choose|c: int| 0 <= c < current.len() && current[c] == i as usize;
                    assert(held_by_current(v, arms, current));
                } else if held_by_current(v, arms, current) {
                    let c = choose|c: int| 0 <= c < current.len() && (#[trigger] current[c]) < arms.len() && arms[current[c] as int].action() == v;
                    assert(arms[current[c] as int].action() == v);
                }
            }
            if !held {
                let v = copy_vector(&mutated[k]);
                proof {
                    assert(vectors_of(queue@.push(v)) =~= vectors_of(queue@).push(v@));
                }
                queue.push(v);
            }
            k = k + 1;
        }
        proof {
            assert(m.take(mutated@.len() as int) =~= m);
        }
        let ghost fresh = vectors_of(queue@);
        let mut k: usize = 0;
        while k < self.survivors.len()
            invariant
                self.wf(),
                self.phase == Phase::Mutation,
                k <= self.survivors@.len(),
                vectors_of(queue@) == fresh + self.survivor_vectors().take(k as int),
                forall|q: int| 0 <= q < queue@.len() ==> in_box((#[trigger] queue@[q])@, self.lower(), self.upper()),
            decreases self.survivors@.len() - k,
        {
            let v = copy_vector(&self.survivors[k]);
            proof {
                assert(vectors_of(queue@.push(v)) =~= vectors_of(queue@).push(v@));
                assert(self.survivor_vectors().take(k + 1) =~= self.survivor_vectors().take(k as int).push(v@));
            }
            queue.push(v);
            k = k + 1;
        }
        proof {
            assert(self.survivor_vectors().take(self.survivors@.len() as int) =~= self.survivor_vectors());
        }
        self.queue = queue;
        self.cursor = 0;
        self.phase = Phase::Ready;
    }

    /// Takes the scores of the arms last handed out and chooses the arm with
    /// the smallest, the earliest of equal ones.
    pub fn record_scores(&mut self, scores: &Vec<u64>)
        requires
            old(self).wf(),
            old(self).phase() == Phase::Scores,
            scores@.len() == old(self).scored_arms().len(),
        ensures
            final(self).wf(),
            old(self).same_config(&*final(self)),
            final(self).phase() == Phase::Finished,
            final(self).arms() == old(self).arms(),
            final(self).index() == old(self).index(),
            final(self).used() == old(self).used(),
            final(self).budget() == old(self).budget(),
            exists|i: int| is_first_min(scores@, i) && final(self).best() == old(self).scored_arms()[i],
    {
        let best = find_best_ucb(&self.prefix, false, scores);
        self.best_arm = best;
        self.phase = Phase::Finished;
    }

    /// Arm `i` of the memory.
    pub fn get_arm(&self, i: usize) -> (r: &Arm)
        requires
            i < self.arms().len(),
        ensures
            *r == self.arms()[i as int],
    {
        &self.arm_memory[i]
    }

    /// The sorted mean index.
    pub fn get_sample_average_tree(&self) -> (r: &SortedMultiMap)
        requires
            self.wf(),
        ensures
            r@ == self.index(),
            r.wf(),
    {
        &self.sample_average_tree
    }

    /// The number of arms in the memory.
    pub fn arm_count(&self) -> (r: usize)
        ensures
            r == self.arms().len(),
    {
        self.arm_memory.len()
    }

    /// The evaluations made so far.
    pub fn get_simulations_used(&self) -> (r: u64)
        ensures
            r == self.used(),
    {
        self.simulations_used
    }

    /// The evaluation budget.
    pub fn get_max_simulations(&self) -> (r: u64)
        ensures
            r == self.budget(),
    {
        self.max_simulations
    }

    /// Whether the budget is spent.
    pub fn budget_reached(&self) -> (r: bool)
        ensures
            r == (self.used() >= self.budget()),
    {
        self.simulations_used >= self.max_simulations
    }

    /// The number of vectors in a population.
    pub fn get_population_size(&self) -> (r: usize)
        ensures
            r == self.population_size(),
    {
        self.genetic_algorithm.get_population_size()
    }

    /// What the search waits for.
    pub fn get_phase(&self) -> (r: Phase)
        ensures
            r == self.phase(),
    {
        self.phase
    }

    /// The lower bounds of the box.
    pub fn get_lower_bound(&self) -> (r: &Vec<i32>)
        ensures
            r@ == self.lower(),
    {
        self.genetic_algorithm.lower_bound_ref()
    }

    /// The upper bounds of the box.
    pub fn get_upper_bound(&self) -> (r: &Vec<i32>)
        ensures
            r@ == self.upper(),
    {
        self.genetic_algorithm.upper_bound_ref()
    }

    /// The offspring of crossover waiting to be moved.
    pub fn mutation_parents(&self) -> (r: &Vec<Vec<i32>>)
        ensures
            vectors_of(r@) == self.parents_of_mutation(),
    {
        &self.parents
    }

    /// Which components of those offspring move.
    pub fn mutation_sites(&self) -> (r: &Vec<Vec<bool>>)
        ensures
            r@.map_values(|s: Vec<bool>| s@) == self.sites_of_mutation(),
    {
        &self.sites
    }

    /// The vectors queued for evaluation in this generation.
    pub fn queued_vectors(&self) -> (r: &Vec<Vec<i32>>)
        ensures
            vectors_of(r@) == self.queued(),
    {
        &self.queue
    }

    /// The arm that holds `v`, if any.
    pub open spec fn get_arm_index_spec(&self, v: Seq<i32>) -> Option<int> {
        if exists|i: int| 0 <= i < self.arms().len() && (#[trigger] self.arms()[i]).action() == v {
            Some(choose|i: int| 0 <= i < self.arms().len() && (#[trigger] self.arms()[i]).action() == v)
        } else {
            None
        }
    }
}

} // verus!

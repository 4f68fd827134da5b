use gmab::genetic::UNIT;
use gmab::key::order_key;
use gmab::{find_best_ucb, Gmab, GmabError, Phase, Step};
use rand::rngs::StdRng;
use rand::SeedableRng;
use rand_distr::{Distribution, Normal};

fn threshold(rate: f64) -> u64 {
    (rate * UNIT as f64).ceil() as u64
}

fn mean_of(g: &Gmab, i: usize) -> f64 {
    let arm = g.get_arm(i);
    f64::from_bits(arm.get_reward_bits()) / arm.get_n_evaluations() as f64
}

fn answer_evaluation(g: &mut Gmab, f: &dyn Fn(&[i32]) -> f64, v: &[i32], reward_bits: u64, n: u64) {
    let reward = f64::from_bits(reward_bits) + f(v);
    let mean = reward / (n + 1) as f64;
    g.record_reward(reward.to_bits(), order_key(mean.to_bits()));
}

fn answer_mutation(g: &mut Gmab, span: f64, noise_seed: u64) {
    let mut rng = StdRng::seed_from_u64(noise_seed);
    let lower = g.get_lower_bound().clone();
    let upper = g.get_upper_bound().clone();
    let sites = g.mutation_sites().clone();
    let moved: Vec<Vec<i32>> = g
        .mutation_parents()
        .iter()
        .zip(sites.iter())
        .map(|(v, marks)| {
            v.iter()
                .enumerate()
                .map(|(j, &x)| {
                    if !marks[j] {
                        return x;
                    }
                    let sd = span * (upper[j] as i64 - lower[j] as i64) as f64;
                    let adj = Normal::new(0.0, sd).unwrap().sample(&mut rng);
                    (x as f64 + adj).max(lower[j] as f64).min(upper[j] as f64) as i32
                })
                .collect()
        })
        .collect();
    g.record_mutation(&moved);
}

fn scores(g: &Gmab, arms: &[usize]) -> Vec<u64> {
    let mean_min = mean_of(g, arms[0]);
    let mean_max = arms.iter().map(|&i| mean_of(g, i)).fold(mean_min, f64::max);
    let t = g.get_simulations_used() as f64;
    arms.iter()
        .map(|&i| {
            let n = g.get_arm(i).get_n_evaluations() as f64;
            let ucb = (mean_of(g, i) - mean_min) / (mean_max - mean_min) + (2.0 * t.ln() / n).sqrt();
            order_key(ucb.to_bits())
        })
        .collect()
}

/// Runs the search to its end, answering each step with `f` and Gaussian moves.
fn run(g: &mut Gmab, f: &dyn Fn(&[i32]) -> f64, span: f64) -> Vec<i32> {
    let mut last_used = g.get_simulations_used();
    loop {
        match g.next_step() {
            Step::Evaluate { action_vector, reward_bits, n_evaluations } => {
                answer_evaluation(g, f, &action_vector, reward_bits, n_evaluations);
                assert_eq!(g.get_simulations_used(), last_used + 1);
                last_used += 1;
            }
            Step::Mutate { noise_seed } => answer_mutation(g, span, noise_seed),
            Step::Score { arms } => {
                let s = scores(g, &arms);
                g.record_scores(&s);
            }
            Step::Done { action_vector } => return action_vector,
        }
    }
}

/// Answers evaluation steps until the initial population has been evaluated.
fn seed_memory(g: &mut Gmab, f: &dyn Fn(&[i32]) -> f64) {
    for _ in 0..g.get_population_size() {
        match g.next_step() {
            Step::Evaluate { action_vector, reward_bits, n_evaluations } => {
                answer_evaluation(g, f, &action_vector, reward_bits, n_evaluations)
            }
            _ => panic!("the initial population is evaluated first"),
        }
    }
}

fn mock_opti_function(_vec: &[i32]) -> f64 {
    0.0
}

fn standard(seed: Option<u64>, budget: u64) -> Gmab {
    Gmab::new(10, threshold(0.1), threshold(0.9), budget, 2, vec![0, 0], vec![10, 10], seed).unwrap()
}

fn vectors(g: &Gmab) -> Vec<Vec<i32>> {
    (0..g.arm_count()).map(|i| g.get_arm(i).get_action_vector().to_vec()).collect()
}

#[test]
fn test_gmab_new() {
    let mut gmab = standard(None, 100);
    assert_eq!(gmab.get_population_size(), 10);
    seed_memory(&mut gmab, &mock_opti_function);
    assert_eq!(gmab.arm_count(), 10);
    let memory = vectors(&gmab);
    for v in memory.iter() {
        assert_eq!(memory.iter().filter(|w| *w == v).count(), 1);
    }
    assert_eq!(gmab.get_sample_average_tree().iter().len(), 10);
}

#[test]
fn test_get_simulations_used() {
    let gmab = standard(None, 100);
    assert_eq!(gmab.get_simulations_used(), 0);
}

#[test]
fn test_update_simulations_used() {
    let mut gmab = standard(None, 100);
    for _ in 0..5 {
        match gmab.next_step() {
            Step::Evaluate { action_vector, reward_bits, n_evaluations } => {
                answer_evaluation(&mut gmab, &mock_opti_function, &action_vector, reward_bits, n_evaluations)
            }
            _ => panic!("the initial population is evaluated first"),
        }
    }
    assert_eq!(gmab.get_simulations_used(), 5);
}

#[test]
fn test_budget_reached() {
    let mut gmab = standard(Some(1), 100);
    assert_eq!(gmab.budget_reached(), false);
    run(&mut gmab, &mock_opti_function, 0.5);
    assert_eq!(gmab.budget_reached(), true);
}

#[test]
fn test_gmab_get_arm_index_with_existing() {
    let mut gmab = standard(None, 100);
    seed_memory(&mut gmab, &mock_opti_function);
    let v = gmab.get_arm(0).get_action_vector().to_vec();
    assert_eq!(gmab.get_arm_index(&v), Some(0));
    assert_eq!(gmab.get_arm_index(&vec![11, 11]), None);
}

#[test]
fn test_gmab_max_number_pulls() {
    let mut gmab = standard(None, 100);
    seed_memory(&mut gmab, &mock_opti_function);
    assert_eq!(gmab.max_number_pulls(), 1);
}

#[test]
fn test_gmab_find_best_ucb() {
    let mut gmab = standard(None, 100);
    seed_memory(&mut gmab, &mock_opti_function);
    let prefix = gmab.ucb_prefix();
    assert_eq!(prefix, vec![0]);
    assert_eq!(find_best_ucb(&prefix, true, &Vec::new()), 0);
}

#[test]
fn test_gmab_find_best_ucb_with_existing() {
    let mut gmab = standard(None, 100);
    seed_memory(&mut gmab, &mock_opti_function);
    // Two more evaluations of existing arms, all at zero: every mean stays equal.
    let mut evaluated = 0;
    while evaluated < 2 {
        match gmab.next_step() {
            Step::Evaluate { action_vector, reward_bits, n_evaluations } => {
                answer_evaluation(&mut gmab, &mock_opti_function, &action_vector, reward_bits, n_evaluations);
                evaluated += 1;
            }
            Step::Mutate { noise_seed } => answer_mutation(&mut gmab, 0.5, noise_seed),
            _ => panic!("the budget is not spent"),
        }
    }
    let prefix = gmab.ucb_prefix();
    assert_eq!(find_best_ucb(&prefix, true, &Vec::new()), *prefix.last().unwrap());
    assert_eq!(prefix[0], 0);
}

#[test]
fn test_gmab_sample_and_update_with_existing() {
    let mut gmab = standard(Some(9), 100);
    seed_memory(&mut gmab, &mock_opti_function);
    loop {
        match gmab.next_step() {
            Step::Evaluate { action_vector, reward_bits, n_evaluations } => {
                let existing = gmab.get_arm_index(&action_vector);
                answer_evaluation(&mut gmab, &mock_opti_function, &action_vector, reward_bits, n_evaluations);
                if let Some(i) = existing {
                    assert_eq!(gmab.get_arm(i).get_n_evaluations(), 2);
                    assert_eq!(mean_of(&gmab, i), 0.0);
                    assert_eq!(gmab.get_arm_index(&action_vector), Some(i));
                    return;
                }
            }
            Step::Mutate { noise_seed } => answer_mutation(&mut gmab, 0.5, noise_seed),
            _ => panic!("the budget is not spent"),
        }
    }
}

#[test]
fn constant_objective_spends_the_budget_within_bounds() {
    let mut gmab = standard(Some(42), 100);
    let best = run(&mut gmab, &|_v: &[i32]| 0.0, 0.5);
    assert_eq!(best.len(), 2);
    assert!(best.iter().all(|&x| (0..=10).contains(&x)));
    assert_eq!(gmab.get_simulations_used(), 100);
    assert_eq!(gmab.get_phase(), Phase::Finished);
    assert!(gmab.arm_count() <= 100);
    let total: u64 = (0..gmab.arm_count()).map(|i| gmab.get_arm(i).get_n_evaluations()).sum();
    assert_eq!(total, 100);
    let memory = vectors(&gmab);
    for (i, v) in memory.iter().enumerate() {
        assert!(v.iter().all(|&x| (0..=10).contains(&x)));
        for w in memory.iter().skip(i + 1) {
            assert_ne!(v, w);
        }
    }
    // the search stays finished and keeps its answer
    match gmab.next_step() {
        Step::Done { action_vector } => assert_eq!(action_vector, best),
        _ => panic!("the search is over"),
    }
}

fn linear(v: &[i32]) -> f64 {
    (v[0] + v[1]) as f64
}

#[test]
fn linear_objective_is_reproducible() {
    let mut first = standard(Some(7), 500);
    let mut second = standard(Some(7), 500);
    let a = run(&mut first, &linear, 0.5);
    let b = run(&mut second, &linear, 0.5);
    assert_eq!(a, b);
    assert_eq!(vectors(&first), vectors(&second));
    assert!(linear(&a) <= 10.0);
}

#[test]
fn seeds_change_the_initial_population() {
    let first = standard(Some(7), 500);
    let second = standard(Some(8), 500);
    assert_ne!(first.queued_vectors(), second.queued_vectors());
}

#[test]
fn index_stays_consistent_with_memory() {
    let mut gmab = standard(Some(3), 200);
    run(&mut gmab, &linear, 0.5);
    let entries = gmab.get_sample_average_tree().iter();
    assert_eq!(entries.len(), gmab.arm_count());
    for w in entries.windows(2) {
        assert!(w[0].0 <= w[1].0);
    }
    let mut seen = vec![false; gmab.arm_count()];
    for (key, i) in entries {
        assert_eq!(gmab.get_arm(i).get_mean_key(), key);
        assert!(!seen[i]);
        seen[i] = true;
    }
}

#[test]
fn too_small_box_is_rejected() {
    let r = Gmab::new(5, threshold(0.1), threshold(0.9), 100, 1, vec![0], vec![2], Some(1));
    assert_eq!(r.err(), Some(GmabError::InvalidBounds));
}

#[test]
fn invalid_bounds_are_rejected() {
    let swapped = Gmab::new(2, threshold(0.1), threshold(0.9), 100, 2, vec![0, 5], vec![10, 4], None);
    assert_eq!(swapped.err(), Some(GmabError::InvalidBounds));
    let empty = Gmab::new(2, threshold(0.1), threshold(0.9), 100, 0, vec![], vec![], None);
    assert_eq!(empty.err(), Some(GmabError::InvalidBounds));
    let short = Gmab::new(2, threshold(0.1), threshold(0.9), 100, 2, vec![0], vec![10], None);
    assert_eq!(short.err(), Some(GmabError::InvalidBounds));
    let single = Gmab::new(2, threshold(0.1), threshold(0.9), 100, 1, vec![0], vec![10], None);
    assert_eq!(single.err(), Some(GmabError::InvalidBounds));
    let single_without_crossover = Gmab::new(2, threshold(0.1), 0, 100, 1, vec![0], vec![10], None);
    assert!(single_without_crossover.is_ok());
}

#[test]
fn invalid_hyperparameters_are_rejected() {
    let odd = Gmab::new(3, threshold(0.1), threshold(0.9), 100, 2, vec![0, 0], vec![10, 10], None);
    assert_eq!(odd.err(), Some(GmabError::InvalidHyperparameters));
    let rate = Gmab::new(4, UNIT + 1, threshold(0.9), 100, 2, vec![0, 0], vec![10, 10], None);
    assert_eq!(rate.err(), Some(GmabError::InvalidHyperparameters));
    let no_budget = Gmab::new(4, threshold(0.1), threshold(0.9), 0, 2, vec![0, 0], vec![10, 10], None);
    assert_eq!(no_budget.err(), Some(GmabError::InvalidHyperparameters));
}

#[test]
fn budget_below_population_is_rejected() {
    let r = Gmab::new(10, threshold(0.1), threshold(0.9), 9, 2, vec![0, 0], vec![10, 10], None);
    assert_eq!(r.err(), Some(GmabError::BudgetExhaustedNoEvaluations));
    let exact = Gmab::new(10, threshold(0.1), threshold(0.9), 10, 2, vec![0, 0], vec![10, 10], Some(4));
    assert!(exact.is_ok());
}

#[test]
fn budget_equal_to_population_picks_among_the_initial_arms() {
    let mut gmab = Gmab::new(4, threshold(0.1), threshold(0.9), 4, 2, vec![0, 0], vec![10, 10], Some(4)).unwrap();
    let best = run(&mut gmab, &linear, 0.5);
    assert_eq!(gmab.arm_count(), 4);
    // every arm has one evaluation, so the prefix is the smallest mean alone
    let smallest = vectors(&gmab).into_iter().min_by_key(|v| v[0] + v[1]).unwrap();
    assert_eq!(best, smallest);
}

#[test]
fn find_best_ucb_takes_first_smallest_score() {
    let prefix = vec![4, 7, 1, 9];
    assert_eq!(find_best_ucb(&prefix, false, &vec![5, 3, 3, 8]), 7);
    assert_eq!(find_best_ucb(&prefix, false, &vec![2, 3, 3, 8]), 4);
    assert_eq!(find_best_ucb(&prefix, true, &vec![]), 9);
}

#[test]
fn single_arm_prefix_is_that_arm() {
    let mut gmab = Gmab::new(2, threshold(0.1), 0, 2, 1, vec![0], vec![1], Some(2)).unwrap();
    match gmab.next_step() {
        Step::Evaluate { action_vector, reward_bits, n_evaluations } => {
            answer_evaluation(&mut gmab, &linear_one, &action_vector, reward_bits, n_evaluations)
        }
        _ => panic!("the initial population is evaluated first"),
    }
    assert_eq!(gmab.arm_count(), 1);
    assert_eq!(gmab.ucb_prefix(), vec![0]);
}

fn linear_one(v: &[i32]) -> f64 {
    v[0] as f64
}

#[test]
fn bounds_as_pairs_match_separate_bounds() {
    let pairs = Gmab::with_bounds(&vec![(0, 10), (-3, 3)], 4, threshold(0.1), threshold(0.9), 50, Some(6)).unwrap();
    let separate = Gmab::new(4, threshold(0.1), threshold(0.9), 50, 2, vec![0, -3], vec![10, 3], Some(6)).unwrap();
    assert_eq!(pairs.get_lower_bound(), &vec![0, -3]);
    assert_eq!(pairs.get_upper_bound(), &vec![10, 3]);
    assert_eq!(pairs.queued_vectors(), separate.queued_vectors());
    let bad = Gmab::with_bounds(&vec![(0, 10), (4, 3)], 4, threshold(0.1), threshold(0.9), 50, None);
    assert_eq!(bad.err(), Some(GmabError::InvalidBounds));
}

#[test]
fn equal_means_keep_arms_in_insertion_order() {
    let mut gmab = standard(Some(12), 100);
    seed_memory(&mut gmab, &mock_opti_function);
    let order: Vec<usize> = gmab.get_sample_average_tree().iter().iter().map(|e| e.1).collect();
    assert_eq!(order, (0..10).collect::<Vec<usize>>());
}

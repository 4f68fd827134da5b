use gmab::genetic::{cross_pair, marks_below, recombine, GeneticAlgorithm, UNIT};
use rand::rngs::StdRng;
use rand::SeedableRng;
use rand_distr::{Distribution, Normal};

fn threshold(rate: f64) -> u64 {
    (rate * UNIT as f64).ceil() as u64
}

fn new_ga(
    population_size: usize,
    mutation_rate: f64,
    crossover_rate: f64,
    lower: Vec<i32>,
    upper: Vec<i32>,
    seed: Option<u64>,
) -> GeneticAlgorithm {
    GeneticAlgorithm::new(population_size, threshold(mutation_rate), threshold(crossover_rate), lower, upper, seed)
}

/// Gaussian moves of the marked components, as a caller of the library makes them.
fn moved(ga: &GeneticAlgorithm, population: &[Vec<i32>], sites: &[Vec<bool>], span: f64, seed: u64, lower: &[i32], upper: &[i32]) -> Vec<Vec<i32>> {
    let _ = ga;
    let mut rng = StdRng::seed_from_u64(seed);
    population
        .iter()
        .zip(sites.iter())
        .map(|(v, marks)| {
            v.iter()
                .enumerate()
                .map(|(j, &x)| {
                    if !marks[j] {
                        return x;
                    }
                    let sd = span * (upper[j] as i64 - lower[j] as i64) as f64;
                    let adj = Normal::new(0.0, sd).unwrap().sample(&mut rng);
                    (x as f64 + adj).max(lower[j] as f64).min(upper[j] as f64) as i32
                })
                .collect()
        })
        .collect()
}

fn mutate_all(ga: &mut GeneticAlgorithm, population: &Vec<Vec<i32>>, span: f64, lower: &[i32], upper: &[i32]) -> Vec<Vec<i32>> {
    let (sites, noise_seed) = ga.mutation_sites(population);
    let moves = moved(ga, population, &sites, span, noise_seed, lower, upper);
    ga.mutate(population, &sites, &moves)
}

#[test]
fn genetic_test_get_population_size() {
    let ga = new_ga(10, 0.1, 0.9, vec![0, 0], vec![10, 10], None);
    assert_eq!(ga.get_population_size(), 10);
}

#[test]
fn test_get_individuals() {
    let mut ga = new_ga(10, 0.1, 0.9, vec![0, 0], vec![10, 10], None);
    let individuals = ga.generate_new_population();
    assert_eq!(individuals.len(), 10);
}

#[test]
fn genetic_test_mutate() {
    let lower = vec![0, 0];
    let upper = vec![10, 10];
    let mut ga = new_ga(2, 1.0, 0.9, lower.clone(), upper.clone(), None);

    let initial_population = vec![vec![1, 1], vec![2, 2]];
    let mutated_population = mutate_all(&mut ga, &initial_population, 1.0, &lower, &upper);

    assert!(mutated_population.len() <= initial_population.len());
    for individual in mutated_population.iter() {
        for j in 0..ga.get_dimension() {
            assert!(individual[j] >= lower[j]);
            assert!(individual[j] <= upper[j]);
        }
    }
}

#[test]
fn mutation_rate_one_marks_every_component() {
    let mut ga = new_ga(2, 1.0, 0.9, vec![0, 0], vec![10, 10], Some(3));
    let (sites, _) = ga.mutation_sites(&vec![vec![1, 1], vec![2, 2]]);
    assert_eq!(sites, vec![vec![true, true], vec![true, true]]);
}

#[test]
fn mutation_rate_zero_marks_nothing() {
    let mut ga = new_ga(2, 0.0, 0.9, vec![0, 0], vec![10, 10], Some(3));
    let population = vec![vec![1, 1], vec![2, 2]];
    let (sites, _) = ga.mutation_sites(&population);
    assert_eq!(sites, vec![vec![false, false], vec![false, false]]);
    let out = ga.mutate(&population, &sites, &vec![vec![9, 9], vec![9, 9]]);
    assert_eq!(out, population);
}

#[test]
fn mutate_clamps_moved_components_and_drops_repeats() {
    let ga = new_ga(4, 1.0, 0.9, vec![0, -5], vec![10, 5], Some(1));
    let population = vec![vec![1, 1], vec![2, 2], vec![3, 3], vec![4, 4]];
    let sites = vec![vec![true, false], vec![true, true], vec![false, true], vec![true, true]];
    let moves = vec![vec![-7, 0], vec![42, -9], vec![0, 1], vec![10, 5]];
    let out = ga.mutate(&population, &sites, &moves);
    // [0,1], [10,-5], [3,1], and [10,5]; no repeats here
    assert_eq!(out, vec![vec![0, 1], vec![10, -5], vec![3, 1], vec![10, 5]]);
    let sites2 = vec![vec![true, true], vec![true, true], vec![false, false], vec![true, true]];
    let moves2 = vec![vec![3, 3], vec![20, 20], vec![0, 0], vec![10, 9]];
    let out2 = ga.mutate(&population, &sites2, &moves2);
    // [3,3], [10,5], [3,3] again (dropped), [10,5] again (dropped)
    assert_eq!(out2, vec![vec![3, 3], vec![10, 5]]);
}

#[test]
fn genetic_test_crossover() {
    let mut ga = new_ga(2, 0.1, 1.0, vec![0; 10], vec![10; 10], None);

    let initial_population = vec![vec![0, 1, 2, 3, 4, 5, 6, 7, 8, 9], vec![9, 8, 7, 6, 5, 4, 3, 2, 1, 0]];

    let crossover_population = ga.crossover(&initial_population);

    assert_eq!(crossover_population.len(), 2);
    for child in crossover_population.iter() {
        assert_ne!(child, &initial_population[0]);
        assert_ne!(child, &initial_population[1]);
    }
}

#[test]
fn crossover_rate_zero_keeps_pairs() {
    let mut ga = new_ga(4, 0.1, 0.0, vec![0; 3], vec![10; 3], Some(5));
    let population = vec![vec![0, 1, 2], vec![3, 4, 5], vec![6, 7, 8], vec![9, 10, 0]];
    assert_eq!(ga.crossover(&population), population);
}

#[test]
fn cross_pair_swaps_tails() {
    let (c1, c2) = cross_pair(&vec![1, 2, 3, 4], &vec![5, 6, 7, 8], 1);
    assert_eq!(c1, vec![1, 6, 7, 8]);
    assert_eq!(c2, vec![5, 2, 3, 4]);
    let (d1, d2) = cross_pair(&vec![1, 2, 3, 4], &vec![5, 6, 7, 8], 3);
    assert_eq!(d1, vec![1, 2, 3, 8]);
    assert_eq!(d2, vec![5, 6, 7, 4]);
}

#[test]
fn population_is_distinct_and_in_bounds() {
    let mut ga = new_ga(9 * 2, 0.1, 0.9, vec![-1, 4], vec![1, 9], Some(11));
    let pop = ga.generate_new_population();
    assert_eq!(pop.len(), 18);
    for (i, v) in pop.iter().enumerate() {
        assert!(-1 <= v[0] && v[0] <= 1 && 4 <= v[1] && v[1] <= 9);
        for w in pop.iter().skip(i + 1) {
            assert_ne!(v, w);
        }
    }
}

#[test]
fn population_fills_a_box_of_exactly_its_size() {
    let mut ga = new_ga(4, 0.1, 0.9, vec![0, 0], vec![1, 1], Some(2));
    let mut pop = ga.generate_new_population();
    pop.sort();
    assert_eq!(pop, vec![vec![0, 0], vec![0, 1], vec![1, 0], vec![1, 1]]);
}

#[test]
fn shuffle_population_permutes() {
    let mut ga = new_ga(10, 0.1, 0.9, vec![0, 0], vec![10, 10], Some(8));
    let mut positions: Vec<usize> = (0..10).collect();
    ga.shuffle_population(&mut positions);
    let mut sorted = positions.clone();
    sorted.sort();
    assert_eq!(sorted, (0..10).collect::<Vec<usize>>());
    assert_ne!(positions, (0..10).collect::<Vec<usize>>());
}

#[test]
fn test_reproduction_with_seeding() {
    let seed = 42;
    let lower = vec![0, 0];
    let upper = vec![10, 10];
    let mut ga = new_ga(10, 0.1, 0.9, lower.clone(), upper.clone(), Some(seed));
    let mut same_ga = new_ga(10, 0.1, 0.9, lower.clone(), upper.clone(), Some(seed));
    let mut diff_ga = new_ga(10, 0.1, 0.9, lower.clone(), upper.clone(), Some(seed + 1));

    let mut ga_population = ga.generate_new_population();
    let mut same_ga_population = same_ga.generate_new_population();
    let mut diff_ga_population = diff_ga.generate_new_population();
    assert_eq!(ga_population, same_ga_population);
    assert_ne!(ga_population, diff_ga_population);

    ga_population = ga.crossover(&ga_population);
    same_ga_population = same_ga.crossover(&same_ga_population);
    diff_ga_population = diff_ga.crossover(&diff_ga_population);
    assert_eq!(ga_population, same_ga_population);
    assert_ne!(ga_population, diff_ga_population);

    ga_population = mutate_all(&mut ga, &ga_population, 0.5, &lower, &upper);
    same_ga_population = mutate_all(&mut same_ga, &same_ga_population, 0.5, &lower, &upper);
    diff_ga_population = mutate_all(&mut diff_ga, &diff_ga_population, 0.5, &lower, &upper);
    assert_eq!(ga_population, same_ga_population);
    assert_ne!(ga_population, diff_ga_population);
}

#[test]
fn recombine_follows_each_draw() {
    let population = vec![vec![1, 2, 3], vec![4, 5, 6], vec![7, 8, 9], vec![0, 0, 0]];
    let out = recombine(&population, &vec![1, 10], &vec![1, 2], 5);
    assert_eq!(out, vec![vec![1, 5, 6], vec![4, 2, 3], vec![7, 8, 9], vec![0, 0, 0]]);
    let all = recombine(&population, &vec![4, 4], &vec![2, 1], 5);
    assert_eq!(all, vec![vec![1, 2, 6], vec![4, 5, 3], vec![7, 0, 0], vec![0, 8, 9]]);
}

#[test]
fn marks_below_compares_each_draw() {
    assert_eq!(marks_below(&vec![vec![1, 7], vec![5]], 5), vec![vec![true, false], vec![false]]);
}

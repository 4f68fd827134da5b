use gmab::vector::{copy_vector, free_vector, hash_vector, nth_vector, position_of, same_vector, HASH_BASIS};

#[test]
fn hash_of_known_vectors() {
    assert_eq!(hash_vector(&vec![]), HASH_BASIS);
    assert_eq!(hash_vector(&vec![1]), 0xaf63_bc4c_8601_b62c);
    assert_eq!(hash_vector(&vec![3, -1]), 0x04c2_c8f3_4b11_ab37);
    assert_ne!(hash_vector(&vec![1, 2]), hash_vector(&vec![2, 1]));
}

#[test]
fn vectors_compare_by_components() {
    assert!(same_vector(&vec![1, -2, 3], &vec![1, -2, 3]));
    assert!(!same_vector(&vec![1, -2, 3], &vec![1, -2]));
    assert!(!same_vector(&vec![1, -2, 3], &vec![1, 2, 3]));
    assert_eq!(copy_vector(&vec![4, 5]), vec![4, 5]);
}

#[test]
fn position_of_finds_first_occurrence() {
    let list = vec![vec![1, 1], vec![2, 2], vec![1, 1]];
    assert_eq!(position_of(&list, &vec![1, 1]), Some(0));
    assert_eq!(position_of(&list, &vec![2, 2]), Some(1));
    assert_eq!(position_of(&list, &vec![3, 3]), None);
}

#[test]
fn nth_vector_counts_last_dimension_fastest() {
    assert_eq!(nth_vector(&vec![0, 0], &vec![1, 2], 0), vec![0, 0]);
    assert_eq!(nth_vector(&vec![0, 0], &vec![1, 2], 4), vec![1, 1]);
    assert_eq!(nth_vector(&vec![-1, 5], &vec![1, 6], 5), vec![1, 6]);
}

#[test]
fn free_vector_skips_taken_vectors() {
    let taken = vec![vec![0, 0], vec![0, 1]];
    assert_eq!(free_vector(&taken, &vec![0, 0], &vec![1, 1]), vec![1, 0]);
    assert_eq!(free_vector(&vec![], &vec![3], &vec![3]), vec![3]);
}

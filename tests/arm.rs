use gmab::key::order_key;
use gmab::Arm;

fn mock_opti_function(_vec: &[i32]) -> f64 {
    5.0
}

/// One evaluation of `f` recorded on `arm`; returns the value observed.
fn pull(arm: &mut Arm, f: fn(&[i32]) -> f64) -> f64 {
    let g = f(arm.get_action_vector());
    let reward = f64::from_bits(arm.get_reward_bits()) + g;
    let mean = reward / (arm.get_n_evaluations() + 1) as f64;
    arm.record(reward.to_bits(), order_key(mean.to_bits()));
    g
}

fn get_value(arm: &Arm) -> f64 {
    if arm.get_n_evaluations() == 0 {
        return 0.0;
    }
    f64::from_bits(arm.get_reward_bits()) / arm.get_n_evaluations() as f64
}

fn get_function_value(arm: &Arm, f: fn(&[i32]) -> f64) -> f64 {
    f(arm.get_action_vector())
}

#[test]
fn arm_test_arm_new() {
    let arm = Arm::new(&vec![1, 2]);
    assert_eq!(arm.get_n_evaluations(), 0);
    assert_eq!(get_function_value(&arm, mock_opti_function), 5.0);
}

#[test]
fn arm_test_arm_pull() {
    let mut arm = Arm::new(&vec![1, 2]);
    let reward = pull(&mut arm, mock_opti_function);

    assert_eq!(reward, 5.0);
    assert_eq!(arm.get_n_evaluations(), 1);
    assert_eq!(get_value(&arm), 5.0);
}

#[test]
fn arm_test_arm_pull_multiple() {
    let mut arm = Arm::new(&vec![1, 2]);
    pull(&mut arm, mock_opti_function);
    pull(&mut arm, mock_opti_function);

    assert_eq!(arm.get_n_evaluations(), 2);
    assert_eq!(get_value(&arm), 5.0);
    assert_eq!(arm.get_mean_key(), order_key(5.0f64.to_bits()));
}

#[test]
fn arm_test_arm_clone() {
    let arm = Arm::new(&vec![1, 2]);
    let cloned_arm = arm.clone();

    assert_eq!(arm.get_n_evaluations(), cloned_arm.get_n_evaluations());
    assert_eq!(
        get_function_value(&arm, mock_opti_function),
        get_function_value(&cloned_arm, mock_opti_function)
    );
    assert_eq!(arm.get_action_vector(), cloned_arm.get_action_vector());
}

#[test]
fn test_arm_equality() {
    let arm1 = Arm::new(&vec![1, 2]);
    let arm2 = Arm::new(&vec![1, 2]);
    let arm3 = Arm::new(&vec![2, 1]);

    assert!(arm1 == arm2);
    assert!(arm1 != arm3);
}

#[test]
fn arm_test_initial_reward_is_zero() {
    let arm = Arm::new(&vec![1, 2]);
    assert_eq!(get_value(&arm), 0.0);
    assert_eq!(arm.get_mean_key(), order_key(0.0f64.to_bits()));
}

#[test]
fn test_value_with_zero_pulls() {
    let arm = Arm::new(&vec![1, 2]);
    assert_eq!(get_value(&arm), 0.0);
}

#[test]
fn test_mean_reward_with_zero_pulls() {
    let arm = Arm::new(&vec![1, 2]);
    assert_eq!(get_value(&arm), 0.0);
}

#[test]
fn arm_test_clone_after_pulls() {
    let mut arm = Arm::new(&vec![1, 2]);
    pull(&mut arm, mock_opti_function);
    let cloned_arm = arm.clone();
    assert_eq!(arm.get_n_evaluations(), cloned_arm.get_n_evaluations());
    assert_eq!(get_value(&arm), get_value(&cloned_arm));
}

#[test]
fn test_equality_with_different_states() {
    let mut arm1 = Arm::new(&vec![1, 2]);
    let arm2 = Arm::new(&vec![1, 2]);
    pull(&mut arm1, mock_opti_function);
    assert!(arm1 == arm2);
}

#[test]
fn arm_record_keeps_vector_and_counts() {
    let mut arm = Arm::new(&vec![-3, 4, 0]);
    arm.record(2.5f64.to_bits(), order_key(2.5f64.to_bits()));
    arm.record(7.0f64.to_bits(), order_key(3.5f64.to_bits()));
    assert_eq!(arm.get_action_vector(), &[-3, 4, 0]);
    assert_eq!(arm.get_n_evaluations(), 2);
    assert_eq!(f64::from_bits(arm.get_reward_bits()), 7.0);
    assert_eq!(arm.get_mean_key(), order_key(3.5f64.to_bits()));
}

use vstd::prelude::*;
use crate::key::{order_key, spec_order_key};
use crate::vector::{copy_vector, same_vector};

verus! {

/// A candidate: an integer vector with the statistics of its evaluations.
///
/// The cumulative reward is kept as the bit pattern of a double, and the mean
/// reward as the order key of one; whoever records an evaluation supplies both.
/// Two arms are equal when their vectors are.
pub struct Arm {
    action_vector: Vec<i32>,
    reward_bits: u64,
    n_evaluations: u64,
    mean_key: u64,
}

impl Arm {
    pub closed spec fn action(&self) -> Seq<i32> {
        self.action_vector@
    }

    pub closed spec fn reward(&self) -> u64 {
        self.reward_bits
    }

    pub closed spec fn evaluations(&self) -> nat {
        self.n_evaluations as nat
    }

    pub closed spec fn mean(&self) -> u64 {
        self.mean_key
    }

    /// An arm for `action_vector` that has not been evaluated: zero reward and
    /// a mean of zero.
    pub fn new(action_vector: &[i32]) -> (r: Arm)
        ensures
            r.action() == action_vector@,
            r.evaluations() == 0,
            r.reward() == 0,
            r.mean() == spec_order_key(0),
    {
        let mut v: Vec<i32> = Vec::new();
        let mut j: usize = 0;
        while j < action_vector.len()
            invariant
                j <= action_vector@.len(),
                v@ == action_vector@.subrange(0, j as int),
            decreases action_vector@.len() - j,
        {
            v.push(action_vector[j]);
            j = j + 1;
        }
        assert(v@ =~= action_vector@);
        Arm { action_vector: v, reward_bits: 0, n_evaluations: 0, mean_key: order_key(0) }
    }

    /// Records one more evaluation, with the new cumulative reward and mean.
    pub fn record(&mut self, reward_bits: u64, mean_key: u64)
        requires
            old(self).evaluations() < u64::MAX,
        ensures
            final(self).action() == old(self).action(),
            final(self).evaluations() == old(self).evaluations() + 1,
            final(self).reward() == reward_bits,
            final(self).mean() == mean_key,
    {
        self.n_evaluations = self.n_evaluations + 1;
        self.reward_bits = reward_bits;
        self.mean_key = mean_key;
    }

    pub fn get_n_evaluations(&self) -> (r: u64)
        ensures
            r == self.evaluations(),
    {
        self.n_evaluations
    }

    pub fn get_action_vector(&self) -> (r: &[i32])
        ensures
            r@ == self.action(),
    {
        self.action_vector.as_slice()
    }

    pub(crate) fn action_vector_ref(&self) -> (r: &Vec<i32>)
        ensures
            r@ == self.action(),
    {
        &self.action_vector
    }

    /// The cumulative reward, as the bit pattern of a double.
    pub fn get_reward_bits(&self) -> (r: u64)
        ensures
            r == self.reward(),
    {
        self.reward_bits
    }

    /// The order key of the mean reward.
    pub fn get_mean_key(&self) -> (r: u64)
        ensures
            r == self.mean(),
    {
        self.mean_key
    }
}

impl Clone for Arm {
    fn clone(&self) -> (r: Self)
        ensures
            r.action() == self.action(),
            r.evaluations() == self.evaluations(),
            r.reward() == self.reward(),
            r.mean() == self.mean(),
    {
        Arm {
            action_vector: copy_vector(&self.action_vector),
            reward_bits: self.reward_bits,
            n_evaluations: self.n_evaluations,
            mean_key: self.mean_key,
        }
    }
}

impl PartialEq for Arm {
    fn eq(&self, other: &Arm) -> (r: bool) {
        same_vector(&self.action_vector, &other.action_vector)
    }
}

impl vstd::std_specs::cmp::PartialEqSpecImpl for Arm {
    open spec fn obeys_eq_spec() -> bool {
        true
    }

    open spec fn eq_spec(&self, other: &Arm) -> bool {
        self.action() == other.action()
    }
}

impl Eq for Arm {
}

} // verus!

//! Subject weightings as exact fractions over a common denominator.
use vstd::prelude::*;

verus! {

/// Sum of a sequence of weights.
pub open spec fn weight_sum(s: Seq<u64>) -> nat
    decreases s.len(),
{
    if s.len() == 0 {
        0
    } else {
        weight_sum(s.drop_last()) + s.last() as nat
    }
}

/// A list of subject weights `nums[i] / den`, all over one common denominator.
#[derive(Clone, Debug)]
pub struct Weights {
    pub nums: Vec<u64>,
    pub den: u64,
}

impl Weights {
    /// The fractions sum to exactly one.
    pub open spec fn is_normalized(&self) -> bool {
        weight_sum(self.nums@) == self.den as nat
    }

    /// Whole-number weights, each over the denominator one.
    pub fn from_integers(nums: Vec<u64>) -> (r: Weights)
        ensures
            r.nums@ == nums@,
            r.den == 1,
    {
        Weights { nums, den: 1 }
    }
}

/// Why a weighting cannot be normalized.
#[derive(Clone, Copy, Debug, PartialEq, Eq, Structural)]
pub enum WeightError {
    /// The weights sum to zero (this includes the empty list).
    ZeroSum,
    /// Some requested subject has weight zero.
    ZeroWeight,
    /// The sum of the numerators does not fit in 64 bits.
    TooLarge,
}

/// The normalized form of a weighting: each fraction divided by the sum of all of them.
/// Over a common denominator `d`, `(n_i / d) / (sum n / d) == n_i / sum n`.
pub open spec fn normalized(w: Weights) -> (Seq<u64>, nat) {
    (w.nums@, weight_sum(w.nums@))
}

/// The error that normalizing `nums` gives, if any.
pub open spec fn normalize_error(nums: Seq<u64>) -> Option<WeightError> {
    if weight_sum(nums) == 0 {
        Some(WeightError::ZeroSum)
    } else if exists|i: int| 0 <= i < nums.len() && nums[i] == 0 {
        Some(WeightError::ZeroWeight)
    } else if weight_sum(nums) > u64::MAX {
        Some(WeightError::TooLarge)
    } else {
        None
    }
}

/// Divides every weight by the sum of all weights, so that they sum to one.
pub fn normalize(w: &Weights) -> (r: Result<Weights, WeightError>)
    requires
        w.den > 0,
    ensures
        match r {
            Ok(n) => normalize_error(w.nums@) is None && (n.nums@, n.den as nat) == normalized(*w),
            Err(e) => normalize_error(w.nums@) == Some(e),
        },
{
    let mut sum: u64 = 0;
    let mut has_zero = false;
    let mut overflow = false;
    let mut i: usize = 0;
    while i < w.nums.len()
        invariant
            i <= w.nums.len(),
            !overflow ==> sum as nat == weight_sum(w.nums@.subrange(0, i as int)),
            overflow ==> weight_sum(w.nums@.subrange(0, i as int)) > u64::MAX,
            has_zero <==> exists|j: int| 0 <= j < i && w.nums@[j] == 0,
        decreases w.nums.len() - i,
    {
        let x = w.nums[i];
        assert(w.nums@.subrange(0, i + 1).drop_last() == w.nums@.subrange(0, i as int));
        if x == 0 {
            has_zero = true;
        }
        if !overflow {
            match sum.checked_add(x) {
                Some(s) => sum = s,
                None => overflow = true,
            }
        }
        i += 1;
    }
    assert(w.nums@.subrange(0, i as int) == w.nums@);
    if !overflow && sum == 0 {
        return Err(WeightError::ZeroSum);
    }
    if has_zero {
        return Err(WeightError::ZeroWeight);
    }
    if overflow {
        return Err(WeightError::TooLarge);
    }
    Ok(Weights { nums: w.nums.clone(), den: sum })
}

/// Normalizing an already normalized weighting leaves it as it is.
pub proof fn lemma_normalize_idempotent(w: Weights)
    requires
        w.is_normalized(),
    ensures
        normalized(w) == (w.nums@, w.den as nat),
{
}

/// Normalizing twice gives what normalizing once gives.
pub proof fn lemma_normalize_twice(w: Weights, n: Weights)
    requires
        (n.nums@, n.den as nat) == normalized(w),
    ensures
        n.is_normalized(),
        normalized(n) == normalized(w),
{
}

/// Scaling every weight by `k` scales their sum by `k`.
pub proof fn lemma_weight_sum_scaled(s: Seq<u64>, t: Seq<u64>, k: nat)
    requires
        s.len() == t.len(),
        forall|j: int| 0 <= j < s.len() ==> t[j] == k * s[j],
    ensures
        weight_sum(t) == k * weight_sum(s),
    decreases s.len(),
{
    if s.len() > 0 {
        lemma_weight_sum_scaled(s.drop_last(), t.drop_last(), k);
        let a = weight_sum(s.drop_last());
        let x = s.last() as nat;
        assert(t.last() == k * x);
        assert(k * a + k * x == k * (a + x)) by (nonlinear_arith);
    } else {
        assert(k * 0 == 0) by (nonlinear_arith);
    }
}

} // verus!

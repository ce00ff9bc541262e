//! The branch-and-bound search for a visiting schedule.
//!
//! Costs are exact. With normalized weights `r_j / R` over `T` slots, the cost of a path
//! that visits `u` distinct classes and has `c_j` lessons of subject `j` is
//! `u + (bn / bd) * sum_j |c_j - T r_j / R| / (T r_j / R)`
//! `= u + (bn / bd) * sum_j |c_j R - T r_j| / (T r_j)`.
//! Every cost is kept multiplied by `scale = bd * T * P`, where `P` is the product of all
//! `r_j`; then the term of subject `j` has the whole-number factor `P / r_j`.
use vstd::prelude::*;
use crate::grid::{Cell, Grid, grid_cells, grid_dim, grid_get};
use crate::model::{distinct_classes, lessons, picked, subject_count};
use crate::weights::{Weights, weight_sum};

verus! {

/// Product of a sequence of weights.
pub open spec fn weight_product(s: Seq<u64>) -> nat
    decreases s.len(),
{
    if s.len() == 0 {
        1
    } else {
        weight_product(s.drop_last()) * (s.last() as nat)
    }
}

/// `sum_{j < k} P / r_j`.
pub open spec fn factor_sum(s: Seq<u64>, k: int) -> nat
    decreases k,
{
    if k <= 0 {
        0
    } else {
        factor_sum(s, k - 1) + weight_product(s) / (s[k - 1] as nat)
    }
}

/// An upper bound on every number that a search computes; it must fit in 128 bits.
/// A path visits at most `t` distinct classes.
pub open spec fn size_bound(t: nat, nums: Seq<u64>, den: nat, bn: nat, bd: nat) -> nat {
    (t + 1) * (bd * t * weight_product(nums)) + (bn + 1) * (t * den) * factor_sum(nums, nums.len() as int)
}

/// At slot `s` no class has a lesson.
pub open spec fn slot_free(cells: Seq<Seq<Cell>>, classes: nat, s: int) -> bool {
    forall|c: int| 0 <= c < classes ==> #[trigger] cells[c][s] is None
}

/// Every slot of `ch` takes a class with a lesson there, or is left empty when no
/// class has one.
pub open spec fn valid_prefix(cells: Seq<Seq<Cell>>, classes: nat, t: nat, ch: Seq<Option<usize>>) -> bool {
    &&& ch.len() <= t
    &&& forall|s: int|
        0 <= s < ch.len() ==> match #[trigger] ch[s] {
            Some(c) => c < classes && cells[c as int][s] is Some,
            None => slot_free(cells, classes, s),
        }
}

/// Tuning of a search.
#[derive(Clone, Copy, Debug)]
pub struct SearchConfig {
    /// The balance weight, which trades fewer classes against a closer subject mix, is
    /// `balance_num / balance_den`; zero ignores the subject mix.
    pub balance_num: u64,
    pub balance_den: u64,
    /// A progress report goes out whenever the visited-node counter is a multiple of
    /// this; zero sends none.
    pub progress_interval: u64,
    /// The best solution so far goes out whenever the visited-node counter is a multiple
    /// of this; zero sends none.
    pub solution_interval: u64,
}

impl SearchConfig {
    /// Balance weight 3, a progress report every 3197 nodes, the best solution so far
    /// every million nodes.
    pub fn standard() -> (r: SearchConfig)
        ensures
            r.balance_num == 3 && r.balance_den == 1,
            r.progress_interval == 3197 && r.solution_interval == 1_000_000,
    {
        SearchConfig { balance_num: 3, balance_den: 1, progress_interval: 3197, solution_interval: 1_000_000 }
    }
}

/// Why a search problem cannot be built.
#[derive(Clone, Copy, Debug, PartialEq, Eq, Structural)]
pub enum ProblemError {
    /// There is no slot to fill.
    NoTimeSlots,
    /// The weights are empty, hold a zero, or do not sum to one.
    InvalidWeights,
    /// The matrix is not `classes` by `time_slots`.
    BadShape,
    /// A cell names a subject that has no weight.
    BadSubject,
    /// The balance weight has denominator zero.
    BadConfig,
    /// The exact costs of this problem do not fit in 128 bits.
    TooLarge,
}

/// The error that building a problem from these parts gives, if any.
pub open spec fn problem_error(cells: Seq<Seq<Cell>>, t: nat, classes: nat, nums: Seq<u64>, den: nat, cfg: SearchConfig) -> Option<ProblemError> {
    if t == 0 {
        Some(ProblemError::NoTimeSlots)
    } else if !(nums.len() >= 1 && weight_sum(nums) == den && forall|j: int| 0 <= j < nums.len() ==> nums[j] >= 1) {
        Some(ProblemError::InvalidWeights)
    } else if !(cells.len() == classes && forall|c: int| 0 <= c < classes ==> #[trigger] cells[c].len() == t) {
        Some(ProblemError::BadShape)
    } else if exists|c: int, s: int| 0 <= c < classes && 0 <= s < t && #[trigger] cells[c][s] is Some && cells[c][s]->Some_0.0 >= nums.len() {
        Some(ProblemError::BadSubject)
    } else if cfg.balance_den == 0 {
        Some(ProblemError::BadConfig)
    } else if size_bound(t, nums, den, cfg.balance_num as nat, cfg.balance_den as nat) > u128::MAX {
        Some(ProblemError::TooLarge)
    } else {
        None
    }
}

/// A search request: which subject is taught where, and the subject weights.
pub struct Problem {
    pub time_slots: usize,
    pub classes: usize,
    /// Normalized weights: subject `j` has weight `weights[j] / weight_den`.
    pub weights: Vec<u64>,
    pub weight_den: u64,
    /// `[class, slot]`: the subject index and lesson reference taught there, if any.
    pub schedule: Grid,
    pub config: SearchConfig,
    /// `factors[j] == P / weights[j]`.
    pub factors: Vec<u128>,
    /// The cost of one unit: `balance_den * time_slots * P`.
    pub scale: u128,
}

/// `P / r_j` is exact: the product of all weights is a multiple of each weight.
pub proof fn lemma_factor_exact(s: Seq<u64>, j: int)
    requires
        0 <= j < s.len(),
        forall|i: int| 0 <= i < s.len() ==> s[i] >= 1,
    ensures
        (weight_product(s) / (s[j] as nat)) * (s[j] as nat) == weight_product(s),
    decreases s.len(),
{
    let t = s.drop_last();
    let p = weight_product(t);
    let x = s.last() as int;
    lemma_product_pos(t);
    if j == s.len() - 1 {
        vstd::arithmetic::div_mod::lemma_div_by_multiple(p as int, x);
        assert((p * x) / x == p);
    } else {
        lemma_factor_exact(t, j);
        let y = s[j] as int;
        let k = p / (y as nat);
        assert(t[j] == s[j]);
        assert(k * y == p);
        assert(p * x == (k * x) * y) by (nonlinear_arith)
            requires
                k * y == p,
        ;
        assert(k * x >= 0) by (nonlinear_arith)
            requires
                k >= 0,
                x >= 1,
        ;
        vstd::arithmetic::div_mod::lemma_div_by_multiple(k * x, y);
        assert(((k * x) * y) / y == k * x);
    }
}

/// Each scaled subject term is the balance weight times `|c_j R - T r_j| / (T r_j)`,
/// times `scale`: `bd * T * r_j * factor(j) == scale`.
pub proof fn lemma_scaled_term(p: Problem, j: int)
    requires
        p.wf(),
        0 <= j < p.subjects(),
    ensures
        p.config.balance_den as nat * p.time_slots as nat * (p.weights@[j] as nat) * p.factor(j) == p.spec_scale(),
{
    lemma_factor_exact(p.weights@, j);
    let bd = p.config.balance_den as nat;
    let t = p.time_slots as nat;
    let r = p.weights@[j] as nat;
    let f = p.factor(j);
    assert(bd * t * r * f == bd * t * (f * r)) by (nonlinear_arith);
}

impl Problem {
    pub open spec fn cells(&self) -> Seq<Seq<Cell>> {
        grid_cells(self.schedule)
    }

    pub open spec fn subjects(&self) -> nat {
        self.weights@.len()
    }

    pub open spec fn spec_scale(&self) -> nat {
        self.config.balance_den as nat * self.time_slots as nat * weight_product(self.weights@)
    }

    pub open spec fn factor(&self, j: int) -> nat {
        weight_product(self.weights@) / (self.weights@[j] as nat)
    }

    pub open spec fn wf(&self) -> bool {
        &&& problem_error(self.cells(), self.time_slots as nat, self.classes as nat, self.weights@, self.weight_den as nat, self.config) is None
        &&& self.factors@.len() == self.subjects()
        &&& forall|j: int| 0 <= j < self.subjects() ==> #[trigger] self.factors@[j] == self.factor(j)
        &&& self.scale == self.spec_scale()
    }

    /// `|count * R - T * r_j|`: how far a subject count is from its target, in units of
    /// `1 / R` lessons.
    pub open spec fn deviation(&self, j: int, count: int) -> nat {
        let d = count * self.weight_den - self.time_slots * self.weights@[j];
        if d < 0 {
            (-d) as nat
        } else {
            d as nat
        }
    }

    /// `sum_{j < k} deviation(j, counts[j]) * P / r_j`.
    pub open spec fn imbalance(&self, counts: Seq<int>, k: int) -> nat
        decreases k,
    {
        if k <= 0 {
            0
        } else {
            self.imbalance(counts, k - 1) + self.deviation(k - 1, counts[k - 1]) * self.factor(k - 1)
        }
    }

    /// The cost, times `scale`, of visiting `used` distinct classes with these subject
    /// counts.
    pub open spec fn cost_of(&self, used: nat, counts: Seq<int>) -> nat {
        used * self.spec_scale() + self.config.balance_num as nat * self.imbalance(counts, self.subjects() as int)
    }

    /// The subject counts of a sequence of picked cells.
    pub open spec fn counts_of(&self, p: Seq<Cell>) -> Seq<int> {
        Seq::new(self.subjects(), |j: int| subject_count(p, j) as int)
    }

    /// The cost, times `scale`, of a (partial) choice of classes.
    pub open spec fn path_cost(&self, ch: Seq<Option<usize>>) -> nat {
        self.cost_of(distinct_classes(ch), self.counts_of(picked(self.cells(), ch)))
    }

    /// At slot `s` no class has a lesson.
    pub open spec fn slot_free(&self, s: int) -> bool {
        slot_free(self.cells(), self.classes as nat, s)
    }

    pub open spec fn valid_prefix(&self, ch: Seq<Option<usize>>) -> bool {
        valid_prefix(self.cells(), self.classes as nat, self.time_slots as nat, ch)
    }

    /// A choice for every slot.
    pub open spec fn valid_choice(&self, ch: Seq<Option<usize>>) -> bool {
        self.valid_prefix(ch) && ch.len() == self.time_slots
    }

    /// The lowest-numbered of the first `n` classes that has a lesson at slot `s`.
    pub open spec fn first_class(&self, s: int, n: int) -> Option<usize>
        decreases n,
    {
        if n <= 0 {
            None
        } else {
            match self.first_class(s, n - 1) {
                Some(c) => Some(c),
                None => if self.cells()[n - 1][s] is Some {
                    Some((n - 1) as usize)
                } else {
                    None
                },
            }
        }
    }

    /// The path that takes the lowest-numbered class with a lesson in every slot: the
    /// first complete path that the search reaches.
    pub open spec fn greedy(&self) -> Seq<Option<usize>> {
        Seq::new(self.time_slots as nat, |s: int| self.first_class(s, self.classes as int))
    }
}

proof fn lemma_sum_ge_elem(s: Seq<u64>, j: int)
    requires
        0 <= j < s.len(),
    ensures
        s[j] <= weight_sum(s),
    decreases s.len(),
{
    if j < s.len() - 1 {
        lemma_sum_ge_elem(s.drop_last(), j);
    }
}

proof fn lemma_product_ge_elem(s: Seq<u64>, j: int)
    requires
        0 <= j < s.len(),
        forall|i: int| 0 <= i < s.len() ==> s[i] >= 1,
    ensures
        s[j] <= weight_product(s),
    decreases s.len(),
{
    lemma_product_pos(s.drop_last());
    let p = weight_product(s.drop_last());
    let x = s.last() as nat;
    if j < s.len() - 1 {
        lemma_product_ge_elem(s.drop_last(), j);
        assert(p <= p * x) by (nonlinear_arith)
            requires
                x >= 1,
        ;
    } else {
        assert(x <= p * x) by (nonlinear_arith)
            requires
                p >= 1,
        ;
    }
}

proof fn lemma_product_pos(s: Seq<u64>)
    requires
        forall|i: int| 0 <= i < s.len() ==> s[i] >= 1,
    ensures
        weight_product(s) >= 1,
    decreases s.len(),
{
    if s.len() > 0 {
        lemma_product_pos(s.drop_last());
        let p = weight_product(s.drop_last());
        let x = s.last() as nat;
        assert(p * x >= 1) by (nonlinear_arith)
            requires
                p >= 1,
                x >= 1,
        ;
    }
}

proof fn lemma_factor_sum_mono(s: Seq<u64>, i: int, k: int)
    requires
        0 <= i <= k <= s.len(),
        forall|j: int| 0 <= j < s.len() ==> s[j] >= 1,
    ensures
        factor_sum(s, i) <= factor_sum(s, k),
    decreases k - i,
{
    if i < k {
        lemma_factor_sum_mono(s, i, k - 1);
        let x = s[k - 1] as nat;
        assert(weight_product(s) / x >= 0) by (nonlinear_arith)
            requires
                x >= 1,
        ;
    }
}

proof fn lemma_product_prefix(s: Seq<u64>, i: int)
    requires
        0 <= i <= s.len(),
        forall|j: int| 0 <= j < s.len() ==> s[j] >= 1,
    ensures
        weight_product(s.subrange(0, i)) <= weight_product(s),
    decreases s.len(),
{
    if i < s.len() {
        let t = s.drop_last();
        assert(t.subrange(0, i) == s.subrange(0, i));
        lemma_product_prefix(t, i);
        lemma_product_pos(t);
        let p = weight_product(t);
        let x = s.last() as nat;
        assert(p <= p * x) by (nonlinear_arith)
            requires
                x >= 1,
        ;
    } else {
        assert(s.subrange(0, i) == s);
    }
}

impl Problem {
    /// Builds a search problem over `schedule`, a `classes` by `time_slots` matrix, with
    /// normalized subject weights.
    pub fn new(schedule: Grid, time_slots: usize, classes: usize, weights: &Weights, config: SearchConfig) -> (r: Result<Problem, ProblemError>)
        ensures
            match r {
                Ok(p) => {
                    &&& problem_error(grid_cells(schedule), time_slots as nat, classes as nat, weights.nums@, weights.den as nat, config) is None
                    &&& p.wf()
                    &&& p.cells() == grid_cells(schedule)
                    &&& p.time_slots == time_slots
                    &&& p.classes == classes
                    &&& p.weights@ == weights.nums@
                    &&& p.weight_den == weights.den
                    &&& p.config == config
                },
                Err(e) => problem_error(grid_cells(schedule), time_slots as nat, classes as nat, weights.nums@, weights.den as nat, config) == Some(e),
            },
    {
        let ghost cells = grid_cells(schedule);
        let ghost w = weights.nums@;
        if time_slots == 0 {
            return Err(ProblemError::NoTimeSlots);
        }
        // The weights: non-empty, no zero, summing to the denominator.
        let n = weights.nums.len();
        let mut sum: u64 = 0;
        let mut ok = n >= 1;
        let mut overflow = false;
        let mut i: usize = 0;
        while i < n
            invariant
                n == w.len(),
                w == weights.nums@,
                i <= n,
                !overflow ==> sum as nat == weight_sum(w.subrange(0, i as int)),
                overflow ==> weight_sum(w.subrange(0, i as int)) > u64::MAX,
                ok <==> (n >= 1 && forall|j: int| 0 <= j < i ==> w[j] >= 1),
            decreases n - i,
        {
            let x = weights.nums[i];
            assert(w.subrange(0, i + 1).drop_last() == w.subrange(0, i as int));
            if x == 0 {
                ok = false;
            }
            if !overflow {
                match sum.checked_add(x) {
                    Some(v) => sum = v,
                    None => overflow = true,
                }
            }
            i += 1;
        }
        assert(w.subrange(0, n as int) == w);
        if !ok || overflow || sum != weights.den {
            return Err(ProblemError::InvalidWeights);
        }
        // The shape of the matrix.
        let (rows, cols) = grid_dim(&schedule);
        if rows != classes || (classes > 0 && cols != time_slots) {
            proof {
                if rows == classes {
                    assert(cells[0].len() == cols);
                }
            }
            return Err(ProblemError::BadShape);
        }
        // Every subject index has a weight.
        let ghost earlier_ok = time_slots > 0 && w.len() >= 1 && weights.is_normalized() && forall|j: int| 0 <= j < w.len() ==> w[j] >= 1;
        assert(earlier_ok);
        let mut c: usize = 0;
        while c < classes
            invariant
                cells == grid_cells(schedule),
                cells.len() == classes,
                forall|k: int| 0 <= k < classes ==> #[trigger] cells[k].len() == time_slots,
                n == w.len(),
                w == weights.nums@,
                earlier_ok,
                earlier_ok == (time_slots > 0 && w.len() >= 1 && weights.is_normalized() && forall|j: int| 0 <= j < w.len() ==> w[j] >= 1),
                c <= classes,
                forall|k: int, s: int| 0 <= k < c && 0 <= s < time_slots && #[trigger] cells[k][s] is Some ==> cells[k][s]->Some_0.0 < n,
            decreases classes - c,
        {
            let mut s: usize = 0;
            while s < time_slots
                invariant
                    cells == grid_cells(schedule),
                    cells.len() == classes,
                    forall|k: int| 0 <= k < classes ==> #[trigger] cells[k].len() == time_slots,
                    n == w.len(),
                    w == weights.nums@,
                    earlier_ok,
                    earlier_ok == (time_slots > 0 && w.len() >= 1 && weights.is_normalized() && forall|j: int| 0 <= j < w.len() ==> w[j] >= 1),
                    c < classes,
                    s <= time_slots,
                    forall|k: int, s2: int| 0 <= k < c && 0 <= s2 < time_slots && #[trigger] cells[k][s2] is Some ==> cells[k][s2]->Some_0.0 < n,
                    forall|s2: int| 0 <= s2 < s && #[trigger] cells[c as int][s2] is Some ==> cells[c as int][s2]->Some_0.0 < n,
                decreases time_slots - s,
            {
                if let Some((j, _l)) = grid_get(&schedule, c, s) {
                    if j >= n {
                        assert(cells[c as int][s as int] is Some && cells[c as int][s as int]->Some_0.0 >= n);
                        return Err(ProblemError::BadSubject);
                    }
                }
                s += 1;
            }
            c += 1;
        }
        if config.balance_den == 0 {
            return Err(ProblemError::BadConfig);
        }
        // The sizes: every quantity below is at most the size bound.
        let ghost t = time_slots as nat;
        let ghost p = weight_product(w);
        let ghost bd = config.balance_den as nat;
        let ghost bn = config.balance_num as nat;
        let ghost big_r = weights.den as nat;
        let ghost bound = size_bound(t, w, big_r, bn, bd);
        let ghost fs = factor_sum(w, n as int);
        let ghost sc = bd * t * p;
        let ghost expected = problem_error(cells, t, classes as nat, weights.nums@, weights.den as nat, config);
        assert(expected == if bound > u128::MAX { Some(ProblemError::TooLarge) } else { None });
        proof {
            lemma_product_pos(w);
            lemma_product_ge_elem(w, 0);
            let r0 = w[0] as nat;
            assert(p / r0 >= 1) by (nonlinear_arith)
                requires
                    r0 >= 1,
                    r0 <= p,
            ;
            lemma_factor_sum_mono(w, 1, n as int);
            let cc = t;
            let tr = t * big_r;
            assert(sc <= bound && bd * t <= bound && p <= bound && tr <= bound && tr * fs <= bound
                && (bn + 1) * tr <= bound && fs <= bound && (bn + 1) * tr * fs <= bound && (cc + 1) * sc <= bound)
                by (nonlinear_arith)
                requires
                    bound == (cc + 1) * sc + (bn + 1) * tr * fs,
                    sc == bd * t * p,
                    bd >= 1,
                    t >= 1,
                    p >= 1,
                    big_r >= 1,
                    tr == t * big_r,
                    fs >= 1,
            ;
        }
        let mut prod: u128 = 1;
        let mut i: usize = 0;
        while i < n
            invariant
                n == w.len(),
                w == weights.nums@,
                i <= n,
                forall|j: int| 0 <= j < n ==> w[j] >= 1,
                prod as nat == weight_product(w.subrange(0, i as int)),
                p == weight_product(w),
                p <= bound,
                expected == if bound > u128::MAX { Some(ProblemError::TooLarge) } else { None },
                expected == problem_error(grid_cells(schedule), time_slots as nat, classes as nat, weights.nums@, weights.den as nat, config),
            decreases n - i,
        {
            assert(w.subrange(0, i + 1).drop_last() == w.subrange(0, i as int));
            proof {
                lemma_product_prefix(w, i + 1);
            }
            match prod.checked_mul(weights.nums[i] as u128) {
                Some(v) => prod = v,
                None => {
                    assert(weight_product(w.subrange(0, i + 1)) == prod * w[i as int]);
                    return Err(ProblemError::TooLarge);
                },
            }
            i += 1;
        }
        assert(w.subrange(0, n as int) == w);
        let bdt = match (config.balance_den as u128).checked_mul(time_slots as u128) {
            Some(v) => v,
            None => return Err(ProblemError::TooLarge),
        };
        let scale = match bdt.checked_mul(prod) {
            Some(v) => v,
            None => return Err(ProblemError::TooLarge),
        };
        let mut factors: Vec<u128> = Vec::new();
        let mut fsum: u128 = 0;
        let mut i: usize = 0;
        while i < n
            invariant
                n == w.len(),
                w == weights.nums@,
                i <= n,
                forall|j: int| 0 <= j < n ==> w[j] >= 1,
                prod as nat == p,
                p == weight_product(w),
                factors@.len() == i,
                forall|j: int| 0 <= j < i ==> #[trigger] factors@[j] == p / (w[j] as nat),
                fsum as nat == factor_sum(w, i as int),
                fs == factor_sum(w, n as int),
                fs <= bound,
                expected == if bound > u128::MAX { Some(ProblemError::TooLarge) } else { None },
                expected == problem_error(grid_cells(schedule), time_slots as nat, classes as nat, weights.nums@, weights.den as nat, config),
            decreases n - i,
        {
            proof {
                lemma_factor_sum_mono(w, i + 1, n as int);
            }
            let f = prod / (weights.nums[i] as u128);
            factors.push(f);
            match fsum.checked_add(f) {
                Some(v) => fsum = v,
                None => {
                    assert(factor_sum(w, i + 1) == fsum + f);
                    return Err(ProblemError::TooLarge);
                },
            }
            i += 1;
        }
        let tr = match (time_slots as u128).checked_mul(weights.den as u128) {
            Some(v) => v,
            None => return Err(ProblemError::TooLarge),
        };
        let bn1 = (config.balance_num as u128) + 1;
        let left = match (time_slots as u128 + 1).checked_mul(scale) {
            Some(v) => v,
            None => return Err(ProblemError::TooLarge),
        };
        let right = match bn1.checked_mul(tr) {
            Some(v) => match v.checked_mul(fsum) {
                Some(v2) => v2,
                None => return Err(ProblemError::TooLarge),
            },
            None => return Err(ProblemError::TooLarge),
        };
        if left.checked_add(right).is_none() {
            return Err(ProblemError::TooLarge);
        }
        Ok(Problem { time_slots, classes, weights: weights.nums.clone(), weight_den: weights.den, schedule, config, factors, scale })
    }

    proof fn lemma_basics(&self)
        requires
            self.wf(),
        ensures
            weight_product(self.weights@) >= 1,
            self.spec_scale() >= 1,
            factor_sum(self.weights@, self.subjects() as int) >= 1,
            self.weight_den >= 1,
            forall|j: int| 0 <= j < self.subjects() ==> #[trigger] self.weights@[j] <= self.weight_den,
            self.time_slots as nat * self.spec_scale() + self.config.balance_num as nat * ((self.time_slots * self.weight_den) as nat
                * factor_sum(self.weights@, self.subjects() as int)) <= u128::MAX,
            (self.time_slots * self.weight_den) as nat <= u128::MAX,
            (self.time_slots * self.weight_den) as nat * factor_sum(self.weights@, self.subjects() as int) <= u128::MAX,
    {
        let w = self.weights@;
        let p = weight_product(w);
        lemma_product_pos(w);
        let bd = self.config.balance_den as nat;
        let t = self.time_slots as nat;
        assert(bd * t * p >= 1) by (nonlinear_arith)
            requires
                bd >= 1,
                t >= 1,
                p >= 1,
        ;
        assert forall|j: int| 0 <= j < self.subjects() implies #[trigger] self.weights@[j] <= self.weight_den by {
            lemma_sum_ge_elem(w, j);
        }
        lemma_sum_ge_elem(w, 0);
        lemma_product_ge_elem(w, 0);
        let r0 = w[0] as nat;
        assert(p / r0 >= 1) by (nonlinear_arith)
            requires
                r0 >= 1,
                r0 <= p,
        ;
        lemma_factor_sum_mono(w, 1, self.subjects() as int);
        let fs = factor_sum(w, self.subjects() as int);
        let c = self.time_slots as nat;
        let sc = self.spec_scale();
        let bn = self.config.balance_num as nat;
        let tr = t * self.weight_den as nat;
        assert(c * sc + bn * (tr * fs) <= (c + 1) * sc + (bn + 1) * tr * fs) by (nonlinear_arith)
            requires
                sc >= 0,
                tr >= 0,
                fs >= 0,
        ;
        assert(tr <= (c + 1) * sc + (bn + 1) * tr * fs) by (nonlinear_arith)
            requires
                fs >= 1,
                sc >= 0,
        ;
        assert(tr * fs <= (c + 1) * sc + (bn + 1) * tr * fs) by (nonlinear_arith)
            requires
                fs >= 1,
                sc >= 0,
        ;
    }

    proof fn lemma_imbalance_bound(&self, counts: Seq<int>, k: int)
        requires
            self.wf(),
            0 <= k <= self.subjects(),
            counts.len() == self.subjects(),
            forall|j: int| 0 <= j < counts.len() ==> 0 <= #[trigger] counts[j] <= self.time_slots,
        ensures
            self.imbalance(counts, k) <= (self.time_slots * self.weight_den) as nat * factor_sum(self.weights@, k),
        decreases k,
    {
        if k > 0 {
            self.lemma_basics();
            self.lemma_imbalance_bound(counts, k - 1);
            let j = k - 1;
            let tr = (self.time_slots * self.weight_den) as nat;
            let t = self.time_slots as int;
            let r = self.weights@[j] as int;
            let big_r = self.weight_den as int;
            let cnt = counts[j];
            assert(cnt * big_r <= t * big_r) by (nonlinear_arith)
                requires
                    0 <= cnt <= t,
                    big_r >= 0,
            ;
            assert(t * r <= t * big_r) by (nonlinear_arith)
                requires
                    0 <= r <= big_r,
                    t >= 0,
            ;
            assert(0 <= cnt * big_r) by (nonlinear_arith)
                requires
                    0 <= cnt,
                    big_r >= 0,
            ;
            assert(0 <= t * r) by (nonlinear_arith)
                requires
                    0 <= r,
                    t >= 0,
            ;
            let d = self.deviation(j, cnt);
            let f = self.factor(j);
            let fs0 = factor_sum(self.weights@, j);
            let im0 = self.imbalance(counts, j);
            assert(im0 + d * f <= tr * (fs0 + f)) by (nonlinear_arith)
                requires
                    d <= tr,
                    im0 <= tr * fs0,
            ;
        }
    }

    /// The cost, times `scale`, of visiting `used` distinct classes with these subject
    /// counts.
    pub fn cost(&self, used: usize, counts: &Vec<usize>) -> (r: u128)
        requires
            self.wf(),
            used <= self.time_slots,
            counts@.len() == self.subjects(),
            forall|j: int| 0 <= j < counts@.len() ==> #[trigger] counts@[j] <= self.time_slots,
        ensures
            r == self.cost_of(used as nat, counts@.map_values(|x: usize| x as int)),
    {
        let ghost cs = counts@.map_values(|x: usize| x as int);
        proof {
            self.lemma_basics();
            self.lemma_imbalance_bound(cs, self.subjects() as int);
        }
        let ghost tr = (self.time_slots * self.weight_den) as nat;
        let ghost fs = factor_sum(self.weights@, self.subjects() as int);
        let t = self.time_slots as u128;
        let big_r = self.weight_den as u128;
        let mut imb: u128 = 0;
        let mut j: usize = 0;
        while j < counts.len()
            invariant
                self.wf(),
                j <= counts@.len(),
                counts@.len() == self.subjects(),
                cs == counts@.map_values(|x: usize| x as int),
                forall|i: int| 0 <= i < counts@.len() ==> #[trigger] counts@[i] <= self.time_slots,
                tr == (self.time_slots * self.weight_den) as nat,
                tr <= u128::MAX,
                fs == factor_sum(self.weights@, self.subjects() as int),
                tr * fs <= u128::MAX,
                t == self.time_slots,
                big_r == self.weight_den,
                forall|i: int| 0 <= i < self.subjects() ==> #[trigger] self.weights@[i] <= self.weight_den,
                imb == self.imbalance(cs, j as int),
            decreases counts@.len() - j,
        {
            proof {
                self.lemma_imbalance_bound(cs, j + 1);
                lemma_factor_sum_mono(self.weights@, j + 1, self.subjects() as int);
                assert(tr * factor_sum(self.weights@, j + 1) <= tr * fs) by (nonlinear_arith)
                    requires
                        factor_sum(self.weights@, j + 1) <= fs,
                ;
                let wj = self.weights@[j as int] as nat;
                let cj = counts@[j as int] as nat;
                assert(t * wj <= tr) by (nonlinear_arith)
                    requires
                        wj <= big_r,
                        tr == t * big_r,
                ;
                assert(cj * big_r <= tr) by (nonlinear_arith)
                    requires
                        cj <= t,
                        tr == t * big_r,
                ;
            }
            let target = t * (self.weights[j] as u128);
            let have = (counts[j] as u128) * big_r;
            let d = if have >= target {
                have - target
            } else {
                target - have
            };
            proof {
                let f = self.factor(j as int);
                let im0 = self.imbalance(cs, j as int);
                assert(d == self.deviation(j as int, cs[j as int]));
                assert(im0 + d * f <= tr * fs);
                assert(d * f <= tr * fs);
            }
            imb = imb + d * self.factors[j];
            j += 1;
        }
        let bn = self.config.balance_num as u128;
        proof {
            let c = self.time_slots as nat;
            let sc = self.spec_scale();
            assert(used * sc <= c * sc) by (nonlinear_arith)
                requires
                    used <= c,
            ;
            assert(bn * imb <= bn * (tr * fs)) by (nonlinear_arith)
                requires
                    imb <= tr * fs,
            ;
        }
        (used as u128) * self.scale + bn * imb
    }
}

/// A best solution as `(choice, cost, classes)`.
pub open spec fn incumbent(b: Option<Solution>) -> Option<(Seq<Option<usize>>, nat, nat)> {
    match b {
        Some(s) => Some((s.choice@, s.cost as nat, s.classes as nat)),
        None => None,
    }
}

/// A complete assignment: for each slot, the lesson reference to observe there, if any.
pub struct Solution {
    pub assignments: Vec<Option<usize>>,
    /// The cost, times `scale`.
    pub cost: u128,
    /// How many distinct classes the assignment visits.
    pub classes: usize,
    /// The class chosen at each slot.
    pub choice: Ghost<Seq<Option<usize>>>,
}

/// A snapshot of a running search.
#[derive(Clone, Copy, Debug)]
pub struct Progress {
    /// The cost of the best solution so far, if there is one.
    pub best: Option<u128>,
    pub current_cost: u128,
    pub current_classes: usize,
    pub visited: u64,
}

/// Where a running search sends its progress reports and its best solution so far.
pub trait ProgressSink {
    /// A snapshot: the cost and class count of the path being explored, the cost of
    /// the best solution so far, and the visited-node counter.
    fn progress(&mut self, problem: &Problem, report: Progress)
        requires
            exists|path: Seq<Option<usize>>, best: Option<Solution>| #[trigger] problem.reports(report, path, best),
    ;

    /// The best solution so far.
    fn solution(&mut self, problem: &Problem, best: &Solution)
        requires
            problem.wf(),
            problem.solution_wf(*best),
    ;
}

/// A sink that drops every report.
pub struct NoProgress;

impl ProgressSink for NoProgress {
    fn progress(&mut self, problem: &Problem, report: Progress) {
    }

    fn solution(&mut self, problem: &Problem, best: &Solution) {
    }
}

/// The mutable state of a search, restored on every backtrack.
pub struct SearchState {
    /// `[slot]`: the lesson reference chosen so far.
    pub current: Vec<Option<usize>>,
    /// The distinct classes on the current path.
    pub used_classes: Vec<usize>,
    /// `[subject]`: how many chosen lessons on the current path teach it.
    pub subject_counts: Vec<usize>,
    /// The best complete solution found so far.
    pub best: Option<Solution>,
    pub nodes_visited: u64,
}

fn contains_class(v: &Vec<usize>, c: usize) -> (r: bool)
    ensures
        r == v@.contains(c),
{
    let mut i: usize = 0;
    while i < v.len()
        invariant
            i <= v@.len(),
            forall|k: int| 0 <= k < i ==> v@[k] != c,
        decreases v@.len() - i,
    {
        if v[i] == c {
            return true;
        }
        i += 1;
    }
    false
}

fn copy_assignment(v: &Vec<Option<usize>>) -> (r: Vec<Option<usize>>)
    ensures
        r@ == v@,
{
    let mut r: Vec<Option<usize>> = Vec::new();
    let mut i: usize = 0;
    while i < v.len()
        invariant
            i <= v@.len(),
            r@ == v@.subrange(0, i as int),
        decreases v@.len() - i,
    {
        r.push(v[i]);
        i += 1;
    }
    assert(r@ == v@);
    r
}

impl Problem {
    pub open spec fn solution_wf(&self, b: Solution) -> bool {
        &&& self.valid_choice(b.choice@)
        &&& b.assignments@ == lessons(picked(self.cells(), b.choice@))
        &&& b.cost == self.path_cost(b.choice@)
        &&& b.classes == distinct_classes(b.choice@)
    }

    /// Whether the search goes on below the partial path `next`: there is no best
    /// solution yet, or the class term of `next` alone costs less than it. Every
    /// completion of `next` visits at least those classes and adds a non-negative
    /// imbalance, so a branch that is cut cannot lead to a cheaper solution.
    pub open spec fn promising(&self, next: Seq<Option<usize>>, best: Option<(Seq<Option<usize>>, nat, nat)>) -> bool {
        match best {
            None => true,
            Some(b) => distinct_classes(next) * self.spec_scale() < b.1,
        }
    }

    /// The best solution, as `(choice, cost, classes)`, after the depth-first search
    /// from the partial path `path` with best solution `best` so far. A complete path
    /// replaces the best solution only when it costs strictly less. In a slot where some
    /// class has a lesson, the classes are tried in order, each only where it is
    /// `promising`; a slot where no class has a lesson is left empty.
    pub open spec fn dfs(&self, path: Seq<Option<usize>>, best: Option<(Seq<Option<usize>>, nat, nat)>) -> Option<(Seq<Option<usize>>, nat, nat)>
        decreases self.time_slots - path.len(), self.classes + 1,
    {
        if path.len() >= self.time_slots {
            let cost = self.path_cost(path);
            if best is Some && !(cost < best->Some_0.1) {
                best
            } else {
                Some((path, cost, distinct_classes(path)))
            }
        } else if self.slot_free(path.len() as int) {
            self.dfs(path.push(None), best)
        } else {
            self.dfs_classes(path, 0, best)
        }
    }

    /// The best solution after trying classes `c, c + 1, ...` in the next slot of `path`.
    pub open spec fn dfs_classes(&self, path: Seq<Option<usize>>, c: int, best: Option<(Seq<Option<usize>>, nat, nat)>) -> Option<(Seq<Option<usize>>, nat, nat)>
        decreases self.time_slots - path.len(), self.classes - c,
    {
        if path.len() >= self.time_slots || c >= self.classes || c < 0 {
            best
        } else {
            let next = path.push(Some(c as usize));
            let tried = if self.cells()[c][path.len() as int] is Some && self.promising(next, best) {
                self.dfs(next, best)
            } else {
                best
            };
            self.dfs_classes(path, c + 1, tried)
        }
    }

    /// The choice that the search returns.
    pub open spec fn search_result(&self) -> Seq<Option<usize>> {
        self.dfs(Seq::empty(), None)->Some_0.0
    }

    /// A slot where no class has a lesson is left empty, and the search goes on at the
    /// next slot with nothing else changed.
    pub proof fn lemma_free_slot(&self, path: Seq<Option<usize>>, best: Option<(Seq<Option<usize>>, nat, nat)>)
        requires
            path.len() < self.time_slots,
            self.slot_free(path.len() as int),
        ensures
            self.dfs(path, best) == self.dfs(path.push(None), best),
    {
    }

    /// `report` describes the search at the partial path `path` with best solution
    /// `best` so far.
    pub open spec fn reports(&self, report: Progress, path: Seq<Option<usize>>, best: Option<Solution>) -> bool {
        &&& self.wf()
        &&& self.valid_prefix(path)
        &&& report.current_classes == distinct_classes(path)
        &&& report.current_cost == self.path_cost(path)
        &&& report.best == (match best {
            Some(b) => Some(b.cost),
            None => None,
        })
        &&& self.best_wf(best)
    }

    pub open spec fn best_wf(&self, best: Option<Solution>) -> bool {
        match best {
            Some(b) => self.solution_wf(b),
            None => true,
        }
    }

    /// The search state matches the path `path` of chosen classes.
    pub open spec fn state_wf(&self, st: SearchState, path: Seq<Option<usize>>) -> bool {
        &&& self.valid_prefix(path)
        &&& st.current@.len() == self.time_slots
        &&& forall|s: int| 0 <= s < path.len() ==> #[trigger] st.current@[s] == lessons(picked(self.cells(), path))[s]
        &&& forall|s: int| path.len() <= s < self.time_slots ==> #[trigger] st.current@[s] is None
        &&& forall|c: usize| st.used_classes@.contains(c) <==> path.contains(Some(c))
        &&& st.used_classes@.len() == distinct_classes(path)
        &&& st.subject_counts@.len() == self.subjects()
        &&& forall|j: int| 0 <= j < self.subjects() ==> #[trigger] st.subject_counts@[j] == subject_count(picked(self.cells(), path), j)
        &&& self.best_wf(st.best)
    }

    proof fn lemma_first_class_stays(&self, s: int, n: int, m: int)
        requires
            0 <= n <= m,
            self.first_class(s, n) is Some,
        ensures
            self.first_class(s, m) == self.first_class(s, n),
        decreases m - n,
    {
        if n < m {
            self.lemma_first_class_stays(s, n, m - 1);
        }
    }

    proof fn lemma_counts_bounded(&self, st: SearchState, path: Seq<Option<usize>>)
        requires
            self.wf(),
            self.state_wf(st, path),
        ensures
            forall|j: int| 0 <= j < st.subject_counts@.len() ==> #[trigger] st.subject_counts@[j] <= path.len(),
            st.used_classes@.len() <= path.len(),
            st.subject_counts@.map_values(|x: usize| x as int) == self.counts_of(picked(self.cells(), path)),
    {
        assert forall|j: int| 0 <= j < st.subject_counts@.len() implies #[trigger] st.subject_counts@[j] <= path.len() by {
            crate::model::lemma_subject_count_le(picked(self.cells(), path), j);
        }
        crate::model::lemma_distinct_le(path);
        assert(st.subject_counts@.map_values(|x: usize| x as int) =~= self.counts_of(picked(self.cells(), path)));
    }

    /// Depth-first branch and bound from `slot` on. The path so far is `path`. The
    /// current assignment, the used classes and the subject counts come back exactly as
    /// they were, and the best solution is at least as good as before.
    #[verifier::rlimit(60)]
    pub fn search<S: ProgressSink>(&self, slot: usize, st: &mut SearchState, sink: &mut S, Ghost(path): Ghost<Seq<Option<usize>>>)
        requires
            self.wf(),
            path.len() == slot,
            self.state_wf(*old(st), path),
        ensures
            final(st).current@ == old(st).current@,
            final(st).used_classes@ == old(st).used_classes@,
            final(st).subject_counts@ == old(st).subject_counts@,
            self.best_wf(final(st).best),
            final(st).best is Some,
            old(st).best is Some ==> final(st).best->Some_0.cost <= old(st).best->Some_0.cost,
            forall|q: Seq<Option<usize>>|
                #[trigger] self.valid_choice(q) && q.subrange(0, slot as int) == path ==> final(st).best->Some_0.cost <= self.path_cost(q),
            old(st).best is None ==> final(st).best->Some_0.cost <= self.path_cost(path + self.greedy().subrange(slot as int, self.time_slots as int)),
            incumbent(final(st).best) == self.dfs(path, incumbent(old(st).best)),
            final(st).nodes_visited >= old(st).nodes_visited,
            final(st).best == old(st).best || ({
                &&& final(st).best is Some
                &&& old(st).best is Some ==> final(st).best->Some_0.cost < old(st).best->Some_0.cost
                &&& final(st).best->Some_0.choice@.subrange(0, slot as int) == path
                &&& distinct_classes(path) <= final(st).best->Some_0.classes
            }),
        decreases self.time_slots - slot,
    {
        let ghost cells = self.cells();
        proof {
            self.lemma_counts_bounded(*st, path);
        }
        if slot == self.time_slots {
            let used = st.used_classes.len();
            let cost = self.cost(used, &st.subject_counts);
            let better = match &st.best {
                Some(b) => cost < b.cost,
                None => true,
            };
            if better {
                let assignments = copy_assignment(&st.current);
                assert(assignments@ =~= lessons(picked(cells, path)));
                st.best = Some(Solution { assignments, cost, classes: used, choice: Ghost(path) });
            }
            proof {
                assert forall|q: Seq<Option<usize>>| #[trigger] self.valid_choice(q) && q.subrange(0, slot as int) == path implies st.best->Some_0.cost <= self.path_cost(q) by {
                    assert(q.subrange(0, slot as int) == q);
                }
                assert(path + self.greedy().subrange(slot as int, self.time_slots as int) =~= path);
                assert(path.subrange(0, slot as int) == path);
            }
            return;
        }
        let ghost cur0 = st.current@;
        let ghost used0 = st.used_classes@;
        let ghost counts0 = st.subject_counts@;
        let ghost best0 = st.best;
        let ghost nodes0 = st.nodes_visited;
        let mut assigned = false;
        let mut c: usize = 0;
        while c < self.classes
            invariant
                self.wf(),
                cells == self.cells(),
                slot < self.time_slots,
                path.len() == slot,
                self.state_wf(*st, path),
                st.current@ == cur0,
                st.used_classes@ == used0,
                st.subject_counts@ == counts0,
                c <= self.classes,
                assigned <==> exists|k: int| 0 <= k < c && #[trigger] cells[k][slot as int] is Some,
                assigned ==> st.best is Some,
                best0 is Some ==> (st.best is Some && st.best->Some_0.cost <= best0->Some_0.cost),
                forall|q: Seq<Option<usize>>|
                    #[trigger] self.valid_choice(q) && q.subrange(0, slot as int) == path && q[slot as int] is Some && q[slot as int]->Some_0 < c
                        ==> st.best is Some && st.best->Some_0.cost <= self.path_cost(q),
                !assigned ==> st.best == best0 && self.first_class(slot as int, c as int) is None,
                assigned ==> self.first_class(slot as int, c as int) is Some
                    && self.first_class(slot as int, c as int) == self.first_class(slot as int, self.classes as int),
                assigned && best0 is None ==> st.best->Some_0.cost <= self.path_cost(path + self.greedy().subrange(slot as int, self.time_slots as int)),
                self.dfs_classes(path, c as int, incumbent(st.best)) == self.dfs_classes(path, 0, incumbent(best0)),
                st.nodes_visited >= nodes0,
                st.best == best0 || ({
                    &&& st.best is Some
                    &&& best0 is Some ==> st.best->Some_0.cost < best0->Some_0.cost
                    &&& st.best->Some_0.choice@.subrange(0, slot as int) == path
                    &&& distinct_classes(path) <= st.best->Some_0.classes
                }),
            decreases self.classes - c,
        {
            proof {
                if self.first_class(slot as int, c as int + 1) is Some {
                    self.lemma_first_class_stays(slot as int, c as int + 1, self.classes as int);
                }
            }
            if let Some((subject, lesson)) = grid_get(&self.schedule, c, slot) {
                let ghost next = path.push(Some(c));
                let ghost first = !assigned;
                let ghost pnext = picked(cells, next);
                assert(next.drop_last() == path);
                assert(pnext.drop_last() =~= picked(cells, path));
                assert(pnext.last() == Some((subject, lesson)));
                proof {
                    crate::model::lemma_subject_count_le(picked(cells, path), subject as int);
                }
                st.current.set(slot, Some(lesson));
                let was_new = !contains_class(&st.used_classes, c);
                if was_new {
                    st.used_classes.push(c);
                }
                let old_count = st.subject_counts[subject];
                st.subject_counts.set(subject, old_count + 1);
                proof {
                    assert forall|s: int| 0 <= s < next.len() implies #[trigger] st.current@[s] == lessons(pnext)[s] by {
                        if s < slot {
                            assert(picked(cells, path)[s] == pnext[s]);
                        }
                    }
                    assert forall|x: usize| st.used_classes@.contains(x) <==> next.contains(Some(x)) by {
                        if next.contains(Some(x)) && x != c {
                            let k = choose|k: int| 0 <= k < next.len() && next[k] == Some(x);
                            assert(path[k] == Some(x));
                        }
                        if path.contains(Some(x)) {
                            let k = choose|k: int| 0 <= k < path.len() && path[k] == Some(x);
                            assert(next[k] == Some(x));
                        }
                        if x == c {
                            assert(next[slot as int] == Some(x));
                        }
                        if st.used_classes@.contains(x) && x != c {
                            assert(used0.contains(x));
                        }
                        if used0.contains(x) {
                            let k = choose|k: int| 0 <= k < used0.len() && used0[k] == x;
                            assert(st.used_classes@[k] == x);
                        }
                        if x == c && was_new {
                            assert(st.used_classes@[st.used_classes@.len() - 1] == x);
                        }
                    }
                    assert forall|j: int| 0 <= j < self.subjects() implies #[trigger] st.subject_counts@[j] == subject_count(pnext, j) by {
                    }
                    assert(self.state_wf(*st, next));
                    self.lemma_counts_bounded(*st, next);
                }
                let current_classes = st.used_classes.len();
                let current_cost = self.cost(current_classes, &st.subject_counts);
                if self.config.progress_interval > 0 && st.nodes_visited % self.config.progress_interval == 0 {
                    let best_cost = match &st.best {
                        Some(b) => Some(b.cost),
                        None => None,
                    };
                    let report = Progress { best: best_cost, current_cost, current_classes, visited: st.nodes_visited };
                    assert(self.reports(report, next, st.best));
                    sink.progress(self, report);
                }
                if self.config.solution_interval > 0 && st.nodes_visited % self.config.solution_interval == 0 {
                    if let Some(b) = &st.best {
                        sink.solution(self, b);
                    }
                }
                proof {
                    self.lemma_basics();
                    let sc = self.spec_scale();
                    let t = self.time_slots as nat;
                    assert(current_classes * sc <= t * sc) by (nonlinear_arith)
                        requires
                            current_classes <= t,
                    ;
                }
                let promising = match &st.best {
                    Some(b) => (current_classes as u128) * self.scale < b.cost,
                    None => true,
                };
                let ghost best_before = st.best;
                assert(promising == self.promising(next, incumbent(best_before)));
                if promising {
                    self.search(slot + 1, st, sink, Ghost(next));
                }
                proof {
                    if st.best != best_before {
                        let ch = st.best->Some_0.choice@;
                        assert(ch.subrange(0, slot as int) == ch.subrange(0, slot + 1).subrange(0, slot as int));
                        assert(next.subrange(0, slot as int) == path);
                    }
                }
                proof {
                    {
                        assert forall|q: Seq<Option<usize>>|
                            #[trigger] self.valid_choice(q) && q.subrange(0, slot as int) == path && q[slot as int] == Some(c)
                                implies st.best->Some_0.cost <= self.path_cost(q) by {
                            assert(q.subrange(0, slot + 1) == next);
                            if !promising {
                                let b = best_before->Some_0;
                                crate::model::lemma_distinct_classes_monotone(q, slot + 1, self.time_slots as int);
                                assert(q.subrange(0, self.time_slots as int) == q);
                                let sc = self.spec_scale();
                                let dq = distinct_classes(q);
                                let dn = distinct_classes(next);
                                assert(dn * sc <= dq * sc) by (nonlinear_arith)
                                    requires
                                        dn <= dq,
                                ;
                                assert(self.path_cost(q) >= dq * sc);
                            }
                        }
                    }
                }
                st.current.set(slot, None);
                st.subject_counts.set(subject, old_count);
                if was_new {
                    st.used_classes.pop();
                }
                assert(st.current@ =~= cur0);
                assert(st.subject_counts@ =~= counts0);
                assert(st.used_classes@ =~= used0);
                if !promising {
                    assert(st.best is Some);
                }
                proof {
                    if first && best0 is None {
                        assert(self.first_class(slot as int, c as int + 1) == Some(c));
                        assert(self.greedy()[slot as int] == Some(c));
                        assert(next + self.greedy().subrange(slot + 1, self.time_slots as int)
                            =~= path + self.greedy().subrange(slot as int, self.time_slots as int));
                    }
                }
                assigned = true;
            }
            c += 1;
        }
        proof {
            if assigned {
                assert forall|q: Seq<Option<usize>>| #[trigger] self.valid_choice(q) && q.subrange(0, slot as int) == path implies st.best->Some_0.cost <= self.path_cost(q) by {
                    if q[slot as int] is None {
                        let k = choose|k: int| 0 <= k < self.classes && #[trigger] cells[k][slot as int] is Some;
                        assert(self.slot_free(slot as int));
                        assert(cells[k][slot as int] is None);
                    }
                }
            }
        }
        if !assigned {
            assert(self.slot_free(slot as int));
            let ghost next = path.push(None);
            assert(next.drop_last() == path);
            assert(picked(cells, next).drop_last() =~= picked(cells, path));
            proof {
                assert forall|s: int| 0 <= s < next.len() implies #[trigger] st.current@[s] == lessons(picked(cells, next))[s] by {
                    if s < slot {
                        assert(picked(cells, path)[s] == picked(cells, next)[s]);
                    }
                }
                assert forall|x: usize| st.used_classes@.contains(x) <==> next.contains(Some(x)) by {
                    if next.contains(Some(x)) {
                        let k = choose|k: int| 0 <= k < next.len() && next[k] == Some(x);
                        assert(path[k] == Some(x));
                    }
                    if path.contains(Some(x)) {
                        let k = choose|k: int| 0 <= k < path.len() && path[k] == Some(x);
                        assert(next[k] == Some(x));
                    }
                }
                assert forall|j: int| 0 <= j < self.subjects() implies #[trigger] st.subject_counts@[j] == subject_count(picked(cells, next), j) by {
                }
                assert(self.state_wf(*st, next));
            }
            self.search(slot + 1, st, sink, Ghost(next));
            proof {
                if st.best != best0 {
                    let ch = st.best->Some_0.choice@;
                    assert(ch.subrange(0, slot as int) == ch.subrange(0, slot + 1).subrange(0, slot as int));
                    assert(next.subrange(0, slot as int) == path);
                }
                assert(self.greedy()[slot as int] is None);
                assert(next + self.greedy().subrange(slot + 1, self.time_slots as int)
                    =~= path + self.greedy().subrange(slot as int, self.time_slots as int));
                {
                    assert forall|q: Seq<Option<usize>>| #[trigger] self.valid_choice(q) && q.subrange(0, slot as int) == path implies st.best->Some_0.cost <= self.path_cost(q) by {
                        if q[slot as int] is Some {
                            let k = q[slot as int]->Some_0;
                            assert(cells[k as int][slot as int] is Some);
                        }
                        assert(q.subrange(0, slot + 1) == next);
                    }
                }
            }
        }
        st.nodes_visited = st.nodes_visited.saturating_add(1);
    }
}

impl Problem {
    /// Runs the whole search and returns the best complete assignment it found: exactly
    /// the result of `dfs` from the empty path. That is a valid choice for every slot,
    /// of least cost among all valid choices, and so never worse than the path that takes
    /// the first class with a lesson in every slot.
    pub fn solve<S: ProgressSink>(&self, sink: &mut S) -> (r: Solution)
        requires
            self.wf(),
        ensures
            self.solution_wf(r),
            forall|q: Seq<Option<usize>>| #[trigger] self.valid_choice(q) ==> r.cost <= self.path_cost(q),
            r.cost <= self.path_cost(self.greedy()),
            incumbent(Some(r)) == self.dfs(Seq::empty(), None),
            r.choice@ == self.search_result(),
    {
        let mut current: Vec<Option<usize>> = Vec::new();
        let mut i: usize = 0;
        while i < self.time_slots
            invariant
                i <= self.time_slots,
                current@.len() == i,
                forall|k: int| 0 <= k < i ==> #[trigger] current@[k] is None,
            decreases self.time_slots - i,
        {
            current.push(None);
            i += 1;
        }
        let mut subject_counts: Vec<usize> = Vec::new();
        let mut j: usize = 0;
        while j < self.weights.len()
            invariant
                j <= self.weights@.len(),
                subject_counts@.len() == j,
                forall|k: int| 0 <= k < j ==> #[trigger] subject_counts@[k] == 0,
            decreases self.weights@.len() - j,
        {
            subject_counts.push(0);
            j += 1;
        }
        let mut st = SearchState { current, used_classes: Vec::new(), subject_counts, best: None, nodes_visited: 0 };
        let ghost path = Seq::<Option<usize>>::empty();
        assert(self.state_wf(st, path)) by {
            assert forall|j: int| 0 <= j < self.subjects() implies #[trigger] st.subject_counts@[j] == subject_count(picked(self.cells(), path), j) by {
                assert(picked(self.cells(), path).len() == 0);
            }
        }
        self.search(0, &mut st, sink, Ghost(path));
        assert forall|q: Seq<Option<usize>>| #[trigger] self.valid_choice(q) implies q.subrange(0, 0) == path by {
            assert(q.subrange(0, 0) =~= path);
        }
        assert(path + self.greedy().subrange(0, self.time_slots as int) =~= self.greedy());
        match st.best {
            Some(b) => b,
            None => {
                assert(false);
                Solution { assignments: Vec::new(), cost: 0, classes: 0, choice: Ghost(path) }
            },
        }
    }
}

proof fn lemma_all_class_zero(ch: Seq<Option<usize>>)
    requires
        ch.len() >= 1,
        forall|s: int| 0 <= s < ch.len() ==> #[trigger] ch[s] == Some(0usize),
    ensures
        distinct_classes(ch) == 1,
    decreases ch.len(),
{
    if ch.len() > 1 {
        lemma_all_class_zero(ch.drop_last());
        assert(ch.drop_last()[0] == Some(0usize));
        assert(ch.last() == Some(0usize));
    } else {
        assert(ch.last() == Some(0usize));
        assert(!ch.drop_last().contains(Some(0usize)));
        assert(distinct_classes(ch.drop_last()) == 0);
    }
}

proof fn lemma_all_subject_zero(p: Seq<Cell>)
    requires
        forall|s: int| 0 <= s < p.len() ==> #[trigger] p[s] is Some && p[s]->Some_0.0 == 0,
    ensures
        subject_count(p, 0) == p.len(),
    decreases p.len(),
{
    if p.len() > 0 {
        lemma_all_subject_zero(p.drop_last());
    }
}

impl Problem {
    /// With one class that teaches the single requested subject in every slot, the only
    /// complete choice takes that class everywhere, and its cost is exactly one unit:
    /// one distinct class and no imbalance.
    pub proof fn lemma_single_class(&self, ch: Seq<Option<usize>>)
        requires
            self.wf(),
            self.classes == 1,
            self.subjects() == 1,
            forall|s: int| 0 <= s < self.time_slots ==> #[trigger] self.cells()[0][s] is Some,
            self.valid_choice(ch),
        ensures
            forall|s: int| 0 <= s < self.time_slots ==> #[trigger] ch[s] == Some(0usize),
            lessons(picked(self.cells(), ch)) == Seq::new(self.time_slots as nat, |s: int| Some(self.cells()[0][s]->Some_0.1)),
            self.path_cost(ch) == self.spec_scale(),
    {
        let cells = self.cells();
        assert forall|s: int| 0 <= s < self.time_slots implies #[trigger] ch[s] == Some(0usize) by {
            assert(cells[0][s] is Some);
            if ch[s] is None {
                assert(self.slot_free(s));
            }
        }
        lemma_all_class_zero(ch);
        let p = picked(cells, ch);
        assert forall|s: int| 0 <= s < p.len() implies #[trigger] p[s] is Some && p[s]->Some_0.0 == 0 by {
            assert(ch[s] == Some(0usize));
            assert(cells[0][s] is Some);
        }
        lemma_all_subject_zero(p);
        assert(lessons(p) =~= Seq::new(self.time_slots as nat, |s: int| Some(cells[0][s]->Some_0.1)));
        let counts = self.counts_of(p);
        assert(weight_sum(self.weights@) == self.weights@[0]) by {
            assert(self.weights@.drop_last().len() == 0);
            assert(weight_sum(self.weights@.drop_last()) == 0);
        }
        assert(counts[0] == self.time_slots);
        assert(counts[0] * self.weight_den - self.time_slots * self.weights@[0] == 0);
        assert(self.deviation(0, counts[0]) == 0);
        assert(self.imbalance(counts, 0) == 0);
        assert(self.imbalance(counts, 1) == 0);
    }

    /// A slot where no class has a lesson stays unassigned in every complete choice, and
    /// adds nothing to the class count or to any subject count.
    pub proof fn lemma_empty_slot(&self, ch: Seq<Option<usize>>, s: int)
        requires
            self.wf(),
            self.valid_choice(ch),
            0 <= s < self.time_slots,
            self.slot_free(s),
        ensures
            ch[s] is None,
            lessons(picked(self.cells(), ch))[s] is None,
            distinct_classes(ch.subrange(0, s + 1)) == distinct_classes(ch.subrange(0, s)),
            forall|j: int| #[trigger] subject_count(picked(self.cells(), ch.subrange(0, s + 1)), j)
                == subject_count(picked(self.cells(), ch.subrange(0, s)), j),
    {
        let cells = self.cells();
        if ch[s] is Some {
            let c = ch[s]->Some_0;
            assert(cells[c as int][s] is None);
        }
        assert(ch.subrange(0, s + 1).drop_last() == ch.subrange(0, s));
        assert(picked(cells, ch.subrange(0, s + 1)).drop_last() =~= picked(cells, ch.subrange(0, s)));
    }
}

/// A best solution with its cost multiplied by `m`.
pub open spec fn scaled_best(b: Option<(Seq<Option<usize>>, nat, nat)>, m: nat) -> Option<(Seq<Option<usize>>, nat, nat)> {
    match b {
        Some(x) => Some((x.0, m * x.1, x.2)),
        None => None,
    }
}

/// `q` has `p`'s matrix and shape, and every path costs `m` times as much in `q`.
pub open spec fn costs_scaled(p: Problem, q: Problem, m: nat) -> bool {
    &&& m >= 1
    &&& q.spec_scale() == m * p.spec_scale()
    &&& q.cells() == p.cells()
    &&& q.time_slots == p.time_slots
    &&& q.classes == p.classes
    &&& forall|ch: Seq<Option<usize>>| #[trigger] q.path_cost(ch) == m * p.path_cost(ch)
}

proof fn lemma_scaled_less(a: nat, b: nat, m: nat)
    requires
        m >= 1,
    ensures
        (m * a < m * b) == (a < b),
{
    if a < b {
        assert(m * a < m * b) by (nonlinear_arith)
            requires
                m >= 1,
                a < b,
        ;
    } else {
        assert(m * a >= m * b) by (nonlinear_arith)
            requires
                m >= 1,
                a >= b,
        ;
    }
}

/// Scaling every path cost by the same factor leaves the search's choices as they are.
pub proof fn lemma_dfs_scaled(p: Problem, q: Problem, m: nat, path: Seq<Option<usize>>, b: Option<(Seq<Option<usize>>, nat, nat)>)
    requires
        costs_scaled(p, q, m),
    ensures
        q.dfs(path, scaled_best(b, m)) == scaled_best(p.dfs(path, b), m),
    decreases p.time_slots - path.len(), p.classes + 1,
{
    if path.len() >= p.time_slots {
        if b is Some {
            lemma_scaled_less(p.path_cost(path), b->Some_0.1, m);
        }
    } else if p.slot_free(path.len() as int) {
        assert(q.slot_free(path.len() as int));
        lemma_dfs_scaled(p, q, m, path.push(None), b);
    } else {
        assert(!q.slot_free(path.len() as int));
        lemma_dfs_classes_scaled(p, q, m, path, 0, b);
    }
}

pub proof fn lemma_dfs_classes_scaled(p: Problem, q: Problem, m: nat, path: Seq<Option<usize>>, c: int, b: Option<(Seq<Option<usize>>, nat, nat)>)
    requires
        costs_scaled(p, q, m),
    ensures
        q.dfs_classes(path, c, scaled_best(b, m)) == scaled_best(p.dfs_classes(path, c, b), m),
    decreases p.time_slots - path.len(), p.classes - c,
{
    if path.len() >= p.time_slots || c >= p.classes || c < 0 {
    } else {
        let next = path.push(Some(c as usize));
        if b is Some {
            lemma_scaled_less(p.path_cost(next), b->Some_0.1, m);
        }
        if b is Some {
            let d = distinct_classes(next);
            lemma_scaled_less(d * p.spec_scale(), b->Some_0.1, m);
            assert(d * q.spec_scale() == m * (d * p.spec_scale())) by (nonlinear_arith)
                requires
                    q.spec_scale() == m * p.spec_scale(),
            ;
        }
        assert(q.promising(next, scaled_best(b, m)) == p.promising(next, b));
        let tried = if p.cells()[c][path.len() as int] is Some && p.promising(next, b) {
            lemma_dfs_scaled(p, q, m, next, b);
            p.dfs(next, b)
        } else {
            b
        };
        lemma_dfs_classes_scaled(p, q, m, path, c + 1, tried);
    }
}

pub open spec fn power(k: nat, n: nat) -> nat
    decreases n,
{
    if n == 0 {
        1
    } else {
        k * power(k, (n - 1) as nat)
    }
}

proof fn lemma_power_pos(k: nat, n: nat)
    requires
        k >= 1,
    ensures
        power(k, n) >= 1,
    decreases n,
{
    if n > 0 {
        lemma_power_pos(k, (n - 1) as nat);
        let a = power(k, (n - 1) as nat);
        assert(k * a >= 1) by (nonlinear_arith)
            requires
                k >= 1,
                a >= 1,
        ;
    }
}

proof fn lemma_product_scaled(s: Seq<u64>, t: Seq<u64>, k: nat)
    requires
        s.len() == t.len(),
        forall|j: int| 0 <= j < s.len() ==> t[j] == k * s[j],
    ensures
        weight_product(t) == power(k, s.len()) * weight_product(s),
    decreases s.len(),
{
    if s.len() > 0 {
        lemma_product_scaled(s.drop_last(), t.drop_last(), k);
        let a = weight_product(s.drop_last());
        let pk = power(k, (s.len() - 1) as nat);
        let x = s.last() as nat;
        let b = weight_product(t.drop_last());
        assert(t.last() == k * x);
        assert(weight_product(t) == b * (k * x));
        assert(weight_product(s) == a * x);
        assert(power(k, s.len()) == k * pk);
        assert(b * (k * x) == (k * pk) * (a * x)) by (nonlinear_arith)
            requires
                b == pk * a,
        ;
        assert(weight_product(t) == power(k, s.len()) * weight_product(s));
    } else {
        assert(weight_product(t) == 1);
        assert(weight_product(s) == 1);
        assert(power(k, s.len()) == 1);
    }
}

impl Problem {
    proof fn lemma_cost_scaled(p: Problem, q: Problem, k: nat)
        requires
            p.wf(),
            q.wf(),
            k >= 1,
            q.cells() == p.cells(),
            q.time_slots == p.time_slots,
            q.classes == p.classes,
            q.config == p.config,
            q.weights@.len() == p.weights@.len(),
            forall|j: int| 0 <= j < p.weights@.len() ==> q.weights@[j] == k * p.weights@[j],
            q.weight_den == k * p.weight_den,
        ensures
            costs_scaled(p, q, power(k, p.subjects())),
    {
        let n = p.subjects();
        let m = power(k, n);
        let km = power(k, (n - 1) as nat);
        assert(m == k * km);
        lemma_power_pos(k, n);
        lemma_product_scaled(p.weights@, q.weights@, k);
        assert(q.spec_scale() == m * p.spec_scale()) by (nonlinear_arith)
            requires
                q.spec_scale() == q.config.balance_den as nat * q.time_slots as nat * weight_product(q.weights@),
                p.spec_scale() == p.config.balance_den as nat * p.time_slots as nat * weight_product(p.weights@),
                weight_product(q.weights@) == m * weight_product(p.weights@),
                q.config.balance_den == p.config.balance_den,
                q.time_slots == p.time_slots,
        ;
        assert forall|j: int| 0 <= j < n implies #[trigger] q.factor(j) == km * p.factor(j) by {
            lemma_factor_exact(p.weights@, j);
            let f = p.factor(j);
            let r = p.weights@[j] as nat;
            let big = weight_product(p.weights@);
            assert(f * r == big);
            assert(weight_product(q.weights@) == (km * f) * (k * r)) by (nonlinear_arith)
                requires
                    weight_product(q.weights@) == m * big,
                    m == k * km,
                    f * r == big,
            ;
            assert(km * f >= 0) by (nonlinear_arith);
            assert(k * r > 0) by (nonlinear_arith)
                requires
                    k >= 1,
                    r >= 1,
            ;
            vstd::arithmetic::div_mod::lemma_div_by_multiple((km * f) as int, (k * r) as int);
        }
        assert forall|counts: Seq<int>, i: int| 0 <= i <= n implies #[trigger] q.imbalance(counts, i) == m * p.imbalance(counts, i) by {
            p.lemma_imbalance_scaled(q, k, counts, i);
        }
        assert forall|ch: Seq<Option<usize>>| #[trigger] q.path_cost(ch) == m * p.path_cost(ch) by {
            let pc = picked(p.cells(), ch);
            assert(q.counts_of(pc) == p.counts_of(pc));
            let cs = p.counts_of(pc);
            let d = distinct_classes(ch);
            assert(q.imbalance(cs, n as int) == m * p.imbalance(cs, n as int));
            let bn = p.config.balance_num as nat;
            assert(d * q.spec_scale() + bn * q.imbalance(cs, n as int) == m * (d * p.spec_scale() + bn * p.imbalance(cs, n as int)))
                by (nonlinear_arith)
                requires
                    q.spec_scale() == m * p.spec_scale(),
                    q.imbalance(cs, n as int) == m * p.imbalance(cs, n as int),
            ;
        }
    }

    proof fn lemma_imbalance_scaled(self, q: Problem, k: nat, counts: Seq<int>, i: int)
        requires
            self.wf(),
            k >= 1,
            q.time_slots == self.time_slots,
            q.weights@.len() == self.weights@.len(),
            forall|j: int| 0 <= j < self.weights@.len() ==> q.weights@[j] == k * self.weights@[j],
            q.weight_den == k * self.weight_den,
            forall|j: int| 0 <= j < self.subjects() ==> #[trigger] q.factor(j) == power(k, (self.subjects() - 1) as nat) * self.factor(j),
            0 <= i <= self.subjects(),
        ensures
            q.imbalance(counts, i) == power(k, self.subjects()) * self.imbalance(counts, i),
        decreases i,
    {
        let n = self.subjects();
        let m = power(k, n);
        let km = power(k, (n - 1) as nat);
        if i > 0 {
            assert(m == k * km);
            self.lemma_imbalance_scaled(q, k, counts, i - 1);
            let j = i - 1;
            let c = counts[j];
            let big_r = self.weight_den as int;
            let t = self.time_slots as int;
            let r = self.weights@[j] as int;
            let d = c * big_r - t * r;
            assert(c * (k * big_r) - t * (k * r) == k * d) by (nonlinear_arith)
                requires
                    d == c * big_r - t * r,
            ;
            let dp = self.deviation(j, c);
            let dq = q.deviation(j, c);
            assert(dq == k * dp) by (nonlinear_arith)
                requires
                    dp == (if d < 0 { -d } else { d }),
                    dq == (if k * d < 0 { -(k * d) } else { k * d }),
                    k >= 1,
            ;
            let f = self.factor(j);
            assert(dq * q.factor(j) == m * (dp * f)) by (nonlinear_arith)
                requires
                    dq == k * dp,
                    q.factor(j) == km * f,
                    m == k * km,
            ;
            assert(q.imbalance(counts, i) == m * self.imbalance(counts, i)) by (nonlinear_arith)
                requires
                    q.imbalance(counts, i) == q.imbalance(counts, i - 1) + dq * q.factor(j),
                    self.imbalance(counts, i) == self.imbalance(counts, i - 1) + dp * f,
                    q.imbalance(counts, i - 1) == m * self.imbalance(counts, i - 1),
                    dq * q.factor(j) == m * (dp * f),
            ;
        } else {
            assert(m * 0 == 0) by (nonlinear_arith);
        }
    }
}

/// Scaling all subject weights by the same factor does not change which schedule the
/// search returns: every cost is scaled alike, so every comparison comes out the same.
pub proof fn lemma_scaled_weights(p: Problem, q: Problem, k: nat)
    requires
        p.wf(),
        q.wf(),
        k >= 1,
        q.cells() == p.cells(),
        q.time_slots == p.time_slots,
        q.classes == p.classes,
        q.config == p.config,
        q.weights@.len() == p.weights@.len(),
        forall|j: int| 0 <= j < p.weights@.len() ==> q.weights@[j] == k * p.weights@[j],
        q.weight_den == k * p.weight_den,
    ensures
        q.search_result() == p.search_result(),
{
    Problem::lemma_cost_scaled(p, q, k);
    lemma_dfs_scaled(p, q, power(k, p.subjects()), Seq::empty(), None);
}

} // verus!

//! The cost-model search for the cheapest limb decomposition.
use vstd::prelude::*;

verus! {

/// Safety margin, in bits, kept free for accumulating limb products.
pub const SURFEIT: usize = 10;

/// How a target-field element is split into limbs.
#[derive(Clone, Copy, PartialEq, Eq, Debug, Structural)]
pub struct NonNativeFieldParams {
    /// Number of limbs.
    pub num_limbs: usize,
    /// Width of each limb, in bits.
    pub bits_per_limb: usize,
}

/// Which cost formula the search minimizes.
#[derive(Clone, Copy, PartialEq, Eq, Debug, Structural)]
pub enum OptimizationType {
    /// Minimize the number of constraints.
    Constraints,
    /// Minimize the density of the constraints.
    Density,
}

/// Why no decomposition could be produced.
#[derive(Clone, Copy, PartialEq, Eq, Debug, Structural)]
pub enum ParamsError {
    /// The base field leaves no room for limbs beside the safety margin.
    BaseFieldTooSmall,
    /// The target field has no bits to represent.
    EmptyTargetField,
}

/// Bits of a base-field element usable for a product of two limbs.
pub open spec fn usable_bits(base: int) -> int {
    base - 1 - SURFEIT - 1
}

/// Largest limb width that is tried.
pub open spec fn max_limb_size(base: int) -> int {
    usable_bits(base) / 2
}

/// A limb width in the searched range.
pub open spec fn is_candidate(base: int, limb: int) -> bool {
    1 <= limb <= max_limb_size(base)
}

/// Number of limbs of width `limb` needed for `target` bits: the ceiling of the quotient.
pub open spec fn num_limbs_for(target: int, limb: int) -> int {
    (target + limb - 1) / limb
}

/// How many limb products can be added up before a range check.
pub open spec fn group_size(base: int, limb: int) -> int {
    usable_bits(base) / (2 * limb)
}

/// How many groups the `2 * num_limbs - 1` product limbs fall into.
pub open spec fn num_groups(base: int, target: int, limb: int) -> int {
    let n = num_limbs_for(target, limb);
    let g = group_size(base, limb);
    (2 * n - 1 + g - 1) / g
}

/// The cost of limb width `limb` under the chosen goal.
pub open spec fn cost(base: int, target: int, limb: int, goal: OptimizationType) -> int {
    let n = num_limbs_for(target, limb);
    let ng = num_groups(base, target, limb);
    let overhead = (ng - 1) * (2 * limb + 1 + 2 * SURFEIT);
    match goal {
        OptimizationType::Constraints => (2 * n - 1) + ng + overhead + 1,
        OptimizationType::Density => n * n / 2 + 3 * ng + overhead + 2,
    }
}

/// The base field leaves room beside the safety margin, and the target has bits
/// to represent.
pub open spec fn search_defined(base: int, target: int) -> bool {
    base > 2 * SURFEIT + 3 && target >= 1
}

/// `limb` has the least cost of all candidates, and every smaller candidate costs more.
pub open spec fn is_best_limb_size(base: int, target: int, goal: OptimizationType, limb: int) -> bool {
    &&& is_candidate(base, limb)
    &&& forall|j: int| #[trigger] is_candidate(base, j) ==> cost(base, target, limb, goal) <= cost(base, target, j, goal)
    &&& forall|j: int| 1 <= j < limb ==> cost(base, target, limb, goal) < #[trigger] cost(base, target, j, goal)
}

/// The limb width that the search settles on.
pub open spec fn best_limb_size(base: int, target: int, goal: OptimizationType) -> int {
    choose|limb: int| is_best_limb_size(base, target, goal, limb)
}

/// The decomposition that the search settles on.
pub open spec fn optimal_params(base: int, target: int, goal: OptimizationType) -> NonNativeFieldParams {
    let limb = best_limb_size(base, target, goal);
    NonNativeFieldParams { num_limbs: num_limbs_for(target, limb) as usize, bits_per_limb: limb as usize }
}

/// What the guarded search returns.
pub open spec fn gen_params_result(base: int, target: int, goal: OptimizationType) -> Result<NonNativeFieldParams, ParamsError> {
    if base <= 2 * SURFEIT + 3 {
        Err(ParamsError::BaseFieldTooSmall)
    } else if target < 1 {
        Err(ParamsError::EmptyTargetField)
    } else {
        Ok(optimal_params(base, target, goal))
    }
}

/// Two limb widths that both meet the optimality conditions are the same: the
/// search's outcome is fixed by its inputs.
pub proof fn lemma_best_limb_size_unique(base: int, target: int, goal: OptimizationType, a: int, b: int)
    requires
        is_best_limb_size(base, target, goal, a),
        is_best_limb_size(base, target, goal, b),
    ensures
        a == b,
{
    if a < b {
        assert(cost(base, target, b, goal) < cost(base, target, a, goal));
        assert(is_candidate(base, b));
    } else if b < a {
        assert(cost(base, target, a, goal) < cost(base, target, b, goal));
        assert(is_candidate(base, a));
    }
}

/// Bounds on the quantities of one candidate, enough to compute its cost in `u128`.
proof fn lemma_candidate_bounds(base: int, target: int, limb: int)
    requires
        1 <= target <= u64::MAX,
        is_candidate(base, limb),
    ensures
        1 <= num_limbs_for(target, limb) <= target,
        group_size(base, limb) >= 1,
        1 <= num_groups(base, target, limb) <= 2 * num_limbs_for(target, limb) - 1,
        (num_groups(base, target, limb) - 1) * (2 * limb + 1 + 2 * SURFEIT) <= 46 * target,
        num_limbs_for(target, limb) * num_limbs_for(target, limb) <= u64::MAX * u64::MAX,
{
    let n = num_limbs_for(target, limb);
    let g = group_size(base, limb);
    let ng = num_groups(base, target, limb);
    let u = usable_bits(base);
    assert(n * limb <= target + limb - 1 && (target + limb - 1) < (n + 1) * limb) by {
        vstd::arithmetic::div_mod::lemma_fundamental_div_mod(target + limb - 1, limb);
        vstd::arithmetic::div_mod::lemma_mod_bound(target + limb - 1, limb);
        vstd::arithmetic::mul::lemma_mul_is_distributive_add_other_way(limb, n, 1);
    }
    assert(1 <= n) by (nonlinear_arith)
        requires n * limb <= target + limb - 1, target + limb - 1 < (n + 1) * limb, target >= 1, limb >= 1;
    assert(n <= target) by (nonlinear_arith)
        requires n * limb <= target + limb - 1, target >= 1, limb >= 1, n >= 1;
    assert(g >= 1) by {
        vstd::arithmetic::div_mod::lemma_div_is_ordered(2 * limb, u, 2 * limb);
        vstd::arithmetic::div_mod::lemma_div_by_self(2 * limb);
    }
    assert(1 <= ng <= 2 * n - 1) by {
        vstd::arithmetic::div_mod::lemma_div_is_ordered(g, 2 * n - 1 + g - 1, g);
        vstd::arithmetic::div_mod::lemma_div_by_self(g);
        vstd::arithmetic::div_mod::lemma_fundamental_div_mod(2 * n - 1 + g - 1, g);
        vstd::arithmetic::div_mod::lemma_mod_bound(2 * n - 1 + g - 1, g);
        assert(g * ng <= 2 * n - 1 + g - 1);
        assert(ng <= 2 * n - 1) by (nonlinear_arith)
            requires g * ng <= 2 * n - 1 + g - 1, g >= 1, ng >= 1, n >= 1;
    }
    assert((ng - 1) * (2 * limb + 21) <= 46 * target) by (nonlinear_arith)
        requires 1 <= ng <= 2 * n - 1, n * limb <= target + limb - 1, 1 <= n <= target, limb >= 1;
    assert(n * n <= u64::MAX * u64::MAX) by (nonlinear_arith)
        requires 1 <= n <= u64::MAX;
}

/// The cost of limb width `limb`, with the number of limbs it needs.
fn candidate_cost(base: usize, target: usize, limb: usize, goal: OptimizationType) -> (r: (u128, usize))
    requires
        target >= 1,
        is_candidate(base as int, limb as int),
    ensures
        r.0 == cost(base as int, target as int, limb as int, goal),
        r.1 == num_limbs_for(target as int, limb as int),
{
    proof {
        lemma_candidate_bounds(base as int, target as int, limb as int);
    }
    let b = base as u128;
    let t = target as u128;
    let l = limb as u128;
    let s = SURFEIT as u128;
    let num_of_limbs = (t + l - 1) / l;
    let group_size = (b - 1 - s - 1) / (2 * l);
    let num_of_groups = (2 * num_of_limbs - 1 + group_size - 1) / group_size;
    let overhead = (num_of_groups - 1) * (l * 2 + 1 + 2 * s);
    let this_cost = match goal {
        OptimizationType::Constraints => (2 * num_of_limbs - 1) + num_of_groups + overhead + 1,
        OptimizationType::Density => {
            assert(num_of_limbs * num_of_limbs / 2 <= u64::MAX * u64::MAX / 2);
            num_of_limbs * num_of_limbs / 2 + 3 * num_of_groups + overhead + 2
        },
    };
    (this_cost, num_of_limbs as usize)
}

/// A search instance: the problem and, once solved, its solution.
#[derive(Clone, Debug)]
pub struct ParamsSearching {
    /// Bit length of the base field's prime.
    pub base_field_prime_length: usize,
    /// Bit length of the target field's prime.
    pub target_field_prime_bit_length: usize,
    /// Constraints or density.
    pub optimization_type: OptimizationType,
    /// Number of limbs of the solution.
    pub num_of_limbs: Option<usize>,
    /// Width of a limb of the solution.
    pub limb_size: Option<usize>,
}

impl ParamsSearching {
    /// Create the search problem, not yet solved.
    pub fn new(
        base_field_prime_length: usize,
        target_field_prime_bit_length: usize,
        optimization_type: OptimizationType,
    ) -> (r: Self)
        ensures
            r.base_field_prime_length == base_field_prime_length,
            r.target_field_prime_bit_length == target_field_prime_bit_length,
            r.optimization_type == optimization_type,
            r.num_of_limbs.is_none(),
            r.limb_size.is_none(),
    {
        ParamsSearching {
            base_field_prime_length,
            target_field_prime_bit_length,
            optimization_type,
            num_of_limbs: None,
            limb_size: None,
        }
    }

    /// Solve the search problem: try every limb width of the range and keep the
    /// first one of least cost. Where the base field has at most `2 * SURFEIT + 3`
    /// bits or the target has no bits, the solution stays unset.
    pub fn solve(&mut self)
        ensures
            final(self).base_field_prime_length == old(self).base_field_prime_length,
            final(self).target_field_prime_bit_length == old(self).target_field_prime_bit_length,
            final(self).optimization_type == old(self).optimization_type,
            ({
                let base = old(self).base_field_prime_length as int;
                let target = old(self).target_field_prime_bit_length as int;
                let goal = old(self).optimization_type;
                if search_defined(base, target) {
                    &&& final(self).limb_size == Some(optimal_params(base, target, goal).bits_per_limb)
                    &&& final(self).num_of_limbs == Some(optimal_params(base, target, goal).num_limbs)
                    &&& is_best_limb_size(base, target, goal, best_limb_size(base, target, goal))
                    &&& optimal_params(base, target, goal).bits_per_limb == best_limb_size(base, target, goal)
                    &&& optimal_params(base, target, goal).num_limbs
                        == num_limbs_for(target, best_limb_size(base, target, goal))
                } else {
                    final(self).limb_size.is_none() && final(self).num_of_limbs.is_none()
                }
            }),
    {
        let base = self.base_field_prime_length;
        let target = self.target_field_prime_bit_length;
        let goal = self.optimization_type;
        let mut min_cost: Option<u128> = None;
        let mut min_cost_limb_size: Option<usize> = None;
        let mut min_cost_num_of_limbs: Option<usize> = None;

        if base <= 2 * SURFEIT + 3 || target == 0 {
            self.num_of_limbs = None;
            self.limb_size = None;
            return;
        }
        let max_limb = (base - 1 - SURFEIT - 1) / 2;
        let mut limb_size: usize = 1;
        while limb_size <= max_limb
            invariant
                1 <= limb_size <= max_limb + 1,
                max_limb == max_limb_size(base as int),
                target >= 1,
                limb_size == 1 ==> min_cost.is_none() && min_cost_limb_size.is_none()
                    && min_cost_num_of_limbs.is_none(),
                limb_size > 1 ==> {
                    &&& min_cost matches Some(c)
                    &&& min_cost_limb_size matches Some(best)
                    &&& min_cost_num_of_limbs matches Some(n)
                    &&& 1 <= best < limb_size
                    &&& c == cost(base as int, target as int, best as int, goal)
                    &&& n == num_limbs_for(target as int, best as int)
                    &&& forall|j: int| 1 <= j < limb_size ==> c <= #[trigger] cost(base as int, target as int, j, goal)
                    &&& forall|j: int| 1 <= j < best ==> c < #[trigger] cost(base as int, target as int, j, goal)
                },
            decreases max_limb + 1 - limb_size,
        {
            let (this_cost, num_of_limbs) = candidate_cost(base, target, limb_size, goal);
            let improves = match min_cost {
                None => true,
                Some(c) => this_cost < c,
            };
            if improves {
                min_cost = Some(this_cost);
                min_cost_limb_size = Some(limb_size);
                min_cost_num_of_limbs = Some(num_of_limbs);
            }
            limb_size = limb_size + 1;
        }
        proof {
            let best = min_cost_limb_size.unwrap() as int;
            assert(is_best_limb_size(base as int, target as int, goal, best));
            lemma_best_limb_size_unique(base as int, target as int, goal, best,
                best_limb_size(base as int, target as int, goal));
        }
        self.num_of_limbs = min_cost_num_of_limbs;
        self.limb_size = min_cost_limb_size;
    }
}

/// Compute the decomposition for a base field of `base_bits` bits and a target
/// field of `target_bits` bits, without any cache. A base field of at most
/// `2 * SURFEIT + 3` bits is refused, as is a target field of no bits.
pub fn gen_params(base_bits: usize, target_bits: usize, goal: OptimizationType) -> (r: Result<
    NonNativeFieldParams,
    ParamsError,
>)
    ensures
        r == gen_params_result(base_bits as int, target_bits as int, goal),
        r matches Ok(p) ==> {
            &&& p.num_limbs * p.bits_per_limb >= target_bits
            &&& is_best_limb_size(base_bits as int, target_bits as int, goal, p.bits_per_limb as int)
        },
{
    if base_bits <= 2 * SURFEIT + 3 {
        return Err(ParamsError::BaseFieldTooSmall);
    }
    if target_bits == 0 {
        return Err(ParamsError::EmptyTargetField);
    }
    let mut problem = ParamsSearching::new(base_bits, target_bits, goal);
    problem.solve();
    let params = NonNativeFieldParams {
        num_limbs: problem.num_of_limbs.unwrap(),
        bits_per_limb: problem.limb_size.unwrap(),
    };
    proof {
        lemma_capacity(target_bits as int, params.bits_per_limb as int);
    }
    Ok(params)
}

/// Enough limbs: `num_limbs_for(target, limb)` limbs of width `limb` hold `target` bits.
pub proof fn lemma_capacity(target: int, limb: int)
    requires
        target >= 0,
        limb >= 1,
    ensures
        num_limbs_for(target, limb) * limb >= target,
{
    vstd::arithmetic::div_mod::lemma_fundamental_div_mod(target + limb - 1, limb);
    vstd::arithmetic::div_mod::lemma_mod_bound(target + limb - 1, limb);
    vstd::arithmetic::mul::lemma_mul_is_commutative(limb, num_limbs_for(target, limb));
}

/// The first limb width of least cost among `1..=k`.
pub open spec fn best_up_to(base: int, target: int, goal: OptimizationType, k: int) -> int
    decreases k,
{
    if k <= 1 {
        1
    } else {
        let prev = best_up_to(base, target, goal, k - 1);
        if cost(base, target, k, goal) < cost(base, target, prev, goal) {
            k
        } else {
            prev
        }
    }
}

proof fn lemma_best_up_to(base: int, target: int, goal: OptimizationType, k: int)
    requires
        k >= 1,
    ensures
        1 <= best_up_to(base, target, goal, k) <= k,
        forall|j: int| 1 <= j <= k ==> cost(base, target, best_up_to(base, target, goal, k), goal)
            <= #[trigger] cost(base, target, j, goal),
        forall|j: int| 1 <= j < best_up_to(base, target, goal, k) ==> cost(base, target, best_up_to(base, target, goal, k), goal)
            < #[trigger] cost(base, target, j, goal),
    decreases k,
{
    if k > 1 {
        lemma_best_up_to(base, target, goal, k - 1);
    }
}

/// Where the search is defined, an optimal limb width exists, and the chosen one is it.
pub proof fn lemma_best_limb_size_exists(base: int, target: int, goal: OptimizationType)
    requires
        search_defined(base, target),
    ensures
        is_best_limb_size(base, target, goal, best_limb_size(base, target, goal)),
{
    let k = max_limb_size(base);
    lemma_best_up_to(base, target, goal, k);
    assert(is_best_limb_size(base, target, goal, best_up_to(base, target, goal, k)));
}

/// Every decomposition that the search returns has room for the whole target:
/// `num_limbs * bits_per_limb >= target_bits`.
pub proof fn lemma_capacity_invariant(base_bits: usize, target_bits: usize, goal: OptimizationType)
    requires
        gen_params_result(base_bits as int, target_bits as int, goal) is Ok,
    ensures
        ({
            let p = gen_params_result(base_bits as int, target_bits as int, goal)->Ok_0;
            p.num_limbs * p.bits_per_limb >= target_bits
        }),
{
    let (b, t) = (base_bits as int, target_bits as int);
    lemma_best_limb_size_exists(b, t, goal);
    let l = best_limb_size(b, t, goal);
    lemma_capacity(t, l);
    assert(num_limbs_for(t, l) <= t) by {
        vstd::arithmetic::div_mod::lemma_fundamental_div_mod(t + l - 1, l);
        vstd::arithmetic::div_mod::lemma_mod_bound(t + l - 1, l);
        let n = num_limbs_for(t, l);
        assert(n <= t) by (nonlinear_arith)
            requires n * l <= t + l - 1, t >= 1, l >= 1, n >= 0, l * n == n * l;
    }
}

} // verus!

//! The per-context cache of decompositions, with its hit and miss counters.
use std::collections::BTreeMap;
use vstd::prelude::*;

use crate::search::{SURFEIT, gen_params, gen_params_result, NonNativeFieldParams, OptimizationType, ParamsError};

verus! {

/// Cached decompositions, keyed by the bit lengths of the base and the target field.
pub type ParamsMap = BTreeMap<(usize, usize), NonNativeFieldParams>;

/// Counts of the lookups served from the cache and of those that were not.
#[derive(Clone, Copy, PartialEq, Eq, Debug, Structural)]
pub struct HitRate {
    /// Number of hits.
    pub hit: usize,
    /// Number of misses.
    pub miss: usize,
}

/// The storage that a constraint-building context keeps for decompositions.
/// A context without storage computes every decomposition afresh.
pub struct ParamsContext {
    goal: OptimizationType,
    caching: bool,
    params: ParamsMap,
    hit_rate: Option<HitRate>,
}

/// The abstract state of a `ParamsContext`.
pub struct ContextView {
    /// The goal that every search of this context minimizes.
    pub goal: OptimizationType,
    /// Whether the context has storage at all.
    pub caching: bool,
    /// The cached decompositions.
    pub params: Map<(usize, usize), NonNativeFieldParams>,
    /// The counters, once activated.
    pub hit_rate: Option<HitRate>,
}

impl ContextView {
    /// Every cached decomposition is the one the search gives for its key, and a
    /// context without storage holds nothing.
    pub open spec fn wf(self) -> bool {
        &&& forall|k: (usize, usize)| #[trigger] self.params.contains_key(k)
            ==> gen_params_result(k.0 as int, k.1 as int, self.goal) == Ok::<NonNativeFieldParams, ParamsError>(self.params[k])
        &&& !self.caching ==> self.params.is_empty() && self.hit_rate.is_none()
    }
}

impl View for ParamsContext {
    type V = ContextView;

    closed spec fn view(&self) -> ContextView {
        ContextView {
            goal: self.goal,
            caching: self.caching,
            params: self.params@,
            hit_rate: self.hit_rate,
        }
    }
}

/// One more than `x`, held at the largest `usize`.
pub open spec fn bump(x: usize) -> usize {
    if x < usize::MAX { (x + 1) as usize } else { x }
}

/// The counters after recording one hit or one miss; absent counters stay absent.
pub open spec fn record(h: Option<HitRate>, hit: bool) -> Option<HitRate> {
    match h {
        None => None,
        Some(c) => if hit {
            Some(HitRate { hit: bump(c.hit), miss: c.miss })
        } else {
            Some(HitRate { hit: c.hit, miss: bump(c.miss) })
        },
    }
}

/// What a lookup of `(base, target)` returns.
pub open spec fn lookup_result(v: ContextView, base: usize, target: usize) -> Result<NonNativeFieldParams, ParamsError> {
    if v.caching && v.params.contains_key((base, target)) {
        Ok(v.params[(base, target)])
    } else {
        gen_params_result(base as int, target as int, v.goal)
    }
}

/// The state after a lookup of `(base, target)`: a hit is counted; a miss that
/// the search answers is stored and counted; a refused search changes nothing.
pub open spec fn lookup_step(v: ContextView, base: usize, target: usize) -> ContextView {
    if !v.caching {
        v
    } else if v.params.contains_key((base, target)) {
        ContextView { hit_rate: record(v.hit_rate, true), ..v }
    } else {
        match gen_params_result(base as int, target as int, v.goal) {
            Ok(p) => ContextView { params: v.params.insert((base, target), p), hit_rate: record(v.hit_rate, false), ..v },
            Err(_) => v,
        }
    }
}

impl ParamsContext {
    /// A context with empty storage; its searches minimize `goal`.
    pub fn new(goal: OptimizationType) -> (r: Self)
        ensures
            r@.goal == goal,
            r@.caching,
            r@.params.is_empty(),
            r@.hit_rate.is_none(),
            r@.wf(),
    {
        ParamsContext { goal, caching: true, params: BTreeMap::new(), hit_rate: None }
    }

    /// A context without storage: every lookup runs the search.
    pub fn none(goal: OptimizationType) -> (r: Self)
        ensures
            r@.goal == goal,
            !r@.caching,
            r@.params.is_empty(),
            r@.hit_rate.is_none(),
            r@.wf(),
    {
        ParamsContext { goal, caching: false, params: BTreeMap::new(), hit_rate: None }
    }

    /// The goal that this context's searches minimize.
    pub fn goal(&self) -> (r: OptimizationType)
        ensures
            r == self@.goal,
    {
        self.goal
    }

    /// Whether this context lacks storage.
    pub fn is_none(&self) -> (r: bool)
        ensures
            r == !self@.caching,
    {
        !self.caching
    }

    /// The decomposition stored for `(base_bits, target_bits)`, if any.
    pub fn cached(&self, base_bits: usize, target_bits: usize) -> (r: Option<NonNativeFieldParams>)
        ensures
            r == (if self@.params.contains_key((base_bits, target_bits)) {
                Some(self@.params[(base_bits, target_bits)])
            } else {
                None::<NonNativeFieldParams>
            }),
    {
        match self.params.get(&(base_bits, target_bits)) {
            Some(p) => Some(*p),
            None => None,
        }
    }
}

impl HitRate {
    /// Install zeroed counters in the context; a context without storage is left as it is.
    pub fn init(cs: &mut ParamsContext)
        ensures
            final(cs)@ == (if old(cs)@.caching {
                ContextView { hit_rate: Some(HitRate { hit: 0, miss: 0 }), ..old(cs)@ }
            } else {
                old(cs)@
            }),
            old(cs)@.wf() ==> final(cs)@.wf(),
    {
        if cs.caching {
            cs.hit_rate = Some(HitRate { hit: 0, miss: 0 });
        }
    }

    /// Count one hit or one miss, where counters are installed.
    pub fn update(cs: &mut ParamsContext, hit: bool)
        ensures
            final(cs)@ == (ContextView { hit_rate: record(old(cs)@.hit_rate, hit), ..old(cs)@ }),
    {
        if let Some(c) = cs.hit_rate {
            let next = if hit {
                HitRate { hit: if c.hit < usize::MAX { c.hit + 1 } else { c.hit }, miss: c.miss }
            } else {
                HitRate { hit: c.hit, miss: if c.miss < usize::MAX { c.miss + 1 } else { c.miss } }
            };
            cs.hit_rate = Some(next);
        }
    }

    /// The counters, where they are installed and have counted at least one lookup.
    pub fn report(cs: &ParamsContext) -> (r: Option<HitRate>)
        ensures
            r == (match cs@.hit_rate {
                Some(c) => if c.hit + c.miss > 0 { Some(c) } else { None::<HitRate> },
                None => None::<HitRate>,
            }),
    {
        match cs.hit_rate {
            Some(c) => if c.hit > 0 || c.miss > 0 { Some(c) } else { None },
            None => None,
        }
    }
}

/// The decomposition for a base field of `base_bits` bits and a target field of
/// `target_bits` bits, from the context's storage where it is there, else from
/// the search, whose answer is then stored.
pub fn get_params(cs: &mut ParamsContext, base_bits: usize, target_bits: usize) -> (r: Result<
    NonNativeFieldParams,
    ParamsError,
>)
    requires
        old(cs)@.wf(),
    ensures
        r == lookup_result(old(cs)@, base_bits, target_bits),
        r == gen_params_result(base_bits as int, target_bits as int, old(cs)@.goal),
        final(cs)@ == lookup_step(old(cs)@, base_bits, target_bits),
        final(cs)@.wf(),
{
    if !cs.caching {
        return gen_params(base_bits, target_bits, cs.goal);
    }
    let key = (base_bits, target_bits);
    let found = match cs.params.get(&key) {
        Some(p) => Some(*p),
        None => None,
    };
    match found {
        Some(p) => {
            HitRate::update(cs, true);
            Ok(p)
        },
        None => match gen_params(base_bits, target_bits, cs.goal) {
            Ok(p) => {
                cs.params.insert(key, p);
                HitRate::update(cs, false);
                Ok(p)
            },
            Err(e) => Err(e),
        },
    }
}

/// The state after looking up each key of `keys` in turn.
pub open spec fn run_lookups(v: ContextView, keys: Seq<(usize, usize)>) -> ContextView
    decreases keys.len(),
{
    if keys.len() == 0 {
        v
    } else {
        run_lookups(lookup_step(v, keys[0].0, keys[0].1), keys.drop_first())
    }
}

/// A key that the search answers.
pub open spec fn valid_key(k: (usize, usize)) -> bool {
    k.0 > 2 * SURFEIT + 3 && k.1 >= 1
}

/// A lookup returns what the search alone returns; looking the same key up
/// again returns the same decomposition and leaves the stored ones as they are.
pub proof fn lemma_cache_idempotent(v: ContextView, base_bits: usize, target_bits: usize)
    requires
        v.wf(),
    ensures
        lookup_result(v, base_bits, target_bits) == gen_params_result(base_bits as int, target_bits as int, v.goal),
        lookup_result(lookup_step(v, base_bits, target_bits), base_bits, target_bits)
            == lookup_result(v, base_bits, target_bits),
        lookup_step(lookup_step(v, base_bits, target_bits), base_bits, target_bits).params
            == lookup_step(v, base_bits, target_bits).params,
        lookup_step(v, base_bits, target_bits).wf(),
{
    lemma_lookup_step_wf(v, base_bits, target_bits);
}

/// A lookup keeps the context well formed.
pub proof fn lemma_lookup_step_wf(v: ContextView, base_bits: usize, target_bits: usize)
    requires
        v.wf(),
    ensures
        lookup_step(v, base_bits, target_bits).wf(),
{
    let w = lookup_step(v, base_bits, target_bits);
    assert forall|k: (usize, usize)| #[trigger] w.params.contains_key(k) implies gen_params_result(
        k.0 as int,
        k.1 as int,
        w.goal,
    ) == Ok::<NonNativeFieldParams, ParamsError>(w.params[k]) by {
        if k != (base_bits, target_bits) {
            assert(v.params.contains_key(k));
        }
    }
}

proof fn lemma_run_lookups_append(v: ContextView, a: Seq<(usize, usize)>, b: Seq<(usize, usize)>)
    ensures
        run_lookups(v, a + b) == run_lookups(run_lookups(v, a), b),
    decreases a.len(),
{
    if a.len() > 0 {
        assert((a + b).drop_first() =~= a.drop_first() + b);
        lemma_run_lookups_append(lookup_step(v, a[0].0, a[0].1), a.drop_first(), b);
    } else {
        assert(a + b =~= b);
    }
}

proof fn lemma_run_fresh(v: ContextView, keys: Seq<(usize, usize)>)
    requires
        v.caching,
        v.hit_rate is Some,
        v.hit_rate->Some_0.miss + keys.len() <= usize::MAX,
        keys.no_duplicates(),
        forall|i: int| 0 <= i < keys.len() ==> valid_key(#[trigger] keys[i]) && !v.params.contains_key(keys[i]),
    ensures
        run_lookups(v, keys).caching,
        run_lookups(v, keys).goal == v.goal,
        run_lookups(v, keys).hit_rate == Some(HitRate {
            hit: v.hit_rate->Some_0.hit,
            miss: (v.hit_rate->Some_0.miss + keys.len()) as usize,
        }),
        forall|k: (usize, usize)| #[trigger] run_lookups(v, keys).params.contains_key(k)
            <== v.params.contains_key(k) || keys.contains(k),
    decreases keys.len(),
{
    if keys.len() > 0 {
        let k0 = keys[0];
        let w = lookup_step(v, k0.0, k0.1);
        assert(valid_key(k0));
        let rest = keys.drop_first();
        assert forall|i: int| 0 <= i < rest.len() implies valid_key(#[trigger] rest[i]) && !w.params.contains_key(rest[i]) by {
            assert(rest[i] == keys[i + 1]);
            assert(keys[i + 1] != keys[0]);
        }
        lemma_run_fresh(w, rest);
        assert forall|k: (usize, usize)| v.params.contains_key(k) || keys.contains(k)
            implies #[trigger] run_lookups(v, keys).params.contains_key(k) by {
            if k != k0 && keys.contains(k) {
                let i = choose|i: int| 0 <= i < keys.len() && keys[i] == k;
                assert(rest[i - 1] == k);
            }
        }
    }
}

proof fn lemma_run_repeats(v: ContextView, keys: Seq<(usize, usize)>)
    requires
        v.caching,
        v.hit_rate is Some,
        v.hit_rate->Some_0.hit + keys.len() <= usize::MAX,
        forall|i: int| 0 <= i < keys.len() ==> v.params.contains_key(#[trigger] keys[i]),
    ensures
        run_lookups(v, keys).hit_rate == Some(HitRate {
            hit: (v.hit_rate->Some_0.hit + keys.len()) as usize,
            miss: v.hit_rate->Some_0.miss,
        }),
    decreases keys.len(),
{
    if keys.len() > 0 {
        let w = lookup_step(v, keys[0].0, keys[0].1);
        let rest = keys.drop_first();
        assert forall|i: int| 0 <= i < rest.len() implies w.params.contains_key(#[trigger] rest[i]) by {
            assert(rest[i] == keys[i + 1]);
        }
        lemma_run_repeats(w, rest);
    }
}

/// With counters freshly installed on an empty cache, `n` lookups of distinct
/// keys followed by `m` lookups of keys among them count `m` hits and `n` misses.
pub proof fn lemma_hit_miss_accounting(v: ContextView, fresh: Seq<(usize, usize)>, repeats: Seq<(usize, usize)>)
    requires
        v.caching,
        v.params.is_empty(),
        v.hit_rate == Some(HitRate { hit: 0, miss: 0 }),
        fresh.no_duplicates(),
        forall|i: int| 0 <= i < fresh.len() ==> valid_key(#[trigger] fresh[i]),
        forall|i: int| 0 <= i < repeats.len() ==> fresh.contains(#[trigger] repeats[i]),
        fresh.len() <= usize::MAX,
        repeats.len() <= usize::MAX,
    ensures
        run_lookups(v, fresh + repeats).hit_rate == Some(HitRate {
            hit: repeats.len() as usize,
            miss: fresh.len() as usize,
        }),
{
    lemma_run_lookups_append(v, fresh, repeats);
    lemma_run_fresh(v, fresh);
    let w = run_lookups(v, fresh);
    assert forall|i: int| 0 <= i < repeats.len() implies w.params.contains_key(#[trigger] repeats[i]) by {
        assert(fresh.contains(repeats[i]));
    }
    lemma_run_repeats(w, repeats);
}

/// Lookups keep the context well formed, its goal and its storage flag, and
/// never remove or change a stored decomposition.
pub proof fn lemma_run_lookups_keeps_entries(v: ContextView, keys: Seq<(usize, usize)>)
    requires
        v.wf(),
    ensures
        run_lookups(v, keys).wf(),
        run_lookups(v, keys).goal == v.goal,
        run_lookups(v, keys).caching == v.caching,
        forall|k: (usize, usize)| #[trigger] v.params.contains_key(k) ==> run_lookups(v, keys).params.contains_key(k)
            && run_lookups(v, keys).params[k] == v.params[k],
    decreases keys.len(),
{
    if keys.len() > 0 {
        let w = lookup_step(v, keys[0].0, keys[0].1);
        lemma_lookup_step_wf(v, keys[0].0, keys[0].1);
        lemma_run_lookups_keeps_entries(w, keys.drop_first());
        assert forall|k: (usize, usize)| #[trigger] v.params.contains_key(k) implies w.params.contains_key(k)
            && w.params[k] == v.params[k] by {}
    }
}

/// A key looked up once and then again, with any lookups in between, gives the
/// same result both times, and the second lookup stores nothing new and
/// overwrites nothing.
pub proof fn lemma_repeat_lookup_after_others(
    v: ContextView,
    base_bits: usize,
    target_bits: usize,
    between: Seq<(usize, usize)>,
)
    requires
        v.wf(),
    ensures
        ({
            let w = run_lookups(lookup_step(v, base_bits, target_bits), between);
            &&& lookup_result(w, base_bits, target_bits) == lookup_result(v, base_bits, target_bits)
            &&& lookup_step(w, base_bits, target_bits).params == w.params
        }),
{
    let u = lookup_step(v, base_bits, target_bits);
    lemma_lookup_step_wf(v, base_bits, target_bits);
    lemma_run_lookups_keeps_entries(u, between);
    let w = run_lookups(u, between);
    lemma_cache_idempotent(v, base_bits, target_bits);
    lemma_cache_idempotent(w, base_bits, target_bits);
    if u.caching && gen_params_result(base_bits as int, target_bits as int, v.goal) is Ok {
        assert(u.params.contains_key((base_bits, target_bits)));
    }
}

} // verus!

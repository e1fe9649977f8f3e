use nonnative_params::cache::{get_params, HitRate, ParamsContext};
use nonnative_params::search::{gen_params, OptimizationType, ParamsError};

#[test]
fn first_lookup_matches_direct_search() {
    let mut cs = ParamsContext::new(OptimizationType::Constraints);
    assert_eq!(cs.cached(254, 256), None);
    let first = get_params(&mut cs, 254, 256);
    assert_eq!(first, gen_params(254, 256, OptimizationType::Constraints));
    assert_eq!(cs.cached(254, 256), Some(first.unwrap()));
    let second = get_params(&mut cs, 254, 256);
    assert_eq!(second, first);
    assert_eq!(cs.cached(254, 256), Some(first.unwrap()));
}

#[test]
fn lookup_uses_context_goal() {
    let mut cs = ParamsContext::new(OptimizationType::Density);
    assert_eq!(cs.goal(), OptimizationType::Density);
    assert_eq!(get_params(&mut cs, 254, 256), gen_params(254, 256, OptimizationType::Density));
}

#[test]
fn key_order_matters() {
    let mut cs = ParamsContext::new(OptimizationType::Constraints);
    let a = get_params(&mut cs, 381, 255).unwrap();
    let b = get_params(&mut cs, 255, 381).unwrap();
    assert_ne!(a, b);
    assert_eq!(cs.cached(381, 255), Some(a));
    assert_eq!(cs.cached(255, 381), Some(b));
}

#[test]
fn hits_and_misses_are_counted() {
    let mut cs = ParamsContext::new(OptimizationType::Constraints);
    HitRate::init(&mut cs);
    let keys = [(254usize, 256usize), (381, 255), (255, 381)];
    for (b, t) in keys {
        get_params(&mut cs, b, t).unwrap();
    }
    get_params(&mut cs, 381, 255).unwrap();
    get_params(&mut cs, 254, 256).unwrap();
    assert_eq!(HitRate::report(&cs), Some(HitRate { hit: 2, miss: 3 }));
}

#[test]
fn report_without_lookups() {
    let mut cs = ParamsContext::new(OptimizationType::Constraints);
    assert_eq!(HitRate::report(&cs), None);
    HitRate::init(&mut cs);
    assert_eq!(HitRate::report(&cs), None);
}

#[test]
fn counting_needs_activation() {
    let mut cs = ParamsContext::new(OptimizationType::Constraints);
    get_params(&mut cs, 254, 256).unwrap();
    get_params(&mut cs, 254, 256).unwrap();
    assert_eq!(HitRate::report(&cs), None);
    HitRate::init(&mut cs);
    get_params(&mut cs, 254, 256).unwrap();
    assert_eq!(HitRate::report(&cs), Some(HitRate { hit: 1, miss: 0 }));
}

#[test]
fn init_resets_counters() {
    let mut cs = ParamsContext::new(OptimizationType::Constraints);
    HitRate::init(&mut cs);
    get_params(&mut cs, 254, 256).unwrap();
    assert_eq!(HitRate::report(&cs), Some(HitRate { hit: 0, miss: 1 }));
    HitRate::init(&mut cs);
    assert_eq!(HitRate::report(&cs), None);
}

#[test]
fn update_counts_directly() {
    let mut cs = ParamsContext::new(OptimizationType::Constraints);
    HitRate::update(&mut cs, true);
    assert_eq!(HitRate::report(&cs), None);
    HitRate::init(&mut cs);
    HitRate::update(&mut cs, true);
    HitRate::update(&mut cs, false);
    HitRate::update(&mut cs, true);
    assert_eq!(HitRate::report(&cs), Some(HitRate { hit: 2, miss: 1 }));
}

#[test]
fn null_context_bypasses_cache() {
    let mut cs = ParamsContext::none(OptimizationType::Constraints);
    assert!(cs.is_none());
    HitRate::init(&mut cs);
    let r = get_params(&mut cs, 254, 256);
    assert_eq!(r, gen_params(254, 256, OptimizationType::Constraints));
    assert_eq!(cs.cached(254, 256), None);
    assert_eq!(HitRate::report(&cs), None);
}

#[test]
fn failed_lookup_changes_nothing() {
    let mut cs = ParamsContext::new(OptimizationType::Constraints);
    assert!(!cs.is_none());
    HitRate::init(&mut cs);
    assert_eq!(get_params(&mut cs, 20, 256), Err(ParamsError::BaseFieldTooSmall));
    assert_eq!(get_params(&mut cs, 254, 0), Err(ParamsError::EmptyTargetField));
    assert_eq!(cs.cached(20, 256), None);
    assert_eq!(HitRate::report(&cs), None);
}

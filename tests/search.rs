use nonnative_params::search::{gen_params, NonNativeFieldParams, OptimizationType, ParamsError, ParamsSearching};

fn params(num_limbs: usize, bits_per_limb: usize) -> NonNativeFieldParams {
    NonNativeFieldParams { num_limbs, bits_per_limb }
}

#[test]
fn end_to_end_constraints() {
    let r = gen_params(254, 256, OptimizationType::Constraints);
    assert_eq!(r, Ok(params(32, 8)));
}

#[test]
fn end_to_end_density() {
    let p = gen_params(254, 256, OptimizationType::Density).unwrap();
    assert_eq!(p, params(13, 20));
    assert!(p.num_limbs * p.bits_per_limb >= 256);
    assert_ne!(p, gen_params(254, 256, OptimizationType::Constraints).unwrap());
}

#[test]
fn wider_base_field() {
    assert_eq!(gen_params(381, 255, OptimizationType::Constraints), Ok(params(26, 10)));
    assert_eq!(gen_params(381, 255, OptimizationType::Density), Ok(params(10, 26)));
    assert_eq!(gen_params(255, 381, OptimizationType::Constraints), Ok(params(48, 8)));
    assert_eq!(gen_params(255, 381, OptimizationType::Density), Ok(params(16, 24)));
}

#[test]
fn repeated_searches_agree() {
    for goal in [OptimizationType::Constraints, OptimizationType::Density] {
        let first = gen_params(254, 256, goal);
        for _ in 0..5 {
            assert_eq!(gen_params(254, 256, goal), first);
        }
    }
}

#[test]
fn capacity_holds_over_a_range() {
    for base in [24usize, 30, 64, 128, 254, 381, 753] {
        for target in [1usize, 7, 64, 255, 256, 381, 1000] {
            for goal in [OptimizationType::Constraints, OptimizationType::Density] {
                let p = gen_params(base, target, goal).unwrap();
                assert!(p.num_limbs * p.bits_per_limb >= target);
                assert!(p.bits_per_limb >= 1 && p.bits_per_limb <= (base - 12) / 2);
            }
        }
    }
}

#[test]
fn tie_keeps_smallest_limb_size_constraints() {
    // Limb widths 2 and 4 cost the same here.
    assert_eq!(gen_params(40, 32, OptimizationType::Constraints), Ok(params(16, 2)));
    // Limb widths 1 and 13 cost the same here.
    assert_eq!(gen_params(47, 26, OptimizationType::Constraints), Ok(params(26, 1)));
}

#[test]
fn tie_keeps_smallest_limb_size_density() {
    // Limb widths 4 and 7 cost the same here.
    assert_eq!(gen_params(40, 44, OptimizationType::Density), Ok(params(11, 4)));
}

#[test]
fn tie_when_one_limb_suffices() {
    // Every limb width from 1 to 6 costs the same for a one-bit target.
    assert_eq!(gen_params(24, 1, OptimizationType::Constraints), Ok(params(1, 1)));
}

#[test]
fn base_field_too_small() {
    assert_eq!(gen_params(20, 256, OptimizationType::Constraints), Err(ParamsError::BaseFieldTooSmall));
    assert_eq!(gen_params(23, 8, OptimizationType::Density), Err(ParamsError::BaseFieldTooSmall));
    assert_eq!(gen_params(0, 8, OptimizationType::Constraints), Err(ParamsError::BaseFieldTooSmall));
    assert_eq!(gen_params(20, 0, OptimizationType::Constraints), Err(ParamsError::BaseFieldTooSmall));
}

#[test]
fn smallest_accepted_base_field() {
    assert_eq!(gen_params(24, 8, OptimizationType::Constraints), Ok(params(4, 2)));
}

#[test]
fn empty_target_field() {
    assert_eq!(gen_params(254, 0, OptimizationType::Constraints), Err(ParamsError::EmptyTargetField));
}

#[test]
fn new_search_is_unsolved() {
    let s = ParamsSearching::new(254, 256, OptimizationType::Density);
    assert_eq!(s.base_field_prime_length, 254);
    assert_eq!(s.target_field_prime_bit_length, 256);
    assert_eq!(s.optimization_type, OptimizationType::Density);
    assert_eq!(s.num_of_limbs, None);
    assert_eq!(s.limb_size, None);
}

#[test]
fn solve_sets_solution() {
    let mut s = ParamsSearching::new(254, 256, OptimizationType::Constraints);
    s.solve();
    assert_eq!(s.num_of_limbs, Some(32));
    assert_eq!(s.limb_size, Some(8));
    assert_eq!(s.base_field_prime_length, 254);
}

#[test]
fn solve_refuses_small_base_field() {
    for base in [14usize, 20, 23] {
        let mut s = ParamsSearching::new(base, 8, OptimizationType::Constraints);
        s.solve();
        assert_eq!(s.num_of_limbs, None);
        assert_eq!(s.limb_size, None);
    }
    let mut s = ParamsSearching::new(24, 8, OptimizationType::Constraints);
    s.solve();
    assert_eq!(s.num_of_limbs, Some(4));
    assert_eq!(s.limb_size, Some(2));
}

#[test]
fn solve_with_empty_range() {
    for base in [0usize, 5, 12, 13] {
        let mut s = ParamsSearching::new(base, 8, OptimizationType::Constraints);
        s.solve();
        assert_eq!(s.num_of_limbs, None);
        assert_eq!(s.limb_size, None);
    }
    let mut s = ParamsSearching::new(254, 0, OptimizationType::Density);
    s.solve();
    assert_eq!(s.limb_size, None);
}

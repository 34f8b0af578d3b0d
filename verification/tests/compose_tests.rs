use osrs_markov::compose::{
    cdf_to_pmf, checked_total, compose_all, compose_sequential, convolve, pmf_to_cdf,
};
use osrs_markov::error::EngineError;
use osrs_markov::prob::ONE;
use osrs_markov::series::{
    total_expected, weapon_kill_times_markov_per_tick_with_delay, without_delay,
};

#[test]
fn mass_function_is_the_first_difference() {
    let cdf = vec![ONE / 10, ONE / 10, ONE / 2, ONE];
    assert_eq!(cdf_to_pmf(&cdf).unwrap(), vec![ONE / 10, 0, ONE / 10 * 4, ONE / 2]);
    assert_eq!(pmf_to_cdf(&cdf_to_pmf(&cdf).unwrap()).unwrap(), cdf);
    assert_eq!(cdf_to_pmf(&Vec::new()).unwrap(), Vec::<u64>::new());
}

#[test]
fn convolution_has_the_length_of_both_less_one() {
    let a = vec![ONE / 2, ONE / 2];
    let b = vec![ONE / 4, ONE / 4, ONE / 2];
    let c = convolve(&a, &b).unwrap();
    assert_eq!(c.len(), 4);
    assert_eq!(c, vec![ONE / 8, ONE / 4, ONE / 8 * 3, ONE / 4]);
    assert_eq!(convolve(&b, &a).unwrap(), c);
}

#[test]
fn convolution_with_an_empty_function_is_all_zero() {
    let a = vec![ONE / 2, ONE / 4, ONE / 4];
    assert_eq!(convolve(&a, &Vec::new()).unwrap(), vec![0, 0]);
    assert_eq!(convolve(&Vec::new(), &a).unwrap(), vec![0, 0]);
}

#[test]
fn point_mass_at_step_zero_is_the_identity() {
    let pmf = vec![3, ONE / 7, 0, ONE / 3, 12345];
    assert_eq!(convolve(&pmf, &vec![ONE]).unwrap(), pmf);
    assert_eq!(convolve(&vec![ONE], &pmf).unwrap(), pmf);
    let s = weapon_kill_times_markov_per_tick_with_delay(12, 5, ONE / 10 * 7, ONE, 60, 4, 0)
        .unwrap();
    assert_eq!(compose_sequential(&s.kill_times, &vec![ONE]).unwrap(), s.kill_times);
}

#[test]
fn composed_series_is_cumulative() {
    let a = weapon_kill_times_markov_per_tick_with_delay(12, 5, ONE / 10 * 7, ONE, 40, 4, 0)
        .unwrap()
        .kill_times;
    let b = weapon_kill_times_markov_per_tick_with_delay(7, 2, ONE / 3, ONE, 25, 4, 0)
        .unwrap()
        .kill_times;
    let c = compose_sequential(&a, &b).unwrap();
    assert_eq!(c.len(), 64);
    assert!(c.windows(2).all(|w| w[0] <= w[1]));
    assert!(*c.last().unwrap() <= ONE);
    // killing both cannot be likelier than killing the first alone by the same step
    for k in 0..a.len() {
        assert!(c[k] <= a[k]);
    }
}

#[test]
fn two_sure_kills_add_their_steps() {
    // dead for sure after step 2, and after step 1
    let a = vec![0, 0, ONE, ONE];
    let b = vec![0, ONE];
    assert_eq!(compose_sequential(&a, &b).unwrap(), vec![0, 0, 0, ONE, ONE]);
}

#[test]
fn totals_are_checked() {
    assert_eq!(checked_total(&vec![ONE / 2, ONE / 2]), Some(ONE));
    assert_eq!(checked_total(&vec![ONE / 2, ONE / 2, 1]), None);
    assert_eq!(checked_total(&Vec::new()), Some(0));
    assert_eq!(checked_total(&vec![u64::MAX, u64::MAX]), None);
}

#[test]
fn bad_compositions_are_refused() {
    assert!(matches!(cdf_to_pmf(&vec![ONE / 2, ONE / 4]), Err(EngineError::NotCumulative)));
    assert!(matches!(cdf_to_pmf(&vec![ONE + 1]), Err(EngineError::NotCumulative)));
    assert!(matches!(pmf_to_cdf(&vec![ONE, 1]), Err(EngineError::ExcessMass)));
    assert!(matches!(convolve(&Vec::new(), &Vec::new()), Err(EngineError::EmptySeries)));
    assert!(matches!(convolve(&vec![ONE, ONE], &vec![ONE]), Err(EngineError::ExcessMass)));
    assert!(matches!(
        compose_sequential(&Vec::new(), &Vec::new()),
        Err(EngineError::EmptySeries)
    ));
    assert!(matches!(
        compose_sequential(&vec![ONE, 0], &vec![ONE]),
        Err(EngineError::NotCumulative)
    ));
}

#[test]
fn encounters_compose_from_the_left() {
    let a = vec![0, ONE / 2, ONE];
    let b = vec![ONE / 2, ONE];
    let c = vec![0, ONE];
    assert_eq!(compose_all(&Vec::new()).unwrap(), Vec::<u64>::new());
    assert_eq!(compose_all(&vec![a.clone()]).unwrap(), a);
    let ab = compose_sequential(&a, &b).unwrap();
    assert_eq!(compose_all(&vec![a.clone(), b.clone()]).unwrap(), ab);
    let abc = compose_sequential(&ab, &c).unwrap();
    assert_eq!(compose_all(&vec![a.clone(), b.clone(), c.clone()]).unwrap(), abc);
    assert_eq!(abc, vec![0, 0, ONE / 4, ONE / 4 * 3, ONE]);
    // a single series is taken as it stands
    assert_eq!(compose_all(&vec![vec![ONE, 0]]).unwrap(), vec![ONE, 0]);
    assert!(matches!(
        compose_all(&vec![a.clone(), vec![ONE, 0], c.clone()]),
        Err(EngineError::NotCumulative)
    ));
    assert!(matches!(
        compose_all(&vec![Vec::new(), Vec::new()]),
        Err(EngineError::EmptySeries)
    ));
}

#[test]
fn delay_is_taken_off_the_front() {
    assert_eq!(without_delay(&vec![0, 0, 5, 7], 2), vec![5, 7]);
    assert_eq!(without_delay(&vec![0, 0, 5, 7], 0), vec![0, 0, 5, 7]);
    assert_eq!(without_delay(&vec![0, 0, 5, 7], 4), Vec::<u64>::new());
    assert_eq!(without_delay(&vec![0, 0, 5, 7], 9), Vec::<u64>::new());
}

#[test]
fn expected_values_add_up() {
    assert_eq!(total_expected(&vec![1, 2, 3]), Some(6));
    assert_eq!(total_expected(&Vec::new()), Some(0));
    assert_eq!(total_expected(&vec![u128::MAX, 1]), None);
    assert_eq!(total_expected(&vec![u128::MAX, 0]), Some(u128::MAX));
}

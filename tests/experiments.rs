use std::collections::HashSet;

use sublinear::amplified::{Q2AmplificatedCommand, TRIALS};
use sublinear::error::AlgorithmError;
use sublinear::hash_function::HashFunction;
use sublinear::l2::{signed_square, Q2NaiveCommand, NAIVE_SAMPLES, L2Algorithm};
use sublinear::algorithm::Algorithm;
use sublinear::progress::Progress;
use sublinear::random::{random_i64s, random_usizes};
use sublinear::secretary::{
    secretary_experiment, stopping_rule, summarize, Q1Command, Q1Result, SecreteryProblemAlgorithm,
};
use sublinear::vec_extensions::{L2NormVecExtension, Single, TryCollect};

#[test]
fn hash_function_maps_into_target_and_is_stable() {
    let source: Vec<usize> = (0..200).collect();
    let target = vec![-1i64, 1];
    let hash = HashFunction::new(source.clone(), target.clone());
    for s in &source {
        let first = hash.get_value(s);
        assert!(target.contains(&first));
        for _ in 0..3 {
            assert_eq!(hash.get_value(s), first);
        }
    }
}

#[test]
fn hash_function_single_target() {
    let hash = HashFunction::new(vec![10usize, 20, 30], vec!['x']);
    assert_eq!(hash.get_value(&10), 'x');
    assert_eq!(hash.get_value(&30), 'x');
}

#[test]
fn stopping_rule_single_element() {
    assert_eq!(stopping_rule(&vec![42]), 42);
}

#[test]
fn stopping_rule_two_elements() {
    // Threshold is the first element; the second is taken when it is at least
    // the threshold, and otherwise it is taken as the last element.
    assert_eq!(stopping_rule(&vec![3, 5]), 5);
    assert_eq!(stopping_rule(&vec![5, 3]), 3);
    assert_eq!(stopping_rule(&vec![4, 4]), 4);
}

#[test]
fn stopping_rule_takes_first_above_threshold() {
    assert_eq!(stopping_rule(&vec![5, 1, 7, 3]), 7);
    assert_eq!(stopping_rule(&vec![5, 1, 2, 3]), 3);
    assert_eq!(stopping_rule(&vec![2, 6, 6, 9, 1]), 6);
}

#[test]
fn summarize_counts_hits_and_sums() {
    let r = summarize(&vec![2, 9, 4], &vec![9, 4, 9]).unwrap();
    assert_eq!(r, Q1Result { hit_count: 2, runs: 3, sum: 22 });
    assert_eq!(summarize(&vec![], &vec![1]).unwrap_err(), AlgorithmError::EmptyInput);
}

#[test]
fn secretary_single_element_always_hits() {
    let r = secretary_experiment(vec![42], 100).unwrap();
    assert_eq!(r.runs, 100);
    assert_eq!(r.hit_count, 100);
    assert_eq!(r.sum, 4200);
    let hit_percent = r.hit_count as f64 / r.runs as f64 * 100.0;
    let average = r.sum as f64 / r.runs as f64;
    assert_eq!(hit_percent, 100.0);
    assert_eq!(average, 42.0);
}

#[test]
fn secretary_stays_in_range() {
    let array = vec![7usize, 3, 11, 5, 9, 2];
    let r = secretary_experiment(array.clone(), 500).unwrap();
    assert_eq!(r.runs, 500);
    assert!(r.hit_count <= r.runs);
    assert!(r.sum >= 500 * 2);
    assert!(r.sum <= 500 * 11);
}

#[test]
fn secretary_empty_array_fails() {
    assert_eq!(secretary_experiment(vec![], 10).unwrap_err(), AlgorithmError::EmptyInput);
    assert_eq!(secretary_experiment(vec![], 0).unwrap_err(), AlgorithmError::EmptyInput);
}

#[test]
fn secretary_single_run_returns_element() {
    let mut progress = Progress::hidden();
    let value = SecreteryProblemAlgorithm::new(vec![8, 6, 7]).run_internal(&mut progress).unwrap();
    assert!([8, 6, 7].contains(&value));
}

#[test]
fn q1_command_runs() {
    let r = Q1Command { array_length: 50, repeat_count: 40 }.invoke().unwrap();
    assert_eq!(r.runs, 40);
    assert!(r.hit_count <= 40);
    assert!(r.sum <= 40 * 9999);
    assert_eq!(
        Q1Command { array_length: 0, repeat_count: 40 }.invoke().unwrap_err(),
        AlgorithmError::EmptyInput
    );
}

#[test]
fn random_vectors_stay_in_range() {
    let v = random_usizes(300, 5, 8);
    assert_eq!(v.len(), 300);
    assert!(v.iter().all(|x| (5..8).contains(x)));
    let w = random_i64s(300, -2, 2);
    assert_eq!(w.len(), 300);
    assert!(w.iter().all(|x| (-2..=2).contains(x)));
    let distinct: HashSet<i64> = w.into_iter().collect();
    assert!(distinct.len() > 1);
}

#[test]
fn l2_estimator_with_fixed_signs() {
    assert_eq!(signed_square(&vec![3, 4], &vec![1, 1]), 49);
    assert_eq!(signed_square(&vec![3, 4], &vec![1, -1]), 1);
    assert_eq!(signed_square(&vec![3, 4], &vec![-1, 1]), 1);
    assert_eq!(signed_square(&vec![3, 4], &vec![-1, -1]), 49);
}

#[test]
fn l2_estimator_mean_over_all_signs_is_norm() {
    let v = vec![3i64, -2, 5, 1];
    let n = v.len();
    let mut total: u64 = 0;
    for mask in 0..(1u32 << n) {
        let signs: Vec<i64> = (0..n).map(|i| if mask & (1 << i) == 0 { 1 } else { -1 }).collect();
        total += signed_square(&v, &signs);
    }
    assert_eq!(total / (1u64 << n), v.l2_norm() as u64);
    assert_eq!(v.l2_norm(), 39);
}

#[test]
fn l2_estimator_mean_is_close_to_norm() {
    let v: Vec<i64> = vec![2, 0, 1, 2, 1, 1, 0, 2, 2, 1];
    let mut progress = Progress::hidden();
    let algorithm = L2Algorithm::new(v.clone());
    let draws = 20000;
    let mut sum: u64 = 0;
    for _ in 0..draws {
        sum += algorithm.run_internal(&mut progress).unwrap();
    }
    let mean = sum as f64 / draws as f64;
    let norm = v.l2_norm() as f64;
    assert!((mean - norm).abs() < 0.1 * norm, "mean {} norm {}", mean, norm);
}

#[test]
fn naive_on_zero_vector() {
    let r = Q2NaiveCommand.invoke(vec![0; 1000]).unwrap();
    assert_eq!(r.samples, NAIVE_SAMPLES);
    assert_eq!(r.sum, 0);
    assert_eq!(r.l2_norm, 0);
    assert_eq!(r.sum as f64 / r.samples as f64, 0.0);
}

#[test]
fn naive_reports_exact_norm() {
    let v = vec![1i64, 2, 0, 2];
    let r = Q2NaiveCommand.invoke(v).unwrap();
    assert_eq!(r.l2_norm, 9);
    assert_eq!(r.samples, 1000);
    assert!(r.sum <= 1000 * 25);
}

#[test]
fn naive_rejects_oversized_vector() {
    let v = vec![i64::MAX, i64::MAX];
    assert_eq!(Q2NaiveCommand.invoke(v).unwrap_err(), AlgorithmError::ParameterOutOfRange);
}

#[test]
fn amplified_on_zero_vector_always_succeeds() {
    let command = Q2AmplificatedCommand { epsilon_numerator: 1, epsilon_denominator: 2, group_count: 3 };
    let r = command.invoke(vec![0; 20]).unwrap();
    assert_eq!(r.trials, TRIALS);
    assert_eq!(r.successes, TRIALS);
}

#[test]
fn amplified_rejects_epsilon_out_of_range() {
    let above = Q2AmplificatedCommand { epsilon_numerator: 3, epsilon_denominator: 2, group_count: 3 };
    assert_eq!(above.invoke(vec![1, 2]).unwrap_err(), AlgorithmError::ParameterOutOfRange);
    let zero = Q2AmplificatedCommand { epsilon_numerator: 0, epsilon_denominator: 2, group_count: 3 };
    assert_eq!(zero.invoke(vec![1, 2]).unwrap_err(), AlgorithmError::ParameterOutOfRange);
    let no_denominator = Q2AmplificatedCommand { epsilon_numerator: 0, epsilon_denominator: 0, group_count: 3 };
    assert_eq!(no_denominator.invoke(vec![1, 2]).unwrap_err(), AlgorithmError::ParameterOutOfRange);
}

#[test]
fn amplified_without_groups_fails() {
    let command = Q2AmplificatedCommand { epsilon_numerator: 1, epsilon_denominator: 1, group_count: 0 };
    assert_eq!(command.invoke(vec![1, 2]).unwrap_err(), AlgorithmError::EmptyInput);
}

#[test]
fn amplified_mostly_succeeds() {
    // ε = 1/2 gives groups of 18 estimates; 9 groups per median.
    let command = Q2AmplificatedCommand { epsilon_numerator: 1, epsilon_denominator: 2, group_count: 9 };
    let v: Vec<i64> = (0..30).map(|i| (i % 3) as i64).collect();
    let r = command.invoke(v).unwrap();
    assert_eq!(r.trials, TRIALS);
    assert!(r.successes * 10 >= r.trials * 9, "successes {}", r.successes);
}

#[test]
fn single_and_try_collect() {
    assert_eq!(vec![5].single().unwrap(), 5);
    assert_eq!(Vec::<i32>::new().single().unwrap_err(), AlgorithmError::EmptyInput);
    assert_eq!(vec![1, 2].single().unwrap_err(), AlgorithmError::MultipleElements);
    let ok: Vec<Result<i32, AlgorithmError>> = vec![Ok(1), Ok(2)];
    assert_eq!(ok.try_collect().unwrap(), vec![1, 2]);
    let bad: Vec<Result<i32, AlgorithmError>> =
        vec![Ok(1), Err(AlgorithmError::DimensionMismatch), Err(AlgorithmError::EmptyInput)];
    assert_eq!(bad.try_collect().unwrap_err(), AlgorithmError::DimensionMismatch);
}

#[test]
fn secretary_misses_lie_below_maximum() {
    let array = vec![1usize, 2, 3];
    let r = secretary_experiment(array, 300).unwrap();
    let misses = (r.runs - r.hit_count) as u128;
    assert!(r.sum + misses <= 300 * 3);
}

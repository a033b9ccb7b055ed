use indicatif::ProgressBar;

use sublinear::algorithm::Algorithm;
use sublinear::error::AlgorithmError;
use sublinear::progress::Progress;
use sublinear::reduce::IntoReduce;
use sublinear::repeat::{IntoRepeat, Repeat};
use sublinear::secretary::{SecretarySummary, SecreteryProblemAlgorithm};
use sublinear::with_name::IntoWithName;

fn leaf() -> SecreteryProblemAlgorithm {
    SecreteryProblemAlgorithm::new(vec![3, 1, 4, 1, 5])
}

#[test]
fn repeat_multiplies_repetitions() {
    assert_eq!(leaf().get_repetitions(), 1);
    assert_eq!(leaf().repeat(7).get_repetitions(), 7);
    assert_eq!(leaf().repeat(0).get_repetitions(), 0);
    assert_eq!(leaf().repeat(3).repeat(4).get_repetitions(), 12);
}

#[test]
fn reduce_keeps_repetitions_and_input() {
    let repeated = leaf().repeat(6);
    let input = repeated.input();
    let reduced = leaf().repeat(6).reduce(SecretarySummary::new(vec![3, 1, 4, 1, 5]));
    assert_eq!(reduced.get_repetitions(), repeated.get_repetitions());
    let reduced_input = reduced.input();
    assert_eq!(reduced_input.input, input.input);
    assert_eq!(reduced_input.repetition_count, input.repetition_count);
    assert_eq!(reduced_input.repetition_count, 6);
}

#[test]
fn names_compose() {
    assert_eq!(leaf().name(), "Secretery problem");
    assert_eq!(leaf().repeat(2).name(), "Secretery problem repetition");
    let reduced = leaf().repeat(2).reduce(SecretarySummary::new(vec![1]));
    assert_eq!(reduced.name(), "Secretery problem repetition reduced");
    let named = leaf().repeat(2).with_name("Q1".to_string());
    assert_eq!(named.name(), "Q1");
    assert_eq!(named.get_repetitions(), 2);
}

#[test]
fn repeat_ticks_once_per_leaf_run() {
    let bar = ProgressBar::hidden();
    let mut progress = Progress::with_bar(bar.clone());
    let output = leaf().repeat(9).run_internal(&mut progress).unwrap();
    assert_eq!(output.len(), 9);
    assert_eq!(bar.position(), 9);
}

#[test]
fn nested_repeat_ticks_product_of_counts() {
    let bar = ProgressBar::hidden();
    let mut progress = Progress::with_bar(bar.clone());
    let pipeline = leaf()
        .repeat(4)
        .reduce(SecretarySummary::new(vec![3, 1, 4, 1, 5]))
        .repeat(5);
    assert_eq!(pipeline.get_repetitions(), 20);
    let output = pipeline.run_internal(&mut progress).unwrap();
    assert_eq!(output.len(), 5);
    for summary in &output {
        assert_eq!(summary.runs, 4);
    }
    assert_eq!(bar.position(), 20);
}

#[test]
fn repeat_output_length_is_count() {
    let mut progress = Progress::hidden();
    for count in [0usize, 1, 2, 17] {
        let output = Repeat::new(leaf(), count).run_internal(&mut progress).unwrap();
        assert_eq!(output.len(), count);
        for value in output {
            assert!([3, 1, 4, 5].contains(&value));
        }
    }
}

#[test]
fn repeat_surfaces_inner_error() {
    let mut progress = Progress::hidden();
    let failing = SecreteryProblemAlgorithm::new(vec![]).repeat(3);
    assert_eq!(failing.run_internal(&mut progress).unwrap_err(), AlgorithmError::EmptyInput);
}

#[test]
fn empty_repeat_succeeds_even_if_inner_would_fail() {
    let mut progress = Progress::hidden();
    let output = SecreteryProblemAlgorithm::new(vec![]).repeat(0).run_internal(&mut progress).unwrap();
    assert!(output.is_empty());
}

#[test]
fn run_on_clears_and_returns_output() {
    let bar = ProgressBar::hidden();
    let output = leaf().repeat(3).run_on(bar.clone()).unwrap();
    assert_eq!(output.len(), 3);
    assert_eq!(bar.position(), 3);
    assert!(bar.is_finished());
}

use indicatif::ProgressBar;

use sublinear::algorithm::{Algorithm, FnAlgorithm};
use sublinear::error::AlgorithmError;
use sublinear::progress::Progress;
use sublinear::reduce::{FnReducer, IntoReduce, Reducer};
use sublinear::repeat::IntoRepeat;

#[test]
fn closure_algorithm_composes() {
    let leaf = FnAlgorithm::new(5u32, "five".to_string(), || Ok::<u32, AlgorithmError>(5));
    assert_eq!(leaf.name(), "five");
    assert_eq!(leaf.input(), 5);
    let pipeline = leaf
        .repeat(6)
        .reduce(FnReducer::new(|series: Vec<u32>| Ok::<u32, AlgorithmError>(series.iter().sum())));
    assert_eq!(pipeline.get_repetitions(), 6);
    let bar = ProgressBar::hidden();
    let mut progress = Progress::with_bar(bar.clone());
    assert_eq!(pipeline.run_internal(&mut progress).unwrap(), 30);
    assert_eq!(bar.position(), 6);
}

#[test]
fn closure_algorithm_error_propagates() {
    let leaf = FnAlgorithm::new((), "failing".to_string(), || {
        Err::<u32, AlgorithmError>(AlgorithmError::ParameterOutOfRange)
    });
    let mut progress = Progress::hidden();
    assert_eq!(
        leaf.repeat(3).run_internal(&mut progress).unwrap_err(),
        AlgorithmError::ParameterOutOfRange
    );
}

#[test]
fn closure_reducer_error_propagates() {
    let leaf = FnAlgorithm::new((), "one".to_string(), || Ok::<u32, AlgorithmError>(1));
    let pipeline = leaf.repeat(2).reduce(FnReducer::new(|_series: Vec<u32>| {
        Err::<u32, AlgorithmError>(AlgorithmError::EmptyInput)
    }));
    let mut progress = Progress::hidden();
    assert_eq!(pipeline.run_internal(&mut progress).unwrap_err(), AlgorithmError::EmptyInput);
}

#[test]
fn closure_reducer_applies() {
    let reducer = FnReducer::new(|v: Vec<i32>| Ok::<usize, AlgorithmError>(v.len()));
    assert_eq!(reducer.apply(vec![1, 2, 3]).unwrap(), 3);
}

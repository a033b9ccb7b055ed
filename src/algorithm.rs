use vstd::prelude::*;

use indicatif::ProgressBar;

use std::marker::PhantomData;

use crate::error::AlgorithmError;
use crate::progress::Progress;

verus! {

/// Relies on indicatif's `ProgressBar::new`: a bar of the given length that
/// draws to stderr.
#[verifier::external_body]
fn new_bar(len: u64) -> ProgressBar {
    ProgressBar::new(len)
}

/// Relies on indicatif's `ProgressBar::finish_and_clear`: removes the bar
/// from the terminal.
#[verifier::external_body]
fn clear_bar(bar: &ProgressBar) {
    bar.finish_and_clear()
}

/// A named, parameterised computation that may fail, reports its leaf steps
/// through a [`Progress`] handle, and can be composed with [`crate::repeat::Repeat`],
/// [`crate::reduce::Reduce`] and [`crate::with_name::WithName`].
pub trait Algorithm: Sized {
    type Input;
    type Output: Send + Sync;

    /// The display name.
    spec fn spec_name(&self) -> Seq<char>;

    /// How many leaf steps one successful run reports.
    spec fn repetitions(&self) -> nat;

    /// Whether the parts of the algorithm fit together, so that it may run.
    spec fn well_formed(&self) -> bool;

    /// Whether `out` is an output that a successful run may return.
    spec fn produces(&self, out: Self::Output) -> bool;

    /// Whether every run succeeds.
    spec fn succeeds(&self) -> bool;

    /// Whether a run may fail with `e`.
    spec fn may_fail_with(&self, e: AlgorithmError) -> bool;

    fn name(&self) -> (r: String)
        ensures
            r@ == self.spec_name(),
    ;

    /// The parameters of the computation.
    fn input(&self) -> Self::Input;

    fn get_repetitions(&self) -> (r: u64)
        requires
            self.repetitions() <= u64::MAX,
        ensures
            r == self.repetitions(),
    ;

    /// Runs the computation once. On success exactly `repetitions()` steps
    /// have been reported through `progress`.
    fn run_internal(&self, progress: &mut Progress) -> (r: Result<Self::Output, AlgorithmError>)
        requires
            self.well_formed(),
        ensures
            r is Ok ==> final(progress).ticks() == old(progress).ticks() + self.repetitions(),
            r is Ok ==> self.produces(r->Ok_0),
            r is Err ==> self.may_fail_with(r->Err_0),
            self.succeeds() ==> r is Ok,
    ;

    /// Runs the computation with `bar` showing its leaf steps, and clears the
    /// bar afterwards, whether the run succeeded or not.
    fn run_on(&self, bar: ProgressBar) -> (r: Result<Self::Output, AlgorithmError>)
        requires
            self.well_formed(),
        ensures
            r is Ok ==> self.produces(r->Ok_0),
            r is Err ==> self.may_fail_with(r->Err_0),
            self.succeeds() ==> r is Ok,
    {
        let mut progress = Progress::with_bar(bar);
        let result = self.run_internal(&mut progress);
        clear_bar(progress.bar());
        result
    }

    /// Runs the computation with a progress bar on stderr sized to its leaf
    /// steps.
    fn run(&self) -> (r: Result<Self::Output, AlgorithmError>)
        requires
            self.well_formed(),
            self.repetitions() <= u64::MAX,
        ensures
            r is Ok ==> self.produces(r->Ok_0),
            r is Err ==> self.may_fail_with(r->Err_0),
            self.succeeds() ==> r is Ok,
    {
        let bar = new_bar(self.get_repetitions());
        self.run_on(bar)
    }
}

/// A leaf algorithm whose one step is a call of `sample`: each run calls it
/// once, reports one step and returns what it returned.
pub struct FnAlgorithm<TInput, TSample, TOutput> {
    input: TInput,
    name: String,
    sample: TSample,
    output: PhantomData<TOutput>,
}

impl<TInput, TSample, TOutput> FnAlgorithm<TInput, TSample, TOutput> {
    pub closed spec fn sampler(&self) -> TSample {
        self.sample
    }

    pub closed spec fn shown_name(&self) -> Seq<char> {
        self.name@
    }

    pub fn new(input: TInput, name: String, sample: TSample) -> (r: Self)
        ensures
            r.sampler() == sample,
            r.shown_name() == name@,
    {
        FnAlgorithm { input, name, sample, output: PhantomData }
    }
}

impl<TInput: Clone, TSample, TOutput> Algorithm for FnAlgorithm<TInput, TSample, TOutput> where
    TSample: Fn() -> Result<TOutput, AlgorithmError>,
    TOutput: Send + Sync,
 {
    type Input = TInput;

    type Output = TOutput;

    open spec fn spec_name(&self) -> Seq<char> {
        self.shown_name()
    }

    open spec fn repetitions(&self) -> nat {
        1
    }

    open spec fn well_formed(&self) -> bool {
        call_requires(self.sampler(), ())
    }

    open spec fn produces(&self, out: TOutput) -> bool {
        call_ensures(self.sampler(), (), Ok::<TOutput, AlgorithmError>(out))
    }

    open spec fn succeeds(&self) -> bool {
        forall|r: Result<TOutput, AlgorithmError>| call_ensures(self.sampler(), (), r) ==> r is Ok
    }

    open spec fn may_fail_with(&self, e: AlgorithmError) -> bool {
        call_ensures(self.sampler(), (), Err::<TOutput, AlgorithmError>(e))
    }

    fn name(&self) -> (r: String) {
        self.name.clone()
    }

    fn input(&self) -> (r: TInput) {
        self.input.clone()
    }

    fn get_repetitions(&self) -> (r: u64) {
        1
    }

    fn run_internal(&self, progress: &mut Progress) -> (r: Result<TOutput, AlgorithmError>) {
        let result = (self.sample)();
        if result.is_ok() {
            progress.tick();
        }
        assert(self.repetitions() == 1);
        result
    }
}

} // verus!

use vstd::prelude::*;
use vstd::string::StringExecFns;

use rayon::iter::{IntoParallelIterator, ParallelIterator};

use crate::algorithm::Algorithm;
use crate::error::AlgorithmError;
use crate::progress::Progress;

verus! {

/// Runs `algorithm` once on a fresh fork of `progress`, and hands back the
/// result together with the fork that counted its steps.
pub fn run_forked<A: Algorithm>(algorithm: &A, progress: &Progress) -> (r: (
    Result<A::Output, AlgorithmError>,
    Progress,
))
    requires
        algorithm.well_formed(),
    ensures
        r.0 is Ok ==> r.1.ticks() == algorithm.repetitions(),
        r.0 is Ok ==> algorithm.produces(r.0->Ok_0),
        r.0 is Err ==> algorithm.may_fail_with(r.0->Err_0),
        algorithm.succeeds() ==> r.0 is Ok,
{
    let mut fork = progress.fork();
    let result = algorithm.run_internal(&mut fork);
    (result, fork)
}

/// Relies on rayon's indexed parallel iterators: `(0..count).into_par_iter()`
/// calls `run_forked` once per index, and `collect` into a `Vec` keeps the
/// index order and the length.
#[verifier::external_body]
fn run_in_parallel<A: Algorithm + Sync>(algorithm: &A, count: usize, progress: &Progress) -> (r:
    Vec<(Result<A::Output, AlgorithmError>, Progress)>)
    requires
        algorithm.well_formed(),
    ensures
        r.len() == count,
        forall|i: int|
            0 <= i < count ==> call_ensures(run_forked::<A>, (algorithm, progress), #[trigger] r[i]),
{
    (0..count).into_par_iter().map(|_| run_forked(algorithm, progress)).collect()
}

/// The parameters of a repetition: those of the repeated algorithm and the
/// number of runs.
#[derive(Debug, Clone)]
pub struct RepetitionAlgorithmInput<TInput> {
    pub input: TInput,
    pub repetition_count: usize,
}

/// Runs an inner algorithm a fixed number of times, in parallel, and returns
/// the outputs in index order.
pub struct Repeat<TAlgorithm> {
    algorithm: TAlgorithm,
    repetition_count: usize,
}

impl<TAlgorithm: Algorithm> Repeat<TAlgorithm> {
    /// The repeated algorithm.
    pub closed spec fn inner(&self) -> TAlgorithm {
        self.algorithm
    }

    /// How many times it runs.
    pub closed spec fn count(&self) -> nat {
        self.repetition_count as nat
    }

    pub fn new(algorithm: TAlgorithm, repetition_count: usize) -> (r: Self)
        ensures
            r.inner() == algorithm,
            r.count() == repetition_count,
    {
        Self { algorithm, repetition_count }
    }
}

impl<TAlgorithm: Algorithm + Sync> Algorithm for Repeat<TAlgorithm> {
    type Input = RepetitionAlgorithmInput<TAlgorithm::Input>;

    type Output = Vec<TAlgorithm::Output>;

    open spec fn spec_name(&self) -> Seq<char> {
        self.inner().spec_name() + " repetition"@
    }

    open spec fn repetitions(&self) -> nat {
        self.count() * self.inner().repetitions()
    }

    open spec fn well_formed(&self) -> bool {
        self.inner().well_formed()
    }

    open spec fn produces(&self, out: Self::Output) -> bool {
        &&& out.len() == self.count()
        &&& forall|i: int| 0 <= i < out.len() ==> self.inner().produces(#[trigger] out[i])
    }

    open spec fn succeeds(&self) -> bool {
        self.inner().succeeds()
    }

    open spec fn may_fail_with(&self, e: AlgorithmError) -> bool {
        self.inner().may_fail_with(e)
    }

    fn name(&self) -> (r: String) {
        let mut name = self.algorithm.name();
        name.append(" repetition");
        name
    }

    fn input(&self) -> (r: Self::Input)
        ensures
            call_ensures(TAlgorithm::input, (&self.inner(),), r.input),
            r.repetition_count == self.count(),
    {
        RepetitionAlgorithmInput {
            input: self.algorithm.input(),
            repetition_count: self.repetition_count,
        }
    }

    fn get_repetitions(&self) -> (r: u64) {
        if self.repetition_count == 0 {
            assert(self.count() * self.inner().repetitions() == 0) by (nonlinear_arith)
                requires
                    self.count() == 0,
            ;
            return 0;
        }
        assert(self.inner().repetitions() <= self.count() * self.inner().repetitions())
            by (nonlinear_arith)
            requires
                self.count() >= 1,
        ;
        let inner = self.algorithm.get_repetitions();
        self.repetition_count as u64 * inner
    }

    /// Fails with the error of the lowest index whose run failed.
    fn run_internal(&self, progress: &mut Progress) -> (r: Result<Self::Output, AlgorithmError>)
        ensures
            r is Ok ==> final(progress).ticks() == old(progress).ticks() + self.count()
                * self.inner().repetitions(),
            r is Ok ==> r->Ok_0.len() == self.count(),
    {
        let count = self.repetition_count;
        let results = run_in_parallel(&self.algorithm, count, progress);
        let ghost start = progress.ticks();
        let mut series: Vec<TAlgorithm::Output> = Vec::with_capacity(count);
        for item in iter: results
            invariant
                iter.seq().len() == count,
                forall|i: int|
                    0 <= i < count ==> call_ensures(
                        run_forked::<TAlgorithm>,
                        (&self.algorithm, &*old(progress)),
                        #[trigger] iter.seq()[i],
                    ),
                self.well_formed(),
                series.len() == iter.index(),
                progress.ticks() == start + series.len() * self.inner().repetitions(),
                forall|i: int|
                    0 <= i < series.len() ==> self.inner().produces(#[trigger] series[i]),
                self.succeeds() ==> forall|i: int| 0 <= i < count ==> (#[trigger] iter.seq()[i]).0 is Ok,
        {
            let (result, fork) = item;
            match result {
                Ok(output) => {
                    proof {
                        assert(series.len() * self.inner().repetitions() + self.inner().repetitions()
                            == (series.len() + 1) * self.inner().repetitions()) by (nonlinear_arith);
                    }
                    progress.absorb(fork);
                    series.push(output);
                },
                Err(error) => {
                    return Err(error);
                },
            }
        }
        assert(progress.ticks() == old(progress).ticks() + self.repetitions());
        Ok(series)
    }
}

/// A repetition reports, on each run, `count` times the steps of the
/// algorithm it repeats.
pub proof fn repeat_multiplies_repetitions<TAlgorithm: Algorithm + Sync>(
    repeated: Repeat<TAlgorithm>,
)
    ensures
        repeated.repetitions() == repeated.count() * repeated.inner().repetitions(),
{
}

/// Turns an algorithm into its repetition.
pub trait IntoRepeat<TAlgorithm> {
    fn repeat(self, repetition_count: usize) -> Repeat<TAlgorithm>;
}

impl<TAlgorithm: Algorithm> IntoRepeat<TAlgorithm> for TAlgorithm {
    fn repeat(self, repetition_count: usize) -> (r: Repeat<TAlgorithm>)
        ensures
            r.inner() == self,
            r.count() == repetition_count,
    {
        Repeat::new(self, repetition_count)
    }
}

} // verus!

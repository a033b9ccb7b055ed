use vstd::prelude::*;
use vstd::string::StringExecFns;

use crate::algorithm::Algorithm;
use crate::error::AlgorithmError;
use crate::progress::Progress;
use crate::repeat::Repeat;

use std::marker::PhantomData;

verus! {

/// A pure, fallible function from the output of an algorithm to a statistic.
pub trait Reducer<TInput> {
    type Output: Send + Sync;

    /// Whether the reducer may be applied to `input`.
    spec fn accepts(&self, input: TInput) -> bool;

    /// Whether `r` is the result of applying the reducer to `input`.
    spec fn reduces_to(&self, input: TInput, r: Result<Self::Output, AlgorithmError>) -> bool;

    fn apply(&self, input: TInput) -> (r: Result<Self::Output, AlgorithmError>)
        requires
            self.accepts(input),
        ensures
            self.reduces_to(input, r),
    ;
}

/// A reducer given by a closure `reduce: TInput -> Result<TOutput, _>`.
pub struct FnReducer<TInput, TReduce, TOutput> {
    reduce: TReduce,
    types: PhantomData<(TInput, TOutput)>,
}

impl<TInput, TReduce, TOutput> FnReducer<TInput, TReduce, TOutput> {
    pub closed spec fn function(&self) -> TReduce {
        self.reduce
    }

    pub fn new(reduce: TReduce) -> (r: Self)
        ensures
            r.function() == reduce,
    {
        FnReducer { reduce, types: PhantomData }
    }
}

impl<TInput, TReduce, TOutput> Reducer<TInput> for FnReducer<TInput, TReduce, TOutput> where
    TReduce: Fn(TInput) -> Result<TOutput, AlgorithmError>,
    TOutput: Send + Sync,
 {
    type Output = TOutput;

    open spec fn accepts(&self, input: TInput) -> bool {
        call_requires(self.function(), (input,))
    }

    open spec fn reduces_to(&self, input: TInput, r: Result<TOutput, AlgorithmError>) -> bool {
        call_ensures(self.function(), (input,), r)
    }

    fn apply(&self, input: TInput) -> (r: Result<TOutput, AlgorithmError>) {
        (self.reduce)(input)
    }
}

/// Turns the output of an inner algorithm into a statistic with a
/// [`Reducer`].
pub struct Reduce<TAlgorithm, TReducer> {
    algorithm: TAlgorithm,
    reducer: TReducer,
}

impl<TAlgorithm, TReducer> Reduce<TAlgorithm, TReducer> {
    /// The algorithm whose output is reduced.
    pub closed spec fn inner(&self) -> TAlgorithm {
        self.algorithm
    }

    /// The reducer applied to that output.
    pub closed spec fn reducer(&self) -> TReducer {
        self.reducer
    }
}

impl<TAlgorithm, TReducer> Algorithm for Reduce<TAlgorithm, TReducer> where
    TAlgorithm: Algorithm,
    TReducer: Reducer<TAlgorithm::Output>,
 {
    type Input = TAlgorithm::Input;

    type Output = TReducer::Output;

    open spec fn spec_name(&self) -> Seq<char> {
        self.inner().spec_name() + " reduced"@
    }

    open spec fn repetitions(&self) -> nat {
        self.inner().repetitions()
    }

    open spec fn well_formed(&self) -> bool {
        &&& self.inner().well_formed()
        &&& forall|o: TAlgorithm::Output|
            self.inner().produces(o) ==> #[trigger] self.reducer().accepts(o)
    }

    open spec fn produces(&self, out: TReducer::Output) -> bool {
        exists|o: TAlgorithm::Output|
            self.inner().produces(o) && #[trigger] self.reducer().reduces_to(o, Ok(out))
    }

    open spec fn succeeds(&self) -> bool {
        &&& self.inner().succeeds()
        &&& forall|o: TAlgorithm::Output, r: Result<TReducer::Output, AlgorithmError>|
            self.inner().produces(o) && #[trigger] self.reducer().reduces_to(o, r) ==> r is Ok
    }

    /// The inner algorithm's errors and the reducer's errors on its outputs.
    open spec fn may_fail_with(&self, e: AlgorithmError) -> bool {
        ||| self.inner().may_fail_with(e)
        ||| exists|o: TAlgorithm::Output|
            self.inner().produces(o) && #[trigger] self.reducer().reduces_to(
                o,
                Err::<TReducer::Output, AlgorithmError>(e),
            )
    }

    fn name(&self) -> (r: String) {
        let mut name = self.algorithm.name();
        name.append(" reduced");
        name
    }

    fn input(&self) -> (r: Self::Input)
        ensures
            call_ensures(TAlgorithm::input, (&self.inner(),), r),
    {
        self.algorithm.input()
    }

    fn get_repetitions(&self) -> (r: u64) {
        self.algorithm.get_repetitions()
    }

    fn run_internal(&self, progress: &mut Progress) -> (r: Result<TReducer::Output, AlgorithmError>) {
        match self.algorithm.run_internal(&mut *progress) {
            Ok(output) => {
                assert(self.repetitions() == self.algorithm.repetitions());
                assert(progress.ticks() == old(progress).ticks() + self.algorithm.repetitions());
                assert(self.inner().produces(output));
                assert(self.reducer().accepts(output));
                let r = self.reducer.apply(output);
                assert(self.reducer().reduces_to(output, r));
                assert(r is Ok ==> self.produces(r->Ok_0));
                assert(r is Err ==> self.may_fail_with(r->Err_0));
                r
            },
            Err(error) => Err(error),
        }
    }
}

/// A reduction reports the same steps as the algorithm it reduces.
pub proof fn reduce_keeps_repetitions<TAlgorithm, TReducer>(reduced: Reduce<TAlgorithm, TReducer>)
    where
        TAlgorithm: Algorithm,
        TReducer: Reducer<TAlgorithm::Output>,

    ensures
        reduced.repetitions() == reduced.inner().repetitions(),
{
}

/// Attaches a reducer to a repetition.
pub trait IntoReduce<TAlgorithm: Algorithm> {
    fn reduce<TReducer>(self, reducer: TReducer) -> Reduce<TAlgorithm, TReducer> where
        TReducer: Reducer<TAlgorithm::Output>,
    ;
}

impl<TAlgorithm: Algorithm + Sync> IntoReduce<Repeat<TAlgorithm>> for Repeat<TAlgorithm> {
    fn reduce<TReducer>(self, reducer: TReducer) -> (r: Reduce<Repeat<TAlgorithm>, TReducer>) where
        TReducer: Reducer<<Repeat<TAlgorithm> as Algorithm>::Output>,
        ensures
            r.inner() == self,
            r.reducer() == reducer,
    {
        Reduce { algorithm: self, reducer }
    }
}

} // verus!

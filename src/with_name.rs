use vstd::prelude::*;

use crate::algorithm::Algorithm;
use crate::error::AlgorithmError;
use crate::progress::Progress;

verus! {

/// An algorithm shown under another name; everything else is the inner
/// algorithm's.
pub struct WithName<TAlgorithm> {
    algorithm: TAlgorithm,
    name: String,
}

impl<TAlgorithm> WithName<TAlgorithm> {
    /// The renamed algorithm.
    pub closed spec fn inner(&self) -> TAlgorithm {
        self.algorithm
    }

    /// The name it is shown under.
    pub closed spec fn shown_name(&self) -> Seq<char> {
        self.name@
    }
}

impl<TAlgorithm: Algorithm> Algorithm for WithName<TAlgorithm> {
    type Input = TAlgorithm::Input;

    type Output = TAlgorithm::Output;

    open spec fn spec_name(&self) -> Seq<char> {
        self.shown_name()
    }

    open spec fn repetitions(&self) -> nat {
        self.inner().repetitions()
    }

    open spec fn well_formed(&self) -> bool {
        self.inner().well_formed()
    }

    open spec fn produces(&self, out: Self::Output) -> bool {
        self.inner().produces(out)
    }

    open spec fn succeeds(&self) -> bool {
        self.inner().succeeds()
    }

    open spec fn may_fail_with(&self, e: AlgorithmError) -> bool {
        self.inner().may_fail_with(e)
    }

    fn name(&self) -> (r: String) {
        self.name.clone()
    }

    fn input(&self) -> (r: Self::Input)
        ensures
            call_ensures(TAlgorithm::input, (&self.inner(),), r),
    {
        self.algorithm.input()
    }

    fn get_repetitions(&self) -> (r: u64) {
        self.algorithm.get_repetitions()
    }

    fn run_internal(&self, progress: &mut Progress) -> (r: Result<Self::Output, AlgorithmError>) {
        let r = self.algorithm.run_internal(&mut *progress);
        assert(self.repetitions() == self.algorithm.repetitions());
        assert(r is Ok ==> progress.ticks() == old(progress).ticks() + self.algorithm.repetitions());
        r
    }
}

/// Gives an algorithm a display name of its own.
pub trait IntoWithName<TAlgorithm> {
    fn with_name(self, name: String) -> WithName<TAlgorithm>;
}

impl<TAlgorithm: Algorithm> IntoWithName<TAlgorithm> for TAlgorithm {
    fn with_name(self, name: String) -> (r: WithName<TAlgorithm>)
        ensures
            r.inner() == self,
            r.shown_name() == name@,
    {
        WithName { algorithm: self, name }
    }
}

} // verus!

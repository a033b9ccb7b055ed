use vstd::prelude::*;

use crate::algorithm::Algorithm;
use crate::error::AlgorithmError;
use crate::progress::Progress;
use crate::random::{random_usizes, shuffle};
use crate::reduce::{IntoReduce, Reducer};
use crate::repeat::{IntoRepeat, Repeat};

verus! {

broadcast use vstd::seq_lib::group_to_multiset_ensures;

/// Whether `p[j]` is at least every element of the first half of `p`.
pub open spec fn clears_threshold(p: Seq<usize>, j: int) -> bool {
    forall|k: int| 0 <= k < p.len() / 2 ==> p[k] <= p[j]
}

/// Scanning `p` from position `j`: the first element that clears the
/// threshold, else the last element.
pub open spec fn first_accepted(p: Seq<usize>, j: int) -> usize
    decreases p.len() - j,
{
    if j >= p.len() {
        p[p.len() - 1]
    } else if clears_threshold(p, j) {
        p[j]
    } else {
        first_accepted(p, j + 1)
    }
}

/// The classical stopping rule on the order `p`: take the maximum of the
/// first half as a threshold, then the first element of the second half that
/// is at least that threshold, else the last element.
pub open spec fn secretary_choice(p: Seq<usize>) -> usize {
    first_accepted(p, (p.len() / 2) as int)
}

/// The largest element of a non-empty sequence.
pub open spec fn seq_max(s: Seq<usize>) -> usize
    decreases s.len(),
{
    if s.len() <= 1 {
        s[0]
    } else {
        let rest = seq_max(s.drop_last());
        if s.last() > rest { s.last() } else { rest }
    }
}

/// The smallest element of a non-empty sequence.
pub open spec fn seq_min(s: Seq<usize>) -> usize
    decreases s.len(),
{
    if s.len() <= 1 {
        s[0]
    } else {
        let rest = seq_min(s.drop_last());
        if s.last() < rest { s.last() } else { rest }
    }
}

/// The sum of the elements.
pub open spec fn seq_sum(s: Seq<usize>) -> int
    decreases s.len(),
{
    if s.len() == 0 {
        0
    } else {
        seq_sum(s.drop_last()) + s.last()
    }
}

/// How many elements equal `v`.
pub open spec fn count_equal(s: Seq<usize>, v: usize) -> nat
    decreases s.len(),
{
    if s.len() == 0 {
        0
    } else {
        count_equal(s.drop_last(), v) + if s.last() == v { 1nat } else { 0nat }
    }
}

proof fn lemma_first_accepted_in(p: Seq<usize>, j: int)
    requires
        p.len() > 0,
        0 <= j,
    ensures
        p.contains(first_accepted(p, j)),
    decreases p.len() - j,
{
    if j >= p.len() {
        assert(p[p.len() - 1] == p[p.len() - 1]);
    } else if clears_threshold(p, j) {
        assert(p[j] == p[j]);
    } else {
        lemma_first_accepted_in(p, j + 1);
    }
}

proof fn lemma_max_bounds(s: Seq<usize>)
    requires
        s.len() > 0,
    ensures
        forall|k: int| 0 <= k < s.len() ==> s[k] <= seq_max(s),
        s.contains(seq_max(s)),
    decreases s.len(),
{
    if s.len() > 1 {
        lemma_max_bounds(s.drop_last());
        assert(forall|k: int| 0 <= k < s.len() - 1 ==> s[k] == s.drop_last()[k]);
    } else {
        assert(s[0] == s[0]);
    }
}

proof fn lemma_min_bounds(s: Seq<usize>)
    requires
        s.len() > 0,
    ensures
        forall|k: int| 0 <= k < s.len() ==> seq_min(s) <= s[k],
    decreases s.len(),
{
    if s.len() > 1 {
        lemma_min_bounds(s.drop_last());
        assert(forall|k: int| 0 <= k < s.len() - 1 ==> s[k] == s.drop_last()[k]);
    }
}

/// One draw of the secretary experiment: shuffle the array, then apply the
/// stopping rule.
pub struct SecreteryProblemAlgorithm {
    array: Vec<usize>,
}

impl SecreteryProblemAlgorithm {
    pub closed spec fn array(&self) -> Seq<usize> {
        self.array@
    }

    pub fn new(array: Vec<usize>) -> (r: Self)
        ensures
            r.array() == array@,
    {
        SecreteryProblemAlgorithm { array }
    }
}

/// Applies the stopping rule to the order `p`.
pub fn stopping_rule(p: &Vec<usize>) -> (r: usize)
    requires
        p.len() > 0,
    ensures
        r == secretary_choice(p@),
{
    let n = p.len();
    let half = n / 2;
    let mut threshold: usize = 0;
    let mut k: usize = 0;
    while k < half
        invariant
            half == p.len() / 2,
            k <= half,
            forall|i: int| 0 <= i < k ==> p[i] <= threshold,
            k > 0 ==> exists|i: int| 0 <= i < k && p[i] == threshold,
            k == 0 ==> threshold == 0,
        decreases half - k,
    {
        if k == 0 || p[k] > threshold {
            threshold = p[k];
        }
        k = k + 1;
    }
    let mut j = half;
    while j < n
        invariant
            n == p.len(),
            half == n / 2,
            half <= j <= n,
            forall|i: int| 0 <= i < half ==> p[i] <= threshold,
            half > 0 ==> exists|i: int| 0 <= i < half && p[i] == threshold,
            half == 0 ==> threshold == 0,
            first_accepted(p@, half as int) == first_accepted(p@, j as int),
        decreases n - j,
    {
        if p[j] >= threshold {
            assert(clears_threshold(p@, j as int));
            return p[j];
        }
        proof {
            let i = choose|i: int| 0 <= i < half && p[i] == threshold;
            assert(p[i] > p[j as int]);
        }
        assert(!clears_threshold(p@, j as int));
        j = j + 1;
    }
    p[n - 1]
}

impl Algorithm for SecreteryProblemAlgorithm {
    type Input = Vec<usize>;

    type Output = usize;

    open spec fn spec_name(&self) -> Seq<char> {
        "Secretery problem"@
    }

    open spec fn repetitions(&self) -> nat {
        1
    }

    open spec fn well_formed(&self) -> bool {
        true
    }

    /// The rule's choice on some order of the array.
    open spec fn produces(&self, out: usize) -> bool {
        exists|p: Seq<usize>|
            p.to_multiset() == self.array().to_multiset() && p.len() > 0 && out
                == secretary_choice(p)
    }

    open spec fn succeeds(&self) -> bool {
        self.array().len() > 0
    }

    open spec fn may_fail_with(&self, e: AlgorithmError) -> bool {
        e == AlgorithmError::EmptyInput
    }

    fn name(&self) -> (r: String) {
        String::from_str("Secretery problem")
    }

    fn input(&self) -> (r: Vec<usize>)
        ensures
            r@ == self.array(),
    {
        self.array.clone()
    }

    fn get_repetitions(&self) -> (r: u64) {
        1
    }

    /// Fails on an empty array.
    fn run_internal(&self, progress: &mut Progress) -> (r: Result<usize, AlgorithmError>)
        ensures
            r is Err <==> self.array().len() == 0,
            r is Err ==> r->Err_0 == AlgorithmError::EmptyInput,
            r is Err ==> final(progress).ticks() == old(progress).ticks(),
    {
        if self.array.len() == 0 {
            return Err(AlgorithmError::EmptyInput);
        }
        let mut permutation = self.array.clone();
        proof {
            assert(permutation@ == self.array@);
        }
        shuffle(&mut permutation);
        proof {
            permutation@.to_multiset_ensures();
            self.array@.to_multiset_ensures();
            assert(permutation@.len() == self.array@.len());
        }
        let result = stopping_rule(&permutation);
        progress.tick();
        assert(self.repetitions() == 1);
        Ok(result)
    }
}

/// The outcome of the secretary experiment, kept exact: the share of hits is
/// `hit_count / runs` and the average choice is `sum / runs`.
#[derive(Debug, Clone, Copy, PartialEq, Eq, Structural)]
pub struct Q1Result {
    /// Runs whose choice was the largest element of the array.
    pub hit_count: usize,
    /// Runs of the stopping rule.
    pub runs: usize,
    /// Sum of the choices over all runs.
    pub sum: u128,
}

/// Whether `r` summarises `series`, the choices of the runs, against `array`.
pub open spec fn summarizes(array: Seq<usize>, series: Seq<usize>, r: Result<Q1Result, AlgorithmError>) -> bool {
    if array.len() == 0 {
        r == Err::<Q1Result, AlgorithmError>(AlgorithmError::EmptyInput)
    } else {
        &&& r is Ok
        &&& r->Ok_0.hit_count == count_equal(series, seq_max(array))
        &&& r->Ok_0.runs == series.len()
        &&& r->Ok_0.sum == seq_sum(series)
    }
}

/// The largest element of a non-empty array.
pub fn max_of(array: &Vec<usize>) -> (r: usize)
    requires
        array.len() > 0,
    ensures
        r == seq_max(array@),
{
    let mut m = array[0];
    let mut i: usize = 1;
    while i < array.len()
        invariant
            1 <= i <= array.len(),
            m == seq_max(array@.subrange(0, i as int)),
        decreases array.len() - i,
    {
        assert(array@.subrange(0, i + 1).drop_last() == array@.subrange(0, i as int));
        if array[i] > m {
            m = array[i];
        }
        i = i + 1;
    }
    assert(array@.subrange(0, array.len() as int) == array@);
    m
}

/// Counts the runs whose choice was the largest element of `array`, and sums
/// the choices. Fails on an empty array.
pub fn summarize(array: &Vec<usize>, series: &Vec<usize>) -> (r: Result<Q1Result, AlgorithmError>)
    ensures
        summarizes(array@, series@, r),
{
    if array.len() == 0 {
        return Err(AlgorithmError::EmptyInput);
    }
    let max = max_of(array);
    let mut hit_count: usize = 0;
    let mut sum: u128 = 0;
    let mut i: usize = 0;
    while i < series.len()
        invariant
            i <= series.len(),
            hit_count == count_equal(series@.subrange(0, i as int), max),
            sum == seq_sum(series@.subrange(0, i as int)),
            hit_count <= i,
            sum <= i * (usize::MAX as int),
        decreases series.len() - i,
    {
        assert(series@.subrange(0, i + 1).drop_last() == series@.subrange(0, i as int));
        if series[i] == max {
            hit_count = hit_count + 1;
        }
        assert(sum + series[i as int] <= (i + 1) * (usize::MAX as int)) by (nonlinear_arith)
            requires
                sum <= i * (usize::MAX as int),
                series[i as int] <= usize::MAX,
        ;
        sum = sum + series[i] as u128;
        i = i + 1;
    }
    assert(series@.subrange(0, series.len() as int) == series@);
    Ok(Q1Result { hit_count, runs: series.len(), sum })
}

/// The secretary experiment stays in range: there are no more hits than runs,
/// the average choice lies between the smallest and the largest element of
/// the array, and every miss lies below the largest element, as long as
/// every choice is an element of the array.
pub proof fn summary_in_range(array: Seq<usize>, series: Seq<usize>)
    requires
        array.len() > 0,
        forall|i: int| 0 <= i < series.len() ==> array.contains(#[trigger] series[i]),
    ensures
        count_equal(series, seq_max(array)) <= series.len(),
        series.len() * seq_min(array) <= seq_sum(series) <= series.len() * seq_max(array),
        seq_sum(series) + (series.len() - count_equal(series, seq_max(array))) <= series.len()
            * seq_max(array),
    decreases series.len(),
{
    if series.len() > 0 {
        let rest = series.drop_last();
        assert(forall|i: int| 0 <= i < rest.len() ==> rest[i] == series[i]);
        summary_in_range(array, rest);
        lemma_max_bounds(array);
        lemma_min_bounds(array);
        assert(array.contains(series[series.len() - 1]));
        assert(seq_min(array) <= series.last() <= seq_max(array));
        assert(series.len() * seq_min(array) == rest.len() * seq_min(array) + seq_min(array))
            by (nonlinear_arith)
            requires
                series.len() == rest.len() + 1,
        ;
        assert(series.len() * seq_max(array) == rest.len() * seq_max(array) + seq_max(array))
            by (nonlinear_arith)
            requires
                series.len() == rest.len() + 1,
        ;
    }
}

/// Every output of the secretary algorithm is an element of its array.
proof fn lemma_produces_element(algorithm: SecreteryProblemAlgorithm, out: usize)
    requires
        algorithm.produces(out),
    ensures
        algorithm.array().contains(out),
{
    let p = choose|p: Seq<usize>|
        p.to_multiset() == algorithm.array().to_multiset() && p.len() > 0 && out
            == secretary_choice(p);
    lemma_first_accepted_in(p, (p.len() / 2) as int);
    p.to_multiset_ensures();
    algorithm.array().to_multiset_ensures();
    assert(p.contains(out));
    assert(p.to_multiset().count(out) > 0);
    assert(algorithm.array().to_multiset().count(out) > 0);
}

/// What the summary of a series of secretary choices holds stays in range.
proof fn lemma_experiment_in_range(
    repeated: Repeat<SecreteryProblemAlgorithm>,
    series: Vec<usize>,
    out: Q1Result,
    array: Seq<usize>,
)
    requires
        repeated.produces(series),
        repeated.inner().array() == array,
        summarizes(array, series@, Ok(out)),
    ensures
        out.runs == repeated.count(),
        out.hit_count <= out.runs,
        out.runs * seq_min(array) <= out.sum <= out.runs * seq_max(array),
        out.sum + (out.runs - out.hit_count) <= out.runs * seq_max(array),
{
    assert forall|i: int| 0 <= i < series@.len() implies array.contains(#[trigger] series@[i]) by {
        assert(repeated.inner().produces(series[i]));
        lemma_produces_element(repeated.inner(), series@[i]);
    }
    if array.len() > 0 {
        summary_in_range(array, series@);
    }
}

/// Summarises the choices of a run of repetitions against the array they
/// were drawn from.
pub struct SecretarySummary {
    array: Vec<usize>,
}

impl SecretarySummary {
    pub closed spec fn array(&self) -> Seq<usize> {
        self.array@
    }

    pub fn new(array: Vec<usize>) -> (r: Self)
        ensures
            r.array() == array@,
    {
        SecretarySummary { array }
    }
}

impl Reducer<Vec<usize>> for SecretarySummary {
    type Output = Q1Result;

    open spec fn accepts(&self, input: Vec<usize>) -> bool {
        true
    }

    open spec fn reduces_to(&self, input: Vec<usize>, r: Result<Q1Result, AlgorithmError>) -> bool {
        summarizes(self.array(), input@, r)
    }

    fn apply(&self, input: Vec<usize>) -> (r: Result<Q1Result, AlgorithmError>) {
        summarize(&self.array, &input)
    }
}

/// Runs the stopping rule `repeat_count` times on shuffles of `array` and
/// summarises the choices. Fails exactly when the array is empty.
pub fn secretary_experiment(array: Vec<usize>, repeat_count: usize) -> (r: Result<Q1Result, AlgorithmError>)
    ensures
        r is Err <==> array.len() == 0,
        r is Err ==> r->Err_0 == AlgorithmError::EmptyInput,
        r is Ok ==> {
            let s = r->Ok_0;
            &&& s.runs == repeat_count
            &&& s.hit_count <= s.runs
            &&& s.runs * seq_min(array@) <= s.sum <= s.runs * seq_max(array@)
            &&& s.sum + (s.runs - s.hit_count) <= s.runs * seq_max(array@)
        },
        r is Ok && array.len() == 1 ==> r->Ok_0.hit_count == r->Ok_0.runs && r->Ok_0.sum
            == r->Ok_0.runs * array@[0],
{
    let summary = SecretarySummary::new(array.clone());
    proof {
        assert(summary.array() =~= array@);
    }
    let ghost array_view = array@;
    let algorithm = SecreteryProblemAlgorithm::new(array);
    let repeated = algorithm.repeat(repeat_count);
    assert(repeated.repetitions() == repeat_count) by {
        assert(algorithm.repetitions() == 1);
        assert(repeated.count() * repeated.inner().repetitions() == repeat_count) by (nonlinear_arith)
            requires
                repeated.inner().repetitions() == 1,
                repeated.count() == repeat_count,
        ;
    }
    let pipeline = repeated.reduce(summary);
    let result = pipeline.run();
    proof {
        if array_view.len() > 0 {
            assert(pipeline.succeeds());
        }
        if result is Ok {
            let out = result->Ok_0;
            let series = choose|o: Vec<usize>|
                repeated.produces(o) && summary.reduces_to(o, Ok(out));
            lemma_experiment_in_range(repeated, series, out, array_view);
            if array_view.len() == 1 {
                reveal_with_fuel(seq_max, 2);
                reveal_with_fuel(seq_min, 2);
                assert(seq_max(array_view) == array_view[0]);
                assert(seq_min(array_view) == array_view[0]);
            }
        }
        if result is Err {
            let e = result->Err_0;
            if !repeated.may_fail_with(e) {
                let series = choose|o: Vec<usize>|
                    repeated.produces(o) && summary.reduces_to(o, Err::<Q1Result, AlgorithmError>(e));
                assert(summarizes(array_view, series@, Err::<Q1Result, AlgorithmError>(e)));
            }
        }
    }
    result
}

/// The secretary experiment on a random array.
pub struct Q1Command {
    /// Length of the array that will be generated.
    pub array_length: usize,
    /// How many times the stopping rule runs.
    pub repeat_count: usize,
}

/// Exclusive upper bound of the values of the random array.
pub const VALUE_BOUND: usize = 10000;

impl Q1Command {
    /// Draws an array of `array_length` values from `0..10000` and runs the
    /// secretary experiment on it `repeat_count` times. Fails exactly when
    /// the array is empty.
    pub fn invoke(&self) -> (r: Result<Q1Result, AlgorithmError>)
        ensures
            r is Err <==> self.array_length == 0,
            r is Err ==> r->Err_0 == AlgorithmError::EmptyInput,
            r is Ok ==> {
                let s = r->Ok_0;
                &&& s.runs == self.repeat_count
                &&& s.hit_count <= s.runs
                &&& s.sum <= s.runs * (VALUE_BOUND - 1)
            },
            r is Ok && self.array_length == 1 ==> r->Ok_0.hit_count == r->Ok_0.runs,
    {
        let array = random_usizes(self.array_length, 0, VALUE_BOUND);
        let result = secretary_experiment(array, self.repeat_count);
        proof {
            if result is Ok {
                lemma_max_bounds(array@);
                let k = choose|k: int| 0 <= k < array@.len() && array@[k] == seq_max(array@);
                assert(seq_max(array@) <= VALUE_BOUND - 1);
                let s = result->Ok_0;
                assert(s.runs * seq_max(array@) <= s.runs * (VALUE_BOUND - 1)) by (nonlinear_arith)
                    requires
                        seq_max(array@) <= VALUE_BOUND - 1,
                ;
            }
        }
        result
    }
}

} // verus!

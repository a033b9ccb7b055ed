use vstd::prelude::*;

use crate::algorithm::Algorithm;
use crate::error::AlgorithmError;
use crate::l2::{
    abs_sum, abs_total, is_sign_vector, l2_draw, lemma_draw_bound, lemma_signed_sum_bound,
    lemma_sum_squares_le_abs_sum_squared, lemma_total_bound, signed_sum, sum_of_draws, sum_squares,
    sum_u64, total_of, L2Algorithm,
};
use crate::reduce::{IntoReduce, Reduce, Reducer};
use crate::repeat::{IntoRepeat, Repeat};
use crate::vec_extensions::l2_norm;
use crate::with_name::IntoWithName;

verus! {

broadcast use vstd::seq_lib::group_to_multiset_ensures;

/// Whether `s` is sorted in ascending order.
pub open spec fn sorted(s: Seq<u128>) -> bool {
    forall|i: int, j: int| 0 <= i <= j < s.len() ==> s[i] <= s[j]
}

/// Relies on std's `slice::sort_unstable`: sorts the slice in ascending
/// order, in place.
#[verifier::external_body]
fn sort_ascending(values: &mut Vec<u128>)
    ensures
        final(values)@.to_multiset() == old(values)@.to_multiset(),
        sorted(final(values)@),
{
    values.sort_unstable()
}

/// Sums the estimates of a run of repetitions; the mean is the sum divided
/// by their number.
pub struct Total;

impl Reducer<Vec<u64>> for Total {
    type Output = u128;

    open spec fn accepts(&self, input: Vec<u64>) -> bool {
        true
    }

    open spec fn reduces_to(&self, input: Vec<u64>, r: Result<u128, AlgorithmError>) -> bool {
        r is Ok && r->Ok_0 == total_of(input@)
    }

    fn apply(&self, input: Vec<u64>) -> (r: Result<u128, AlgorithmError>) {
        Ok(sum_u64(&input))
    }
}

/// Picks the element at position `⌊k/2⌋` of the sorted sequence of `k`
/// values (the upper median). Fails on an empty sequence.
pub struct UpperMedian;

impl Reducer<Vec<u128>> for UpperMedian {
    type Output = u128;

    open spec fn accepts(&self, input: Vec<u128>) -> bool {
        true
    }

    open spec fn reduces_to(&self, input: Vec<u128>, r: Result<u128, AlgorithmError>) -> bool {
        if input.len() == 0 {
            r == Err::<u128, AlgorithmError>(AlgorithmError::EmptyInput)
        } else {
            exists|p: Seq<u128>|
                p.to_multiset() == input@.to_multiset() && sorted(p) && r == Ok::<
                    u128,
                    AlgorithmError,
                >(p[(input.len() / 2) as int])
        }
    }

    fn apply(&self, input: Vec<u128>) -> (r: Result<u128, AlgorithmError>) {
        if input.len() == 0 {
            return Err(AlgorithmError::EmptyInput);
        }
        let mut values = input;
        let ghost original = values@;
        sort_ascending(&mut values);
        proof {
            values@.to_multiset_ensures();
            original.to_multiset_ensures();
            assert(values@.len() == original.len());
        }
        let mid = values.len() / 2;
        Ok(values[mid])
    }
}

/// Whether `x` is the upper median of `k2 > 0` sums of `k1` draws each of
/// the L2 sketch on `v`: the element at position `⌊k2/2⌋` of the sorted sums.
pub open spec fn median_of_means(v: Seq<i64>, k1: nat, k2: nat, x: int) -> bool {
    exists|sums: Seq<u128>, p: Seq<u128>|
        {
            &&& k2 > 0
            &&& sums.len() == k2
            &&& forall|i: int| 0 <= i < k2 ==> sum_of_draws(v, k1, #[trigger] sums[i] as int)
            &&& p.to_multiset() == sums.to_multiset()
            &&& sorted(p)
            &&& x == p[(k2 / 2) as int]
        }
}

/// On the zero vector every draw of the L2 sketch, every sum of draws and
/// every median of means is 0.
pub proof fn zero_vector_layers_vanish(v: Seq<i64>, k1: nat, k2: nat, x: int)
    requires
        abs_sum(v) == 0,
    ensures
        l2_draw(v, x) ==> x == 0,
        sum_of_draws(v, k1, x) ==> x == 0,
        median_of_means(v, k1, k2, x) ==> x == 0,
{
    assert forall|y: int| l2_draw(v, y) implies y == 0 by {
        let s = choose|s: Seq<i64>| is_sign_vector(s, v.len()) && y == signed_sum(v, s) * signed_sum(v, s);
        lemma_signed_sum_bound(v, s);
    }
    assert forall|y: int| sum_of_draws(v, k1, y) implies y == 0 by {
        let d = choose|d: Seq<u64>|
            d.len() == k1 && (forall|i: int| 0 <= i < k1 ==> l2_draw(v, #[trigger] d[i] as int)) && y
                == total_of(d);
        assert forall|i: int| 0 <= i < d.len() implies #[trigger] d[i] <= 0 by {
            assert(l2_draw(v, d[i] as int));
        }
        lemma_total_bound(d, 0);
        assert(d.len() * 0 == 0) by (nonlinear_arith);
    }
    if median_of_means(v, k1, k2, x) {
        let (sums, p) = choose|sums: Seq<u128>, p: Seq<u128>|
            {
                &&& k2 > 0
                &&& sums.len() == k2
                &&& forall|i: int| 0 <= i < k2 ==> sum_of_draws(v, k1, #[trigger] sums[i] as int)
                &&& p.to_multiset() == sums.to_multiset()
                &&& sorted(p)
                &&& x == p[(k2 / 2) as int]
            };
        p.to_multiset_ensures();
        sums.to_multiset_ensures();
        assert(p.len() == sums.len());
        assert(p.contains(p[(k2 / 2) as int]));
        assert(sums.to_multiset().count(p[(k2 / 2) as int]) > 0);
        let k = choose|k: int| 0 <= k < sums.len() && sums[k] == p[(k2 / 2) as int];
        assert(sum_of_draws(v, k1, sums[k] as int));
    }
}

/// Whether `mean_times_k / k`, a mean of `k` estimates, lies in
/// `[(1 - ε)·norm, (1 + ε)·norm]` with `ε = numerator / denominator`.
pub open spec fn in_window(sum: int, k: int, norm: int, numerator: int, denominator: int) -> bool {
    (denominator - numerator) * norm * k <= sum * denominator <= (denominator + numerator) * norm * k
}

/// How many of the sums fall in the window.
pub open spec fn count_in_window(
    sums: Seq<u128>,
    k: int,
    norm: int,
    numerator: int,
    denominator: int,
) -> nat
    decreases sums.len(),
{
    if sums.len() == 0 {
        0
    } else {
        count_in_window(sums.drop_last(), k, norm, numerator, denominator) + if in_window(
            sums.last() as int,
            k,
            norm,
            numerator,
            denominator,
        ) {
            1nat
        } else {
            0nat
        }
    }
}

/// Largest estimate sum the success count handles: `2^84`.
pub const SUM_BOUND: u128 = 0x10_0000_0000_0000_0000_0000;

/// The outcome of the amplified L2 experiment: the success rate is
/// `successes / trials`.
#[derive(Debug, Clone, Copy, PartialEq, Eq, Structural)]
pub struct Q2AmplificatedResult {
    /// Trials whose median of means fell in the acceptance window.
    pub successes: usize,
    /// Number of trials.
    pub trials: usize,
}

/// Counts the medians of means that fall in the acceptance window around the
/// squared norm.
pub struct SuccessRate {
    /// `Σ v_i²` of the vector.
    pub norm: u128,
    /// Number of estimates behind each mean.
    pub group_size: u128,
    pub epsilon_numerator: u16,
    pub epsilon_denominator: u16,
}

impl Reducer<Vec<u128>> for SuccessRate {
    type Output = Q2AmplificatedResult;

    open spec fn accepts(&self, input: Vec<u128>) -> bool {
        &&& self.norm <= u64::MAX
        &&& self.group_size < 0x10_0000
        &&& self.epsilon_numerator <= self.epsilon_denominator
        &&& forall|i: int| 0 <= i < input.len() ==> #[trigger] input[i] <= SUM_BOUND
    }

    open spec fn reduces_to(&self, input: Vec<u128>, r: Result<Q2AmplificatedResult, AlgorithmError>) -> bool {
        &&& r is Ok
        &&& r->Ok_0.trials == input.len()
        &&& r->Ok_0.successes == count_in_window(
            input@,
            self.group_size as int,
            self.norm as int,
            self.epsilon_numerator as int,
            self.epsilon_denominator as int,
        )
    }

    fn apply(&self, input: Vec<u128>) -> (r: Result<Q2AmplificatedResult, AlgorithmError>) {
        let num = self.epsilon_numerator as u128;
        let den = self.epsilon_denominator as u128;
        let low_factor = den - num;
        let high_factor = den + num;
        assert(high_factor * self.norm <= 0x2_0000 * 0x1_0000_0000_0000_0000) by (nonlinear_arith)
            requires
                high_factor <= 0x2_0000,
                self.norm <= 0x1_0000_0000_0000_0000,
        ;
        assert(high_factor * self.norm * self.group_size <= 0x2_0000 * 0x1_0000_0000_0000_0000
            * 0x10_0000) by (nonlinear_arith)
            requires
                high_factor * self.norm <= 0x2_0000 * 0x1_0000_0000_0000_0000,
                self.group_size <= 0x10_0000,
        ;
        assert(low_factor * self.norm <= high_factor * self.norm) by (nonlinear_arith)
            requires
                low_factor <= high_factor,
        ;
        assert(low_factor * self.norm * self.group_size <= high_factor * self.norm
            * self.group_size) by (nonlinear_arith)
            requires
                low_factor * self.norm <= high_factor * self.norm,
        ;
        let low = low_factor * self.norm * self.group_size;
        let high = high_factor * self.norm * self.group_size;
        let mut successes: usize = 0;
        let mut i: usize = 0;
        while i < input.len()
            invariant
                i <= input.len(),
                successes <= i,
                forall|j: int| 0 <= j < input.len() ==> #[trigger] input[j] <= SUM_BOUND,
                den <= 0xffff,
                low == (den - num) * self.norm * self.group_size,
                high == (den + num) * self.norm * self.group_size,
                num == self.epsilon_numerator,
                den == self.epsilon_denominator,
                successes == count_in_window(
                    input@.subrange(0, i as int),
                    self.group_size as int,
                    self.norm as int,
                    self.epsilon_numerator as int,
                    self.epsilon_denominator as int,
                ),
            decreases input.len() - i,
        {
            let m = input[i];
            assert(m * den <= SUM_BOUND * 0xffff) by (nonlinear_arith)
                requires
                    m <= SUM_BOUND,
                    den <= 0xffff,
            ;
            let scaled = m * den;
            assert(input@.subrange(0, i + 1).drop_last() == input@.subrange(0, i as int));
            assert(in_window(m as int, self.group_size as int, self.norm as int, num as int, den as int)
                == (low <= scaled && scaled <= high));
            if low <= scaled && scaled <= high {
                successes = successes + 1;
            }
            i = i + 1;
        }
        assert(input@.subrange(0, input.len() as int) == input@);
        Ok(Q2AmplificatedResult { successes, trials: input.len() })
    }
}

/// Trials of the amplified experiment.
pub const TRIALS: usize = 1000;

/// The amplified L2 experiment with `ε = epsilon_numerator /
/// epsilon_denominator` and `group_count` medians per trial.
pub struct Q2AmplificatedCommand {
    pub epsilon_numerator: u16,
    pub epsilon_denominator: u16,
    /// `⌊18·ln(2/δ) + 1⌋`: how many means each median is taken over.
    pub group_count: usize,
}

/// The inner layer: the sum of `k₁` estimates.
pub type MeanLayer = Reduce<Repeat<L2Algorithm>, Total>;

/// The middle layer: the upper median of `k₂` sums.
pub type MedianLayer = Reduce<Repeat<MeanLayer>, UpperMedian>;

/// `⌈9 / ε⌉` for `ε = numerator / denominator`.
pub open spec fn group_size_of(numerator: int, denominator: int) -> int {
    (9 * denominator + numerator - 1) / numerator
}

/// Whether the parameters are accepted: `0 < ε ≤ 1`, the vector's estimates
/// fit in a `u64` and the leaf steps of a run fit in a `u64`.
pub open spec fn amplified_parameters_valid(command: Q2AmplificatedCommand, v: Seq<i64>) -> bool {
    &&& command.epsilon_denominator > 0
    &&& 0 < command.epsilon_numerator <= command.epsilon_denominator
    &&& abs_sum(v) <= u32::MAX
    &&& TRIALS * command.group_count * group_size_of(
        command.epsilon_numerator as int,
        command.epsilon_denominator as int,
    ) <= u64::MAX
}

proof fn lemma_mean_bound(layer: MeanLayer, out: u128, a: int)
    requires
        layer.produces(out),
        a == abs_sum(layer.inner().inner().array()),
    ensures
        out <= layer.inner().count() * (a * a),
{
    let repeated = layer.inner();
    let series = choose|o: Vec<u64>| repeated.produces(o) && layer.reducer().reduces_to(o, Ok(out));
    assert forall|i: int| 0 <= i < series@.len() implies #[trigger] series@[i] <= a * a by {
        assert(repeated.inner().produces(series[i]));
        lemma_draw_bound(repeated.inner(), series@[i]);
    }
    lemma_total_bound(series@, a * a);
}

proof fn lemma_mean_is_sum(layer: MeanLayer, out: u128)
    requires
        layer.produces(out),
    ensures
        sum_of_draws(layer.inner().inner().array(), layer.inner().count(), out as int),
{
    let repeated = layer.inner();
    let v = repeated.inner().array();
    let series = choose|o: Vec<u64>| repeated.produces(o) && layer.reducer().reduces_to(o, Ok(out));
    assert forall|i: int| 0 <= i < repeated.count() implies l2_draw(v, #[trigger] series@[i] as int) by {
        assert(repeated.inner().produces(series[i]));
    }
    assert(series@.len() == repeated.count() && out == total_of(series@));
}

proof fn lemma_median_is_median_of_means(layer: MedianLayer, out: u128)
    requires
        layer.produces(out),
    ensures
        median_of_means(
            layer.inner().inner().inner().inner().array(),
            layer.inner().inner().inner().count(),
            layer.inner().count(),
            out as int,
        ),
{
    let repeated = layer.inner();
    let means = repeated.inner();
    let v = means.inner().inner().array();
    let k1 = means.inner().count();
    let k2 = repeated.count();
    let series = choose|o: Vec<u128>| repeated.produces(o) && layer.reducer().reduces_to(o, Ok(out));
    assert(series.len() > 0);
    let p = choose|p: Seq<u128>|
        p.to_multiset() == series@.to_multiset() && sorted(p) && Ok::<u128, AlgorithmError>(out)
            == Ok::<u128, AlgorithmError>(p[(series.len() / 2) as int]);
    assert forall|i: int| 0 <= i < k2 implies sum_of_draws(v, k1, #[trigger] series@[i] as int) by {
        assert(means.produces(series[i]));
        lemma_mean_is_sum(means, series@[i]);
    }
    assert(k2 > 0 && series@.len() == k2 && out == p[(k2 / 2) as int]);
}

proof fn lemma_median_bound(layer: MedianLayer, out: u128, bound: int)
    requires
        layer.produces(out),
        forall|x: u128| layer.inner().inner().produces(x) ==> x <= bound,
    ensures
        out <= bound,
{
    let repeated = layer.inner();
    let series = choose|o: Vec<u128>| repeated.produces(o) && layer.reducer().reduces_to(o, Ok(out));
    let p = choose|p: Seq<u128>|
        p.to_multiset() == series@.to_multiset() && sorted(p) && Ok::<u128, AlgorithmError>(out)
            == Ok::<u128, AlgorithmError>(p[(series.len() / 2) as int]);
    p.to_multiset_ensures();
    series@.to_multiset_ensures();
    assert(p.contains(out));
    assert(series@.to_multiset().count(out) > 0);
    assert(series@.contains(out));
    let k = choose|k: int| 0 <= k < series@.len() && series@[k] == out;
    assert(repeated.inner().produces(series[k]));
}

impl Q2AmplificatedCommand {
    /// Runs `TRIALS` trials of the median of `group_count` means of `⌈9/ε⌉`
    /// estimates each, and counts the trials whose median of means lies in
    /// `[(1 - ε)·‖v‖², (1 + ε)·‖v‖²]`. Fails with `ParameterOutOfRange` on
    /// parameters it does not accept, and with `EmptyInput` when
    /// `group_count` is zero.
    pub fn invoke(&self, array: Vec<i64>) -> (r: Result<Q2AmplificatedResult, AlgorithmError>)
        ensures
            !amplified_parameters_valid(*self, array@) ==> r
                == Err::<Q2AmplificatedResult, AlgorithmError>(AlgorithmError::ParameterOutOfRange),
            amplified_parameters_valid(*self, array@) && self.group_count == 0 ==> r
                == Err::<Q2AmplificatedResult, AlgorithmError>(AlgorithmError::EmptyInput),
            amplified_parameters_valid(*self, array@) && self.group_count > 0 ==> r is Ok,
            r is Ok ==> r->Ok_0.trials == TRIALS && r->Ok_0.successes <= TRIALS,
            r is Ok && abs_sum(array@) == 0 ==> r->Ok_0.successes == TRIALS,
            r is Ok ==> exists|m: Seq<u128>|
                {
                    &&& m.len() == TRIALS
                    &&& forall|i: int|
                        0 <= i < TRIALS ==> median_of_means(
                            array@,
                            group_size_of(
                                self.epsilon_numerator as int,
                                self.epsilon_denominator as int,
                            ) as nat,
                            self.group_count as nat,
                            #[trigger] m[i] as int,
                        )
                    &&& r->Ok_0.successes == #[trigger] count_in_window(
                        m,
                        group_size_of(self.epsilon_numerator as int, self.epsilon_denominator as int),
                        sum_squares(array@),
                        self.epsilon_numerator as int,
                        self.epsilon_denominator as int,
                    )
                },
    {
        let num = self.epsilon_numerator;
        let den = self.epsilon_denominator;
        if den == 0 || num == 0 || num > den {
            return Err(AlgorithmError::ParameterOutOfRange);
        }
        let group_size = ((9 * den as u64 + num as u64 - 1) / num as u64) as usize;
        assert(group_size == group_size_of(num as int, den as int));
        assert(group_size < 0x10_0000) by {
            assert((9 * den + num - 1) / (num as int) <= 9 * den + num - 1) by (nonlinear_arith)
                requires
                    num >= 1,
                    9 * den + num - 1 >= 0,
            ;
        }
        assert(TRIALS * self.group_count <= 1000 * (usize::MAX as int)) by (nonlinear_arith)
            requires
                self.group_count <= usize::MAX,
        ;
        assert(TRIALS * self.group_count * group_size <= 1000 * (usize::MAX as int) * 0x10_0000)
            by (nonlinear_arith)
            requires
                TRIALS * self.group_count <= 1000 * (usize::MAX as int),
                group_size <= 0x10_0000,
        ;
        let steps = TRIALS as u128 * self.group_count as u128 * group_size as u128;
        assert(steps == TRIALS * self.group_count * group_size);
        if steps > u64::MAX as u128 {
            return Err(AlgorithmError::ParameterOutOfRange);
        }
        if abs_total(&array) > u32::MAX as u128 {
            return Err(AlgorithmError::ParameterOutOfRange);
        }
        let ghost v = array@;
        let ghost a = abs_sum(v);
        proof {
            lemma_sum_squares_le_abs_sum_squared(v);
            assert(a * a <= (u32::MAX as int) * (u32::MAX as int)) by (nonlinear_arith)
                requires
                    0 <= a <= u32::MAX,
            ;
        }
        let norm = l2_norm(&array);
        let algorithm = L2Algorithm::new(array);
        let means = algorithm.repeat(group_size).reduce(Total);
        let medians = means.repeat(self.group_count).reduce(UpperMedian);
        let trials = medians.repeat(TRIALS);
        let rate = SuccessRate {
            norm,
            group_size: group_size as u128,
            epsilon_numerator: num,
            epsilon_denominator: den,
        };
        let ghost bound = group_size * (a * a);
        proof {
            assert(bound <= 0x10_0000 * ((u32::MAX as int) * (u32::MAX as int))) by (nonlinear_arith)
                requires
                    bound == group_size * (a * a),
                    group_size <= 0x10_0000,
                    0 <= a * a <= (u32::MAX as int) * (u32::MAX as int),
            ;
            assert(0x10_0000 * ((u32::MAX as int) * (u32::MAX as int)) <= SUM_BOUND) by {
                assert(SUM_BOUND == 0x10_0000_0000_0000_0000_0000);
                assert(0x10_0000 * (0xffff_ffffint * 0xffff_ffffint) <= 0x10_0000_0000_0000_0000_0000int)
                    by (nonlinear_arith);
            }
            assert forall|x: u128| means.produces(x) implies x <= bound by {
                lemma_mean_bound(means, x, a);
            }
            assert forall|x: u128| medians.produces(x) implies x <= bound by {
                lemma_median_bound(medians, x, bound);
            }
            assert forall|o: Vec<u128>| trials.produces(o) implies rate.accepts(o) by {
                assert forall|i: int| 0 <= i < o.len() implies #[trigger] o[i] <= SUM_BOUND by {
                    assert(trials.inner().produces(o[i]));
                }
            }
            assert(algorithm.repetitions() == 1);
            assert(trials.repetitions() == TRIALS * (self.group_count * (group_size * 1)));
            assert(TRIALS * (self.group_count * (group_size * 1)) == steps) by (nonlinear_arith)
                requires
                    steps == TRIALS * self.group_count * group_size,
            ;
            if self.group_count > 0 {
                assert forall|o: Vec<u128>, r: Result<u128, AlgorithmError>|
                    medians.inner().produces(o) && #[trigger] UpperMedian.reduces_to(o, r) implies r is Ok by {
                    assert(o.len() == self.group_count);
                }
                assert(medians.succeeds());
            }
        }
        let pipeline = trials.reduce(rate).with_name(String::from_str("Q2 Amplificated Algorithm"));
        let result = pipeline.run();
        proof {
            if result is Ok {
                let out = result->Ok_0;
                let series = choose|o: Vec<u128>| trials.produces(o) && rate.reduces_to(o, Ok(out));
                lemma_count_bound(series@, group_size as int, norm as int, num as int, den as int);
                assert forall|i: int| 0 <= i < TRIALS implies median_of_means(
                    v,
                    group_size as nat,
                    self.group_count as nat,
                    #[trigger] series@[i] as int,
                ) by {
                    assert(trials.inner().produces(series[i]));
                    lemma_median_is_median_of_means(medians, series@[i]);
                }
                assert(series@.len() == TRIALS);
                if a == 0 {
                    assert forall|i: int| 0 <= i < series@.len() implies #[trigger] series@[i] == 0 by {
                        assert(trials.inner().produces(series[i]));
                        assert(bound == 0) by (nonlinear_arith)
                            requires
                                bound == group_size * (a * a),
                                a == 0,
                        ;
                    }
                    assert(a * a == 0) by (nonlinear_arith)
                        requires
                            a == 0,
                    ;
                    assert(norm == 0);
                    lemma_count_all_zero(series@, group_size as int, num as int, den as int);
                }
            }
        }
        result
    }
}

proof fn lemma_count_bound(sums: Seq<u128>, k: int, norm: int, numerator: int, denominator: int)
    ensures
        count_in_window(sums, k, norm, numerator, denominator) <= sums.len(),
    decreases sums.len(),
{
    if sums.len() > 0 {
        lemma_count_bound(sums.drop_last(), k, norm, numerator, denominator);
    }
}

proof fn lemma_count_all_zero(sums: Seq<u128>, k: int, numerator: int, denominator: int)
    requires
        forall|i: int| 0 <= i < sums.len() ==> #[trigger] sums[i] == 0,
    ensures
        count_in_window(sums, k, 0, numerator, denominator) == sums.len(),
    decreases sums.len(),
{
    if sums.len() > 0 {
        let front = sums.drop_last();
        assert(forall|i: int| 0 <= i < front.len() ==> front[i] == sums[i]);
        lemma_count_all_zero(front, k, numerator, denominator);
        assert(in_window(0, k, 0, numerator, denominator)) by (nonlinear_arith);
    }
}

} // verus!

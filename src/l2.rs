use vstd::prelude::*;
use vstd::arithmetic::power2::pow2;
use vstd::std_specs::hash::obeys_key_model;

use crate::algorithm::Algorithm;
use crate::error::AlgorithmError;
use crate::hash_function::HashFunction;
use crate::progress::Progress;
use crate::reduce::{IntoReduce, Reducer};
use crate::repeat::IntoRepeat;
use crate::vec_extensions::l2_norm;
use crate::with_name::IntoWithName;

verus! {

broadcast use vstd::std_specs::hash::group_hash_axioms;

/// `Σ |v_i|`.
pub open spec fn abs_sum(v: Seq<i64>) -> int
    decreases v.len(),
{
    if v.len() == 0 {
        0
    } else {
        abs_sum(v.drop_last()) + if v.last() < 0 { -v.last() } else { v.last() as int }
    }
}

/// `Σ v_i²`, the squared L2 norm.
pub open spec fn sum_squares(v: Seq<i64>) -> int
    decreases v.len(),
{
    if v.len() == 0 {
        0
    } else {
        sum_squares(v.drop_last()) + v.last() * v.last()
    }
}

/// `Σ s_i · v_i` over the common length of `v` and `s`.
pub open spec fn signed_sum(v: Seq<i64>, s: Seq<i64>) -> int
    decreases v.len(),
{
    if v.len() == 0 || s.len() < v.len() {
        0
    } else {
        signed_sum(v.drop_last(), s.subrange(0, v.len() - 1)) + s[v.len() - 1] * v.last()
    }
}

/// Whether `s` holds `n` signs, each `+1` or `-1`.
pub open spec fn is_sign_vector(s: Seq<i64>, n: nat) -> bool {
    &&& s.len() == n
    &&& forall|i: int| 0 <= i < n ==> #[trigger] s[i] == 1 || s[i] == -1
}

/// Whether `x` is a possible draw of the L2 sketch on `v`: `(Σ_i s_i · v_i)²`
/// for some vector `s` of signs.
pub open spec fn l2_draw(v: Seq<i64>, x: int) -> bool {
    exists|s: Seq<i64>| is_sign_vector(s, v.len()) && x == signed_sum(v, s) * signed_sum(v, s)
}

/// Whether `x` is the sum of `k` draws of the L2 sketch on `v`.
pub open spec fn sum_of_draws(v: Seq<i64>, k: nat, x: int) -> bool {
    exists|d: Seq<u64>|
        d.len() == k && (forall|i: int| 0 <= i < k ==> l2_draw(v, #[trigger] d[i] as int)) && x
            == total_of(d)
}

/// `Σ_s (acc + Σ_i s_i · v_i)²` over all `2^n` sign vectors `s`.
spec fn square_total(v: Seq<i64>, acc: int) -> int
    decreases v.len(),
{
    if v.len() == 0 {
        acc * acc
    } else {
        square_total(v.drop_last(), acc + v.last()) + square_total(v.drop_last(), acc - v.last())
    }
}

/// All `2^n` vectors of `n` signs: those of `n - 1` signs followed by `+1`,
/// then the same followed by `-1`.
pub open spec fn all_sign_vectors(n: nat) -> Seq<Seq<i64>>
    decreases n,
{
    if n == 0 {
        seq![Seq::<i64>::empty()]
    } else {
        let shorter = all_sign_vectors((n - 1) as nat);
        shorter.map_values(|s: Seq<i64>| s.push(1i64)) + shorter.map_values(|s: Seq<i64>| s.push(-1i64))
    }
}

/// `Σ_{s ∈ signs} (acc + Σ_i s_i · v_i)²`.
pub open spec fn signs_total(v: Seq<i64>, signs: Seq<Seq<i64>>, acc: int) -> int
    decreases signs.len(),
{
    if signs.len() == 0 {
        0
    } else {
        let t = acc + signed_sum(v, signs.last());
        signs_total(v, signs.drop_last(), acc) + t * t
    }
}

/// The single estimator is unbiased: there are `2^n` vectors of signs, and
/// summed over all of them `(Σ_i s_i · v_i)²` is `2^n · Σ_i v_i²`, so its
/// mean is the squared L2 norm.
pub proof fn l2_estimator_unbiased(v: Seq<i64>)
    ensures
        all_sign_vectors(v.len()).len() == pow2(v.len()),
        forall|i: int|
            0 <= i < pow2(v.len()) ==> is_sign_vector(
                #[trigger] all_sign_vectors(v.len())[i],
                v.len(),
            ),
        forall|s: Seq<i64>|
            #[trigger] is_sign_vector(s, v.len()) ==> all_sign_vectors(v.len()).contains(s),
        signs_total(v, all_sign_vectors(v.len()), 0) == pow2(v.len()) * sum_squares(v),
{
    lemma_all_sign_vectors(v.len());
    assert forall|s: Seq<i64>| #[trigger] is_sign_vector(s, v.len()) implies all_sign_vectors(
        v.len(),
    ).contains(s) by {
        lemma_sign_vector_listed(s);
    }
    lemma_signs_total(v, 0);
    lemma_square_total(v, 0);
}

proof fn lemma_all_sign_vectors(n: nat)
    ensures
        all_sign_vectors(n).len() == pow2(n),
        forall|i: int| 0 <= i < pow2(n) ==> is_sign_vector(#[trigger] all_sign_vectors(n)[i], n),
    decreases n,
{
    if n == 0 {
        vstd::arithmetic::power2::lemma2_to64();
        assert(is_sign_vector(all_sign_vectors(0)[0], 0));
    } else {
        lemma_all_sign_vectors((n - 1) as nat);
        vstd::arithmetic::power2::lemma_pow2_unfold(n);
        let shorter = all_sign_vectors((n - 1) as nat);
        let plus = shorter.map_values(|s: Seq<i64>| s.push(1i64));
        let minus = shorter.map_values(|s: Seq<i64>| s.push(-1i64));
        assert(all_sign_vectors(n) == plus + minus);
        assert forall|i: int| 0 <= i < pow2(n) implies is_sign_vector(#[trigger] all_sign_vectors(n)[i], n) by {
            if i < shorter.len() {
                assert(all_sign_vectors(n)[i] == shorter[i].push(1i64));
                assert(is_sign_vector(shorter[i], (n - 1) as nat));
            } else {
                let j = i - shorter.len();
                assert(all_sign_vectors(n)[i] == shorter[j].push(-1i64));
                assert(is_sign_vector(shorter[j], (n - 1) as nat));
            }
        }
    }
}

proof fn lemma_sign_vector_listed(s: Seq<i64>)
    requires
        is_sign_vector(s, s.len()),
    ensures
        all_sign_vectors(s.len()).contains(s),
    decreases s.len(),
{
    let n = s.len();
    if n == 0 {
        assert(s == Seq::<i64>::empty());
        assert(all_sign_vectors(0)[0] == s);
    } else {
        let front = s.drop_last();
        assert(is_sign_vector(front, front.len()));
        lemma_sign_vector_listed(front);
        let shorter = all_sign_vectors((n - 1) as nat);
        let j = choose|j: int| 0 <= j < shorter.len() && shorter[j] == front;
        let plus = shorter.map_values(|t: Seq<i64>| t.push(1i64));
        let minus = shorter.map_values(|t: Seq<i64>| t.push(-1i64));
        assert(all_sign_vectors(n) == plus + minus);
        assert(front.push(s.last()) == s);
        if s.last() == 1 {
            assert((plus + minus)[j] == s);
        } else {
            assert((plus + minus)[shorter.len() + j] == s);
        }
    }
}

proof fn lemma_signs_total_concat(v: Seq<i64>, a: Seq<Seq<i64>>, b: Seq<Seq<i64>>, acc: int)
    ensures
        signs_total(v, a + b, acc) == signs_total(v, a, acc) + signs_total(v, b, acc),
    decreases b.len(),
{
    if b.len() == 0 {
        assert(a + b == a);
    } else {
        lemma_signs_total_concat(v, a, b.drop_last(), acc);
        assert((a + b).drop_last() == a + b.drop_last());
        assert((a + b).last() == b.last());
    }
}

proof fn lemma_signs_total_push(v: Seq<i64>, signs: Seq<Seq<i64>>, sign: i64, acc: int)
    requires
        v.len() > 0,
        forall|i: int| 0 <= i < signs.len() ==> (#[trigger] signs[i]).len() == v.len() - 1,
    ensures
        signs_total(v, signs.map_values(|s: Seq<i64>| s.push(sign)), acc) == signs_total(
            v.drop_last(),
            signs,
            acc + sign * v.last(),
        ),
    decreases signs.len(),
{
    let pushed = signs.map_values(|s: Seq<i64>| s.push(sign));
    if signs.len() > 0 {
        let front = signs.drop_last();
        assert(forall|i: int| 0 <= i < front.len() ==> front[i] == signs[i]);
        lemma_signs_total_push(v, front, sign, acc);
        assert(pushed.drop_last() == front.map_values(|s: Seq<i64>| s.push(sign)));
        let s = signs.last();
        assert(s.len() == v.len() - 1);
        assert(pushed.last() == s.push(sign));
        assert(s.push(sign).subrange(0, v.len() - 1) == s);
        assert(signed_sum(v, s.push(sign)) == signed_sum(v.drop_last(), s) + sign * v.last());
    }
}

proof fn lemma_signs_total(v: Seq<i64>, acc: int)
    ensures
        signs_total(v, all_sign_vectors(v.len()), acc) == square_total(v, acc),
    decreases v.len(),
{
    let n = v.len();
    if n == 0 {
        let all = all_sign_vectors(0);
        assert(all.drop_last() == Seq::<Seq<i64>>::empty());
        assert(signed_sum(v, all.last()) == 0);
        assert(signs_total(v, all.drop_last(), acc) == 0);
        assert(signs_total(v, all, acc) == acc * acc);
    } else {
        let front = v.drop_last();
        let l = v.last() as int;
        let shorter = all_sign_vectors((n - 1) as nat);
        lemma_all_sign_vectors((n - 1) as nat);
        assert forall|i: int| 0 <= i < shorter.len() implies (#[trigger] shorter[i]).len() == n - 1 by {
            assert(is_sign_vector(shorter[i], (n - 1) as nat));
        }
        let plus = shorter.map_values(|s: Seq<i64>| s.push(1i64));
        let minus = shorter.map_values(|s: Seq<i64>| s.push(-1i64));
        assert(all_sign_vectors(n) == plus + minus);
        lemma_signs_total_concat(v, plus, minus, acc);
        lemma_signs_total_push(v, shorter, 1i64, acc);
        lemma_signs_total_push(v, shorter, -1i64, acc);
        lemma_signs_total(front, acc + l);
        lemma_signs_total(front, acc - l);
        assert(acc + 1 * l == acc + l);
        assert(acc + (-1) * l == acc - l);
        assert(signs_total(v, plus, acc) == square_total(front, acc + l));
        assert(signs_total(v, minus, acc) == square_total(front, acc - l));
        assert(signs_total(v, all_sign_vectors(n), acc) == signs_total(v, plus + minus, acc));
    }
}

proof fn lemma_square_total(v: Seq<i64>, acc: int)
    ensures
        square_total(v, acc) == pow2(v.len()) * (acc * acc + sum_squares(v)),
    decreases v.len(),
{
    if v.len() > 0 {
        let front = v.drop_last();
        let l = v.last() as int;
        lemma_square_total(front, acc + l);
        lemma_square_total(front, acc - l);
        vstd::arithmetic::power2::lemma_pow2_unfold(v.len());
        let p = pow2(front.len());
        assert(pow2(v.len()) == 2 * p);
        assert(p * ((acc + l) * (acc + l) + sum_squares(front)) + p * ((acc - l) * (acc - l)
            + sum_squares(front)) == 2 * p * (acc * acc + (sum_squares(front) + l * l)))
            by (nonlinear_arith);
        assert(square_total(v, acc) == square_total(front, acc + l) + square_total(front, acc - l));
        assert(sum_squares(v) == sum_squares(front) + l * l);
        assert(pow2(v.len()) * (acc * acc + sum_squares(v)) == 2 * p * (acc * acc + (sum_squares(
            front,
        ) + l * l)));
        assert(square_total(v, acc) == pow2(v.len()) * (acc * acc + sum_squares(v)));
    } else {
        vstd::arithmetic::power2::lemma2_to64();
        assert(pow2(0) == 1);
        assert(square_total(v, acc) == acc * acc);
        assert(sum_squares(v) == 0);
    }
}

pub(crate) proof fn lemma_signed_sum_bound(v: Seq<i64>, s: Seq<i64>)
    requires
        is_sign_vector(s, v.len()),
    ensures
        -abs_sum(v) <= signed_sum(v, s) <= abs_sum(v),
        abs_sum(v) >= 0,
    decreases v.len(),
{
    if v.len() > 0 {
        let front = s.subrange(0, v.len() - 1);
        assert(is_sign_vector(front, v.drop_last().len()));
        lemma_signed_sum_bound(v.drop_last(), front);
    }
}

/// `(Σ_i signs_i · v_i)²`: one draw of the L2 sketch with the signs given.
pub fn signed_square(array: &Vec<i64>, signs: &Vec<i64>) -> (r: u64)
    requires
        is_sign_vector(signs@, array.len() as nat),
        abs_sum(array@) <= u32::MAX,
    ensures
        r == signed_sum(array@, signs@) * signed_sum(array@, signs@),
{
    let n = array.len();
    let mut total: i64 = 0;
    let mut i: usize = 0;
    while i < n
        invariant
            n == array.len(),
            i <= n,
            is_sign_vector(signs@, n as nat),
            abs_sum(array@) <= u32::MAX,
            total == signed_sum(array@.subrange(0, i as int), signs@.subrange(0, i as int)),
        decreases n - i,
    {
        let ghost a = array@.subrange(0, i + 1);
        let ghost s = signs@.subrange(0, i + 1);
        proof {
            assert(a.drop_last() == array@.subrange(0, i as int));
            assert(s.subrange(0, i as int) == signs@.subrange(0, i as int));
            assert(is_sign_vector(s, a.len()));
            lemma_signed_sum_bound(a, s);
            lemma_signed_sum_bound(a.drop_last(), s.subrange(0, i as int));
            lemma_abs_sum_prefix(array@, i + 1);
            assert(a.last() == array[i as int]);
            assert(-(u32::MAX as int) <= array[i as int] <= u32::MAX);
        }
        total = total + signs[i] * array[i];
        i = i + 1;
    }
    proof {
        assert(array@.subrange(0, n as int) == array@);
        assert(signs@.subrange(0, n as int) == signs@);
        lemma_signed_sum_bound(array@, signs@);
        let t = total as int;
        assert(t * t <= (u32::MAX as int) * (u32::MAX as int)) by (nonlinear_arith)
            requires
                -(u32::MAX as int) <= t <= u32::MAX,
        ;
        assert(t * t >= 0) by (nonlinear_arith);
    }
    let wide = total as i128;
    (wide * wide) as u64
}

proof fn lemma_abs_sum_prefix(v: Seq<i64>, k: int)
    requires
        0 <= k <= v.len(),
    ensures
        abs_sum(v.subrange(0, k)) <= abs_sum(v),
    decreases v.len() - k,
{
    if k < v.len() {
        lemma_abs_sum_prefix(v, k + 1);
        assert(v.subrange(0, k + 1).drop_last() == v.subrange(0, k));
    } else {
        assert(v.subrange(0, k) == v);
    }
}

/// One draw of the L2 sketch: hash every index to a uniformly random sign and
/// square the signed sum.
pub struct L2Algorithm {
    array: Vec<i64>,
}

impl L2Algorithm {
    pub closed spec fn array(&self) -> Seq<i64> {
        self.array@
    }

    pub fn new(array: Vec<i64>) -> (r: Self)
        ensures
            r.array() == array@,
    {
        Self { array }
    }
}

/// The signs that `hash` gives the indices `0..n`.
fn signs_of(hash: &HashFunction<usize, i64>, n: usize) -> (r: Vec<i64>)
    requires
        forall|i: usize| 0 <= i < n ==> #[trigger] hash.view().contains_key(i),
        forall|i: usize|
            #[trigger] hash.view().contains_key(i) ==> hash.view()[i] == 1 || hash.view()[i] == -1,
    ensures
        is_sign_vector(r@, n as nat),
{
    let mut signs: Vec<i64> = Vec::with_capacity(n);
    for i in 0..n
        invariant
            forall|k: usize| 0 <= k < n ==> #[trigger] hash.view().contains_key(k),
            forall|k: usize|
                #[trigger] hash.view().contains_key(k) ==> hash.view()[k] == 1 || hash.view()[k]
                    == -1,
            signs@.len() == i,
            forall|k: int| 0 <= k < i ==> #[trigger] signs@[k] == 1 || signs@[k] == -1,
    {
        assert(hash.view().contains_key(i));
        signs.push(hash.get_value(&i));
    }
    signs
}

impl Algorithm for L2Algorithm {
    type Input = Vec<i64>;

    type Output = u64;

    open spec fn spec_name(&self) -> Seq<char> {
        "l2 algorithm"@
    }

    open spec fn repetitions(&self) -> nat {
        1
    }

    /// The squares of the signed sums fit in a `u64`.
    open spec fn well_formed(&self) -> bool {
        abs_sum(self.array()) <= u32::MAX
    }

    open spec fn produces(&self, out: u64) -> bool {
        l2_draw(self.array(), out as int)
    }

    open spec fn succeeds(&self) -> bool {
        true
    }

    open spec fn may_fail_with(&self, e: AlgorithmError) -> bool {
        false
    }

    fn name(&self) -> (r: String) {
        String::from_str("l2 algorithm")
    }

    fn input(&self) -> (r: Vec<i64>)
        ensures
            r@ == self.array(),
    {
        self.array.clone()
    }

    fn get_repetitions(&self) -> (r: u64) {
        1
    }

    fn run_internal(&self, progress: &mut Progress) -> (r: Result<u64, AlgorithmError>) {
        let n = self.array.len();
        let mut indices: Vec<usize> = Vec::with_capacity(n);
        for i in 0..n
            invariant
                indices@.len() == i,
                forall|k: int| 0 <= k < i ==> #[trigger] indices@[k] == k,
        {
            indices.push(i);
        }
        let mut targets: Vec<i64> = Vec::with_capacity(2);
        targets.push(-1i64);
        targets.push(1);
        assert(obeys_key_model::<usize>());
        let ghost index_seq = indices@;
        let hash = HashFunction::new(indices, targets);
        proof {
            assert forall|i: usize| 0 <= i < n implies #[trigger] hash.view().contains_key(i) by {
                assert(index_seq[i as int] == i);
                assert(index_seq.to_set().contains(i));
            }
        }
        let signs = signs_of(&hash, n);
        let estimate = signed_square(&self.array, &signs);
        progress.tick();
        assert(self.repetitions() == 1);
        Ok(estimate)
    }
}

/// `Σ |v_i|`.
pub fn abs_total(v: &Vec<i64>) -> (r: u128)
    ensures
        r == abs_sum(v@),
{
    let mut total: u128 = 0;
    let mut i: usize = 0;
    while i < v.len()
        invariant
            i <= v.len(),
            total == abs_sum(v@.subrange(0, i as int)),
            total <= i * 0x8000_0000_0000_0000,
        decreases v.len() - i,
    {
        assert(v@.subrange(0, i + 1).drop_last() == v@.subrange(0, i as int));
        assert(v@.subrange(0, i + 1).last() == v[i as int]);
        let x = v[i];
        let magnitude: u128 = if x < 0 { (-(x as i128)) as u128 } else { x as u128 };
        total = total + magnitude;
        i = i + 1;
    }
    assert(v@.subrange(0, v.len() as int) == v@);
    total
}

pub(crate) proof fn lemma_sum_squares_le_abs_sum_squared(v: Seq<i64>)
    ensures
        0 <= sum_squares(v) <= abs_sum(v) * abs_sum(v),
        abs_sum(v) >= 0,
    decreases v.len(),
{
    if v.len() > 0 {
        let front = v.drop_last();
        lemma_sum_squares_le_abs_sum_squared(front);
        let a = abs_sum(front);
        let x = v.last() as int;
        let m = if x < 0 { -x } else { x };
        assert(m * m == x * x) by (nonlinear_arith)
            requires
                m == x || m == -x,
        ;
        assert(0 <= sum_squares(front) + x * x <= (a + m) * (a + m)) by (nonlinear_arith)
            requires
                0 <= sum_squares(front) <= a * a,
                a >= 0,
                m >= 0,
                m * m == x * x,
        ;
    }
}

/// The sum of the elements.
pub open spec fn total_of(s: Seq<u64>) -> int
    decreases s.len(),
{
    if s.len() == 0 {
        0
    } else {
        total_of(s.drop_last()) + s.last()
    }
}

/// `Σ s` for a sequence of `u64`.
pub fn sum_u64(s: &Vec<u64>) -> (r: u128)
    ensures
        r == total_of(s@),
{
    let mut total: u128 = 0;
    let mut i: usize = 0;
    while i < s.len()
        invariant
            i <= s.len(),
            total == total_of(s@.subrange(0, i as int)),
            total <= i * (u64::MAX as int),
        decreases s.len() - i,
    {
        assert(s@.subrange(0, i + 1).drop_last() == s@.subrange(0, i as int));
        total = total + s[i] as u128;
        i = i + 1;
    }
    assert(s@.subrange(0, s.len() as int) == s@);
    total
}

pub(crate) proof fn lemma_total_bound(s: Seq<u64>, bound: int)
    requires
        forall|i: int| 0 <= i < s.len() ==> #[trigger] s[i] <= bound,
    ensures
        0 <= total_of(s) <= s.len() * bound,
    decreases s.len(),
{
    if s.len() > 0 {
        let front = s.drop_last();
        assert(forall|i: int| 0 <= i < front.len() ==> front[i] == s[i]);
        lemma_total_bound(front, bound);
        assert(front.len() * bound + bound == s.len() * bound) by (nonlinear_arith)
            requires
                s.len() == front.len() + 1,
        ;
    }
}

/// Every draw of the L2 sketch is at most `(Σ |v_i|)²`.
pub(crate) proof fn lemma_draw_bound(algorithm: L2Algorithm, out: u64)
    requires
        algorithm.produces(out),
    ensures
        out <= abs_sum(algorithm.array()) * abs_sum(algorithm.array()),
{
    let v = algorithm.array();
    let s = choose|s: Seq<i64>| is_sign_vector(s, v.len()) && out == signed_sum(v, s) * signed_sum(v, s);
    lemma_signed_sum_bound(v, s);
    let t = signed_sum(v, s);
    let a = abs_sum(v);
    assert(t * t <= a * a) by (nonlinear_arith)
        requires
            -a <= t <= a,
    ;
}

/// The outcome of the naive L2 experiment, kept exact: the mean estimate is
/// `sum / samples`, to be compared with `l2_norm`.
#[derive(Debug, Clone, Copy, PartialEq, Eq, Structural)]
pub struct Q2NaiveAlgorithmResult {
    /// Sum of the estimates.
    pub sum: u128,
    /// Number of estimates.
    pub samples: usize,
    /// `Σ v_i²` of the vector.
    pub l2_norm: u128,
}

/// Sums the estimates of a run of repetitions and computes the squared norm
/// of the vector they estimate.
pub struct NaiveSummary {
    array: Vec<i64>,
}

impl NaiveSummary {
    pub closed spec fn array(&self) -> Seq<i64> {
        self.array@
    }

    pub fn new(array: Vec<i64>) -> (r: Self)
        ensures
            r.array() == array@,
    {
        NaiveSummary { array }
    }
}

impl Reducer<Vec<u64>> for NaiveSummary {
    type Output = Q2NaiveAlgorithmResult;

    open spec fn accepts(&self, input: Vec<u64>) -> bool {
        sum_squares(self.array()) <= u128::MAX
    }

    open spec fn reduces_to(&self, input: Vec<u64>, r: Result<Q2NaiveAlgorithmResult, AlgorithmError>) -> bool {
        &&& r is Ok
        &&& r->Ok_0.sum == total_of(input@)
        &&& r->Ok_0.samples == input.len()
        &&& r->Ok_0.l2_norm == sum_squares(self.array())
    }

    fn apply(&self, input: Vec<u64>) -> (r: Result<Q2NaiveAlgorithmResult, AlgorithmError>) {
        let sum = sum_u64(&input);
        let l2_norm = l2_norm(&self.array);
        Ok(Q2NaiveAlgorithmResult { sum, samples: input.len(), l2_norm })
    }
}

/// How many estimates the naive experiment averages.
pub const NAIVE_SAMPLES: usize = 1000;

/// The naive L2 experiment: the mean of many single estimates.
pub struct Q2NaiveCommand;

impl Q2NaiveCommand {
    /// Draws `NAIVE_SAMPLES` estimates of `Σ v_i²` and reports their sum
    /// together with the exact value. Fails with `ParameterOutOfRange` when
    /// `Σ |v_i|` exceeds `u32::MAX`, the largest vector whose estimates fit
    /// in a `u64`.
    pub fn invoke(&self, array: Vec<i64>) -> (r: Result<Q2NaiveAlgorithmResult, AlgorithmError>)
        ensures
            abs_sum(array@) > u32::MAX ==> r == Err::<Q2NaiveAlgorithmResult, AlgorithmError>(
                AlgorithmError::ParameterOutOfRange,
            ),
            abs_sum(array@) <= u32::MAX ==> r is Ok && {
                let s = r->Ok_0;
                &&& s.samples == NAIVE_SAMPLES
                &&& s.l2_norm == sum_squares(array@)
                &&& s.sum <= NAIVE_SAMPLES * abs_sum(array@) * abs_sum(array@)
                &&& sum_of_draws(array@, NAIVE_SAMPLES as nat, s.sum as int)
            },
    {
        if abs_total(&array) > u32::MAX as u128 {
            return Err(AlgorithmError::ParameterOutOfRange);
        }
        let ghost v = array@;
        proof {
            lemma_sum_squares_le_abs_sum_squared(v);
            let a = abs_sum(v);
            assert(a * a <= (u32::MAX as int) * (u32::MAX as int)) by (nonlinear_arith)
                requires
                    0 <= a <= u32::MAX,
            ;
        }
        let summary = NaiveSummary::new(array.clone());
        assert(summary.array() =~= v);
        let algorithm = L2Algorithm::new(array);
        let repeated = algorithm.repeat(NAIVE_SAMPLES);
        assert(repeated.repetitions() == NAIVE_SAMPLES) by {
            assert(algorithm.repetitions() == 1);
        }
        let pipeline = repeated.reduce(summary).with_name(String::from_str("Q2 Naive Algorithm"));
        let result = pipeline.run();
        proof {
            if result is Ok {
                let out = result->Ok_0;
                let series = choose|o: Vec<u64>| repeated.produces(o) && summary.reduces_to(o, Ok(out));
                let a = abs_sum(v);
                assert forall|i: int| 0 <= i < series@.len() implies #[trigger] series@[i] <= a * a by {
                    assert(repeated.inner().produces(series[i]));
                    lemma_draw_bound(algorithm, series@[i]);
                }
                lemma_total_bound(series@, a * a);
                assert(NAIVE_SAMPLES * (a * a) == NAIVE_SAMPLES * a * a) by (nonlinear_arith);
                assert forall|i: int| 0 <= i < NAIVE_SAMPLES implies l2_draw(v, #[trigger] series@[i] as int) by {
                    assert(repeated.inner().produces(series[i]));
                }
                assert(series@.len() == NAIVE_SAMPLES && out.sum == total_of(series@));
                assert(sum_of_draws(v, NAIVE_SAMPLES as nat, out.sum as int));
            }
        }
        result
    }
}

} // verus!

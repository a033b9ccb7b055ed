use vstd::prelude::*;

use crate::error::AlgorithmError;
use crate::l2::sum_squares;

verus! {

/// Takes the one element of a sequence.
pub trait Single<TResult> {
    fn single(self) -> Result<TResult, AlgorithmError>;
}

impl<TItem> Single<TItem> for Vec<TItem> {
    /// The one element; `EmptyInput` when there is none, `MultipleElements`
    /// when there are more.
    fn single(self) -> (r: Result<TItem, AlgorithmError>)
        ensures
            self.len() == 1 ==> r == Ok::<TItem, AlgorithmError>(self@[0]),
            self.len() == 0 ==> r == Err::<TItem, AlgorithmError>(AlgorithmError::EmptyInput),
            self.len() > 1 ==> r == Err::<TItem, AlgorithmError>(AlgorithmError::MultipleElements),
    {
        single(self)
    }
}

/// The one element of `items`; `EmptyInput` when there is none,
/// `MultipleElements` when there are more.
pub fn single<TItem>(items: Vec<TItem>) -> (r: Result<TItem, AlgorithmError>)
    ensures
        items.len() == 1 ==> r == Ok::<TItem, AlgorithmError>(items@[0]),
        items.len() == 0 ==> r == Err::<TItem, AlgorithmError>(AlgorithmError::EmptyInput),
        items.len() > 1 ==> r == Err::<TItem, AlgorithmError>(AlgorithmError::MultipleElements),
{
    let mut items = items;
    let len = items.len();
    if len == 0 {
        Err(AlgorithmError::EmptyInput)
    } else if len == 1 {
        match items.pop() {
            Some(item) => Ok(item),
            None => Err(AlgorithmError::EmptyInput),
        }
    } else {
        Err(AlgorithmError::MultipleElements)
    }
}

/// The index of the first error in `items`, or its length if there is none.
pub open spec fn first_error<TItem>(items: Seq<Result<TItem, AlgorithmError>>, i: int) -> int
    decreases items.len() - i,
{
    if i >= items.len() || i < 0 {
        items.len() as int
    } else if items[i] is Err {
        i
    } else {
        first_error(items, i + 1)
    }
}

/// Collects a sequence of results into a result of a sequence.
pub trait TryCollect<TResult> {
    fn try_collect(self) -> Result<Vec<TResult>, AlgorithmError>;
}

impl<TItem> TryCollect<TItem> for Vec<Result<TItem, AlgorithmError>> {
    /// All the values when every item succeeded, else the first error.
    fn try_collect(self) -> (r: Result<Vec<TItem>, AlgorithmError>)
        ensures
            first_error(self@, 0) == self.len() ==> r is Ok && r->Ok_0.len() == self.len() && forall|
                i: int,
            | 0 <= i < self.len() ==> self@[i] == Ok::<TItem, AlgorithmError>(#[trigger] r->Ok_0@[i]),
            first_error(self@, 0) < self.len() ==> r == Err::<Vec<TItem>, AlgorithmError>(
                self@[first_error(self@, 0)]->Err_0,
            ),
    {
        try_collect(self)
    }
}

/// All the values when every item succeeded, else the first error.
pub fn try_collect<TItem>(items: Vec<Result<TItem, AlgorithmError>>) -> (r: Result<
    Vec<TItem>,
    AlgorithmError,
>)
    ensures
        first_error(items@, 0) == items.len() ==> r is Ok && r->Ok_0.len() == items.len() && forall|
            i: int,
        | 0 <= i < items.len() ==> items@[i] == Ok::<TItem, AlgorithmError>(#[trigger] r->Ok_0@[i]),
        first_error(items@, 0) < items.len() ==> r == Err::<Vec<TItem>, AlgorithmError>(
            items@[first_error(items@, 0)]->Err_0,
        ),
{
    let ghost all = items@;
    let mut values: Vec<TItem> = Vec::with_capacity(items.len());
    for item in iter: items
        invariant
            iter.seq() == all,
            values@.len() == iter.index(),
            forall|i: int| 0 <= i < iter.index() ==> all[i] == Ok::<TItem, AlgorithmError>(#[trigger] values@[i]),
            first_error(all, 0) == first_error(all, iter.index() as int),
    {
        let ghost k = iter.index();
        match item {
            Ok(value) => {
                values.push(value);
            },
            Err(error) => {
                assert(first_error(all, k as int) == k);
                return Err(error);
            },
        }
    }
    Ok(values)
}

proof fn lemma_sum_squares_prefix(v: Seq<i64>, k: int)
    requires
        0 <= k <= v.len(),
    ensures
        0 <= sum_squares(v.subrange(0, k)) <= sum_squares(v),
    decreases v.len() - k,
{
    if k < v.len() {
        lemma_sum_squares_prefix(v, k + 1);
        let p = v.subrange(0, k + 1);
        assert(p.drop_last() == v.subrange(0, k));
        let x = p.last() as int;
        assert(x * x >= 0) by (nonlinear_arith);
        lemma_sum_squares_nonneg(v.subrange(0, k));
        assert(sum_squares(p) == sum_squares(v.subrange(0, k)) + x * x);
    } else {
        assert(v.subrange(0, k) == v);
        lemma_sum_squares_nonneg(v);
    }
}

proof fn lemma_sum_squares_nonneg(v: Seq<i64>)
    ensures
        sum_squares(v) >= 0,
    decreases v.len(),
{
    if v.len() > 0 {
        lemma_sum_squares_nonneg(v.drop_last());
        let x = v.last() as int;
        assert(x * x >= 0) by (nonlinear_arith);
    }
}

/// The squared L2 norm `Σ v_i²` of a vector.
pub trait L2NormVecExtension<TResult> {
    /// Whether the norm fits in the result type.
    spec fn l2_norm_fits(&self) -> bool;

    fn l2_norm(&self) -> TResult
        requires
            self.l2_norm_fits(),
    ;
}

impl L2NormVecExtension<u128> for Vec<i64> {
    open spec fn l2_norm_fits(&self) -> bool {
        sum_squares(self@) <= u128::MAX
    }

    fn l2_norm(&self) -> (r: u128)
        ensures
            r == sum_squares(self@),
    {
        l2_norm(self)
    }
}

/// `Σ v_i²`, the squared L2 norm.
pub fn l2_norm(v: &Vec<i64>) -> (r: u128)
    requires
        sum_squares(v@) <= u128::MAX,
    ensures
        r == sum_squares(v@),
{
    let mut total: u128 = 0;
    let mut i: usize = 0;
    while i < v.len()
        invariant
            i <= v.len(),
            sum_squares(v@) <= u128::MAX,
            total == sum_squares(v@.subrange(0, i as int)),
        decreases v.len() - i,
    {
        proof {
            assert(v@.subrange(0, i + 1).drop_last() == v@.subrange(0, i as int));
            lemma_sum_squares_prefix(v@, i + 1);
        }
        let x = v[i] as i128;
        assert(0 <= x * x <= 0x4000_0000_0000_0000_0000_0000_0000_0000) by (nonlinear_arith)
            requires
                i64::MIN <= x <= i64::MAX,
        ;
        let square = (x * x) as u128;
        assert(v@.subrange(0, i + 1).last() == v[i as int]);
        total = total + square;
        i = i + 1;
    }
    proof {
        assert(v@.subrange(0, v.len() as int) == v@);
    }
    total
}

} // verus!

use vstd::prelude::*;

use crate::error::AlgorithmError;
use crate::vec_extensions::single;

verus! {

/// Whether an integer fits in an `i64`.
pub open spec fn fits_i64(x: int) -> bool {
    i64::MIN <= x <= i64::MAX
}

/// `Σ_{s < t} a[i][s] · b[s][j]`: the first `t` terms of entry `(i, j)` of
/// the product of `a` and `b`.
pub open spec fn dot(a: Seq<Seq<i64>>, b: Seq<Seq<i64>>, i: int, j: int, t: int) -> int
    decreases t,
{
    if t <= 0 {
        0
    } else {
        dot(a, b, i, j, t - 1) + a[i][t - 1] * b[t - 1][j]
    }
}

/// Whether every partial sum `dot(a, b, i, j, t)` with `i < m`, `j < n` and
/// `t ≤ p` fits in an `i64`.
pub open spec fn partial_sums_fit(a: Seq<Seq<i64>>, b: Seq<Seq<i64>>, m: int, n: int, p: int) -> bool {
    forall|i: int, j: int, t: int|
        0 <= i < m && 0 <= j < n && 0 <= t <= p ==> fits_i64(#[trigger] dot(a, b, i, j, t))
}

/// The rows of the one-column matrix holding `v`.
pub open spec fn column_of<T>(v: Seq<T>) -> Seq<Seq<T>> {
    Seq::new(v.len(), |i: int| seq![v[i]])
}

/// Whether every row holds exactly one element.
pub open spec fn is_column<T>(rows: Seq<Seq<T>>) -> bool {
    forall|i: int| 0 <= i < rows.len() ==> #[trigger] rows[i].len() == 1
}

/// The elements of a one-column matrix, top to bottom.
pub open spec fn column_values<T>(rows: Seq<Seq<T>>) -> Seq<T> {
    Seq::new(rows.len(), |i: int| rows[i][0])
}

/// The first row, from `i` on, that does not hold exactly one element.
pub open spec fn first_non_single<T>(rows: Seq<Seq<T>>, i: int) -> int
    decreases rows.len() - i,
{
    if i >= rows.len() || i < 0 {
        rows.len() as int
    } else if rows[i].len() != 1 {
        i
    } else {
        first_non_single(rows, i + 1)
    }
}

/// A dense `m × n` matrix stored row by row.
#[derive(Debug, Clone)]
pub struct Matrix<TItem> {
    m: usize,
    n: usize,
    inner: Vec<Vec<TItem>>,
}

impl<TItem> Matrix<TItem> {
    /// The rows.
    pub closed spec fn view(&self) -> Seq<Seq<TItem>> {
        Seq::new(self.inner@.len(), |i: int| self.inner@[i]@)
    }

    /// The number of rows.
    pub closed spec fn rows(&self) -> nat {
        self.m as nat
    }

    /// The number of columns.
    pub closed spec fn cols(&self) -> nat {
        self.n as nat
    }

    /// `rows()` rows of `cols()` elements each.
    pub closed spec fn well_formed(&self) -> bool {
        &&& self.inner@.len() == self.m
        &&& forall|i: int| 0 <= i < self.m ==> #[trigger] self.inner@[i]@.len() == self.n
    }

    /// A well-formed matrix has `rows()` rows of `cols()` elements.
    pub proof fn lemma_shape(&self)
        requires
            self.well_formed(),
        ensures
            self.view().len() == self.rows(),
            forall|i: int| 0 <= i < self.rows() ==> #[trigger] self.view()[i].len() == self.cols(),
    {
    }

    /// The number of rows.
    pub fn row_count(&self) -> (r: usize)
        ensures
            r == self.rows(),
    {
        self.m
    }

    /// The number of columns.
    pub fn column_count(&self) -> (r: usize)
        ensures
            r == self.cols(),
    {
        self.n
    }

    /// The one-column matrix holding `source`, one element per row.
    pub fn from_column(source: Vec<TItem>) -> (r: Self)
        ensures
            r.well_formed(),
            r.rows() == source.len(),
            r.cols() == 1,
            r.view() == column_of(source@),
    {
        let m = source.len();
        let ghost items = source@;
        let mut inner: Vec<Vec<TItem>> = Vec::with_capacity(m);
        for item in iter: source
            invariant
                iter.seq() == items,
                inner@.len() == iter.index(),
                forall|i: int| 0 <= i < inner@.len() ==> #[trigger] inner@[i]@ == seq![items[i]],
        {
            let mut row: Vec<TItem> = Vec::with_capacity(1);
            row.push(item);
            inner.push(row);
        }
        let r = Matrix { m, n: 1, inner };
        assert(r.view() =~= column_of(items));
        r
    }

    /// The elements of a one-column matrix, top to bottom. Fails on the first
    /// row that does not hold exactly one element: `EmptyInput` when it is
    /// empty, `MultipleElements` otherwise.
    pub fn into_column(self) -> (r: Result<Vec<TItem>, AlgorithmError>)
        ensures
            is_column(self.view()) ==> r is Ok && r->Ok_0@ == column_values(self.view()),
            !is_column(self.view()) ==> r is Err && r->Err_0 == (if self.view()[first_non_single(
                self.view(),
                0,
            )].len() == 0 {
                AlgorithmError::EmptyInput
            } else {
                AlgorithmError::MultipleElements
            }),
    {
        let ghost rows = self.view();
        let mut values: Vec<TItem> = Vec::with_capacity(self.inner.len());
        for row in iter: self.inner
            invariant
                iter.seq().len() == rows.len(),
                forall|i: int| 0 <= i < rows.len() ==> #[trigger] iter.seq()[i]@ == rows[i],
                values@.len() == iter.index(),
                forall|i: int| 0 <= i < iter.index() ==> #[trigger] rows[i].len() == 1,
                forall|i: int| 0 <= i < iter.index() ==> values@[i] == #[trigger] rows[i][0],
                first_non_single(rows, 0) == first_non_single(rows, iter.index() as int),
        {
            let ghost k = iter.index();
            assert(row@ == rows[k as int]);
            match single(row) {
                Ok(value) => {
                    values.push(value);
                },
                Err(error) => {
                    assert(rows[k as int].len() != 1);
                    assert(first_non_single(rows, k as int) == k);
                    assert(!is_column(rows));
                    assert(rows == self.view());
                    return Err(error);
                },
            }
        }
        assert(values@ =~= column_values(rows));
        Ok(values)
    }
}

impl<TItem: Copy> Matrix<TItem> {
    /// An `m × n` matrix (`m` rows, `n` columns) with every element `value`.
    pub fn filled(n: usize, m: usize, value: TItem) -> (r: Self)
        ensures
            r.well_formed(),
            r.rows() == m,
            r.cols() == n,
            forall|i: int, j: int| 0 <= i < m && 0 <= j < n ==> #[trigger] r.view()[i][j] == value,
    {
        let mut inner: Vec<Vec<TItem>> = Vec::with_capacity(m);
        for i in 0..m
            invariant
                inner@.len() == i,
                forall|k: int| 0 <= k < i ==> #[trigger] inner@[k]@.len() == n,
                forall|k: int, j: int| 0 <= k < i && 0 <= j < n ==> #[trigger] inner@[k]@[j] == value,
        {
            let mut row: Vec<TItem> = Vec::with_capacity(n);
            for j in 0..n
                invariant
                    row@.len() == j,
                    forall|k: int| 0 <= k < j ==> #[trigger] row@[k] == value,
            {
                row.push(value);
            }
            inner.push(row);
        }
        Matrix { m, n, inner }
    }

    /// The element in row `i`, column `j`.
    pub fn get(&self, i: usize, j: usize) -> (r: TItem)
        requires
            self.well_formed(),
            i < self.rows(),
            j < self.cols(),
        ensures
            r == self.view()[i as int][j as int],
    {
        self.inner[i][j]
    }

    /// A copy of row `i`.
    pub fn row(&self, i: usize) -> (r: Vec<TItem>)
        requires
            self.well_formed(),
            i < self.rows(),
        ensures
            r@ == self.view()[i as int],
    {
        let mut row: Vec<TItem> = Vec::with_capacity(self.n);
        for j in 0..self.n
            invariant
                self.well_formed(),
                i < self.rows(),
                row@.len() == j,
                forall|k: int| 0 <= k < j ==> #[trigger] row@[k] == self.view()[i as int][k],
        {
            row.push(self.get(i, j));
        }
        assert(row@ =~= self.view()[i as int]);
        row
    }

    /// Replaces the element in row `i`, column `j`.
    pub fn set(&mut self, i: usize, j: usize, value: TItem)
        requires
            old(self).well_formed(),
            i < old(self).rows(),
            j < old(self).cols(),
        ensures
            final(self).well_formed(),
            final(self).rows() == old(self).rows(),
            final(self).cols() == old(self).cols(),
            final(self).view() == old(self).view().update(
                i as int,
                old(self).view()[i as int].update(j as int, value),
            ),
    {
        let mut row: Vec<TItem> = Vec::new();
        std::mem::swap(&mut row, &mut self.inner[i]);
        row.set(j, value);
        self.inner.set(i, row);
        assert(self.view() =~= old(self).view().update(
            i as int,
            old(self).view()[i as int].update(j as int, value),
        ));
    }
}

impl<TItem: Copy + Default> Matrix<TItem> {
    /// An `m × n` matrix (`m` rows, `n` columns) of default elements.
    pub fn new(n: usize, m: usize) -> (r: Self)
        ensures
            r.well_formed(),
            r.rows() == m,
            r.cols() == n,
            exists|d: TItem|
                call_ensures(TItem::default, (), d) && forall|i: int, j: int|
                    0 <= i < m && 0 <= j < n ==> #[trigger] r.view()[i][j] == d,
    {
        let d = TItem::default();
        Matrix::filled(n, m, d)
    }
}

impl Matrix<i64> {
    /// Whether every partial sum of every entry of `self · rhs` fits in an
    /// `i64`.
    pub open spec fn product_fits(&self, rhs: &Matrix<i64>) -> bool {
        partial_sums_fit(self.view(), rhs.view(), self.rows() as int, rhs.cols() as int, self.cols() as int)
    }

    /// The product `self · rhs` of an `m × p` and a `p × n` matrix: the
    /// `m × n` matrix with entry `(i, j)` equal to `Σ_t self[i][t] · rhs[t][j]`.
    /// Fails with `DimensionMismatch` when the inner dimensions differ.
    pub fn multiply(&self, rhs: &Matrix<i64>) -> (r: Result<Matrix<i64>, AlgorithmError>)
        requires
            self.well_formed(),
            rhs.well_formed(),
            self.cols() == rhs.rows() ==> self.product_fits(rhs),
        ensures
            self.cols() != rhs.rows() ==> r == Err::<Matrix<i64>, AlgorithmError>(
                AlgorithmError::DimensionMismatch,
            ),
            self.cols() == rhs.rows() ==> r is Ok && {
                let c = r->Ok_0;
                &&& c.well_formed()
                &&& c.rows() == self.rows()
                &&& c.cols() == rhs.cols()
                &&& forall|i: int, j: int|
                    0 <= i < c.rows() && 0 <= j < c.cols() ==> #[trigger] c.view()[i][j] == dot(
                        self.view(),
                        rhs.view(),
                        i,
                        j,
                        self.cols() as int,
                    )
            },
    {
        if self.n != rhs.m {
            return Err(AlgorithmError::DimensionMismatch);
        }
        let m = self.m;
        let n = rhs.n;
        let p = self.n;
        let mut inner: Vec<Vec<i64>> = Vec::with_capacity(m);
        for i in 0..m
            invariant
                self.well_formed(),
                rhs.well_formed(),
                self.product_fits(rhs),
                m == self.rows(),
                n == rhs.cols(),
                p == self.cols(),
                p == rhs.rows(),
                inner@.len() == i,
                forall|k: int| 0 <= k < i ==> #[trigger] inner@[k]@.len() == n,
                forall|k: int, j: int|
                    0 <= k < i && 0 <= j < n ==> #[trigger] inner@[k]@[j] == dot(
                        self.view(),
                        rhs.view(),
                        k,
                        j,
                        p as int,
                    ),
        {
            let mut row: Vec<i64> = Vec::with_capacity(n);
            for j in 0..n
                invariant
                    self.well_formed(),
                    rhs.well_formed(),
                    self.product_fits(rhs),
                    i < m,
                    m == self.rows(),
                    n == rhs.cols(),
                    p == self.cols(),
                    p == rhs.rows(),
                    row@.len() == j,
                    forall|k: int| 0 <= k < j ==> #[trigger] row@[k] == dot(
                        self.view(),
                        rhs.view(),
                        i as int,
                        k,
                        p as int,
                    ),
            {
                let mut acc: i64 = 0;
                for t in 0..p
                    invariant
                        self.well_formed(),
                        rhs.well_formed(),
                        self.product_fits(rhs),
                        i < m,
                        j < n,
                        m == self.rows(),
                        n == rhs.cols(),
                        p == self.cols(),
                        p == rhs.rows(),
                        acc == dot(self.view(), rhs.view(), i as int, j as int, t as int),
                {
                    let a = self.inner[i][t];
                    let b = rhs.inner[t][j];
                    assert(a == self.view()[i as int][t as int]);
                    assert(b == rhs.view()[t as int][j as int]);
                    assert(fits_i64(dot(self.view(), rhs.view(), i as int, j as int, t + 1)));
                    let wide = acc as i128 + (a as i128) * (b as i128);
                    assert(-0x4000_0000_0000_0000_0000_0000_0000_0000 <= (a as int) * (b as int)
                        <= 0x4000_0000_0000_0000_0000_0000_0000_0000) by (nonlinear_arith)
                        requires
                            i64::MIN <= a <= i64::MAX,
                            i64::MIN <= b <= i64::MAX,
                    ;
                    acc = wide as i64;
                }
                row.push(acc);
            }
            inner.push(row);
        }
        let r = Matrix { m, n, inner };
        proof {
            assert forall|i: int, j: int| 0 <= i < m && 0 <= j < n implies #[trigger] r.view()[i][j]
                == dot(self.view(), rhs.view(), i, j, p as int) by {
                assert(r.view()[i] == r.inner@[i]@);
            }
        }
        Ok(r)
    }

    /// The product `self · v` of an `m × p` matrix and a vector of length
    /// `p`, as a vector of length `m`. Fails with `DimensionMismatch` when
    /// the lengths differ.
    pub fn multiply_vector(&self, v: Vec<i64>) -> (r: Result<Vec<i64>, AlgorithmError>)
        requires
            self.well_formed(),
            self.cols() == v.len() ==> partial_sums_fit(
                self.view(),
                column_of(v@),
                self.rows() as int,
                1,
                self.cols() as int,
            ),
        ensures
            self.cols() != v.len() ==> r == Err::<Vec<i64>, AlgorithmError>(
                AlgorithmError::DimensionMismatch,
            ),
            self.cols() == v.len() ==> r is Ok && r->Ok_0.len() == self.rows() && forall|i: int|
                0 <= i < self.rows() ==> #[trigger] r->Ok_0@[i] == dot(
                    self.view(),
                    column_of(v@),
                    i,
                    0,
                    self.cols() as int,
                ),
    {
        let ghost column = column_of(v@);
        let rhs = Matrix::from_column(v);
        let product = match self.multiply(&rhs) {
            Ok(product) => product,
            Err(error) => {
                return Err(error);
            },
        };
        proof {
            assert forall|i: int| 0 <= i < product.rows() implies #[trigger] product.view()[i].len()
                == 1 by {
                assert(product.view()[i] == product.inner@[i]@);
            }
        }
        let r = product.into_column();
        proof {
            if r is Ok {
                assert forall|i: int| 0 <= i < self.rows() implies #[trigger] r->Ok_0@[i] == dot(
                    self.view(),
                    column,
                    i,
                    0,
                    self.cols() as int,
                ) by {
                    assert(product.view()[i][0] == dot(self.view(), rhs.view(), i, 0, self.cols() as int));
                }
            }
        }
        r
    }

    /// Whether every element of `self`, times `k`, fits in an `i64`.
    pub open spec fn scale_fits(&self, k: i64) -> bool {
        forall|i: int, j: int|
            0 <= i < self.rows() && 0 <= j < self.cols() ==> fits_i64(
                k * #[trigger] self.view()[i][j],
            )
    }

    /// Every element multiplied by `k`; the shape is kept.
    pub fn multiply_scalar(&self, k: i64) -> (r: Matrix<i64>)
        requires
            self.well_formed(),
            self.scale_fits(k),
        ensures
            r.well_formed(),
            r.rows() == self.rows(),
            r.cols() == self.cols(),
            forall|i: int, j: int|
                0 <= i < r.rows() && 0 <= j < r.cols() ==> #[trigger] r.view()[i][j] == k
                    * self.view()[i][j],
    {
        let m = self.m;
        let n = self.n;
        let mut inner: Vec<Vec<i64>> = Vec::with_capacity(m);
        for i in 0..m
            invariant
                self.well_formed(),
                self.scale_fits(k),
                m == self.rows(),
                n == self.cols(),
                inner@.len() == i,
                forall|a: int| 0 <= a < i ==> #[trigger] inner@[a]@.len() == n,
                forall|a: int, b: int|
                    0 <= a < i && 0 <= b < n ==> #[trigger] inner@[a]@[b] == k * self.view()[a][b],
        {
            let mut row: Vec<i64> = Vec::with_capacity(n);
            for j in 0..n
                invariant
                    self.well_formed(),
                    self.scale_fits(k),
                    i < m,
                    m == self.rows(),
                    n == self.cols(),
                    row@.len() == j,
                    forall|b: int| 0 <= b < j ==> #[trigger] row@[b] == k * self.view()[i as int][b],
            {
                let x = self.inner[i][j];
                assert(x == self.view()[i as int][j as int]);
                assert(fits_i64(k * self.view()[i as int][j as int]));
                row.push(k * x);
            }
            inner.push(row);
        }
        let r = Matrix { m, n, inner };
        proof {
            assert forall|i: int, j: int| 0 <= i < m && 0 <= j < n implies #[trigger] r.view()[i][j]
                == k * self.view()[i][j] by {
                assert(r.view()[i] == r.inner@[i]@);
            }
        }
        r
    }
}

/// A column vector read back from its one-column matrix is the vector itself.
pub proof fn column_round_trip<T>(v: Seq<T>)
    ensures
        is_column(column_of(v)),
        column_values(column_of(v)) == v,
{
    assert(column_values(column_of(v)) =~= v);
}

} // verus!

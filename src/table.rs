use vstd::prelude::*;
use vstd::string::StringExecFns;

use crate::error::AlgorithmError;
use crate::matrix::Matrix;

verus! {

/// The character of a decimal digit.
pub open spec fn digit_char(d: int) -> char {
    if d == 0 { '0' }
    else if d == 1 { '1' }
    else if d == 2 { '2' }
    else if d == 3 { '3' }
    else if d == 4 { '4' }
    else if d == 5 { '5' }
    else if d == 6 { '6' }
    else if d == 7 { '7' }
    else if d == 8 { '8' }
    else { '9' }
}

/// The decimal digits of a natural number, most significant first.
pub open spec fn digits(n: nat) -> Seq<char>
    decreases n,
{
    if n < 10 {
        seq![digit_char(n as int)]
    } else {
        digits(n / 10) + seq![digit_char((n % 10) as int)]
    }
}

/// The decimal text of an integer, with a leading `-` when it is negative.
pub open spec fn decimal(x: int) -> Seq<char> {
    if x < 0 {
        seq!['-'] + digits((-x) as nat)
    } else {
        digits(x as nat)
    }
}

/// The elements of a row in decimal, separated by `", "`.
pub open spec fn row_text(row: Seq<i64>) -> Seq<char>
    decreases row.len(),
{
    if row.len() == 0 {
        Seq::empty()
    } else if row.len() == 1 {
        decimal(row[0] as int)
    } else {
        row_text(row.drop_last()) + ", "@ + decimal(row.last() as int)
    }
}

/// The length of the longest of the first `k` row texts.
pub open spec fn widest(rows: Seq<Seq<i64>>, k: int) -> nat
    decreases k,
{
    if k <= 0 {
        0
    } else {
        let rest = widest(rows, k - 1);
        let w = row_text(rows[k - 1]).len();
        if w > rest { w } else { rest }
    }
}

/// `n` dashes.
pub open spec fn dashes(n: nat) -> Seq<char>
    decreases n,
{
    if n == 0 {
        Seq::empty()
    } else {
        dashes((n - 1) as nat) + seq!['-']
    }
}

/// `|row|` lines for the first `k` rows.
pub open spec fn body_text(rows: Seq<Seq<i64>>, k: int) -> Seq<char>
    decreases k,
{
    if k <= 0 {
        Seq::empty()
    } else {
        body_text(rows, k - 1) + "|"@ + row_text(rows[k - 1]) + "|\n"@
    }
}

/// A framed table: a rule of dashes as wide as the widest row, one
/// `|a, b, c|` line per row, and the rule again.
pub open spec fn table_text(rows: Seq<Seq<i64>>) -> Seq<char> {
    let rule = " "@ + dashes(widest(rows, rows.len() as int)) + " \n"@;
    rule + body_text(rows, rows.len() as int) + rule
}

fn digit_text(d: u64) -> (r: &'static str)
    requires
        d < 10,
    ensures
        r@ == seq![digit_char(d as int)],
{
    proof {
        reveal_strlit("0");
        reveal_strlit("1");
        reveal_strlit("2");
        reveal_strlit("3");
        reveal_strlit("4");
        reveal_strlit("5");
        reveal_strlit("6");
        reveal_strlit("7");
        reveal_strlit("8");
        reveal_strlit("9");
    }
    if d == 0 { "0" }
    else if d == 1 { "1" }
    else if d == 2 { "2" }
    else if d == 3 { "3" }
    else if d == 4 { "4" }
    else if d == 5 { "5" }
    else if d == 6 { "6" }
    else if d == 7 { "7" }
    else if d == 8 { "8" }
    else { "9" }
}

/// Appends the decimal digits of `n` to `out`.
fn push_digits(out: &mut String, n: u64)
    ensures
        final(out)@ == old(out)@ + digits(n as nat),
    decreases n,
{
    if n >= 10 {
        push_digits(out, n / 10);
    }
    out.append(digit_text(n % 10));
}

/// Appends the decimal text of `x` to `out`.
pub fn push_decimal(out: &mut String, x: i64)
    ensures
        final(out)@ == old(out)@ + decimal(x as int),
{
    if x < 0 {
        proof {
            reveal_strlit("-");
        }
        out.append("-");
        let magnitude = (-(x as i128)) as u64;
        push_digits(out, magnitude);
        assert(final(out)@ =~= old(out)@ + decimal(x as int));
    } else {
        push_digits(out, x as u64);
    }
}

/// The text of one row.
fn row_string(row: &Vec<i64>) -> (r: String)
    ensures
        r@ == row_text(row@),
{
    let mut text = String::new();
    let mut j: usize = 0;
    while j < row.len()
        invariant
            j <= row.len(),
            text@ == row_text(row@.subrange(0, j as int)),
        decreases row.len() - j,
    {
        let ghost before = text@;
        let ghost prefix = row@.subrange(0, j + 1);
        assert(prefix.drop_last() == row@.subrange(0, j as int));
        if j > 0 {
            proof {
                reveal_strlit(", ");
            }
            text.append(", ");
        }
        push_decimal(&mut text, row[j]);
        assert(text@ =~= row_text(prefix));
        j = j + 1;
    }
    assert(row@.subrange(0, row.len() as int) == row@);
    text
}

impl Matrix<i64> {
    /// The matrix as a framed table of decimal numbers. Fails with
    /// `EmptyInput` on a matrix without rows.
    pub fn to_table_string(&self) -> (r: Result<String, AlgorithmError>)
        requires
            self.well_formed(),
        ensures
            self.rows() == 0 ==> r == Err::<String, AlgorithmError>(AlgorithmError::EmptyInput),
            self.rows() > 0 ==> r is Ok && r->Ok_0@ == table_text(self.view()),
    {
        let m = self.row_count();
        if m == 0 {
            return Err(AlgorithmError::EmptyInput);
        }
        let n = self.column_count();
        let ghost rows = self.view();
        proof {
            self.lemma_shape();
        }
        let mut lines: Vec<String> = Vec::with_capacity(m);
        let mut width: usize = 0;
        let mut i: usize = 0;
        while i < m
            invariant
                self.well_formed(),
                m == self.rows(),
                n == self.cols(),
                rows == self.view(),
                i <= m,
                lines@.len() == i,
                forall|k: int| 0 <= k < i ==> #[trigger] lines@[k]@ == row_text(rows[k]),
                width == widest(rows, i as int),
            decreases m - i,
        {
            let row = self.row(i);
            let line = row_string(&row);
            let len = line.as_str().unicode_len();
            if len > width {
                width = len;
            }
            lines.push(line);
            i = i + 1;
        }
        let mut rule = String::new();
        proof {
            reveal_strlit(" ");
            reveal_strlit(" \n");
            reveal_strlit("|");
            reveal_strlit("|\n");
        }
        rule.append(" ");
        let mut d: usize = 0;
        while d < width
            invariant
                d <= width,
                rule@ == " "@ + dashes(d as nat),
            decreases width - d,
        {
            proof {
                reveal_strlit("-");
            }
            rule.append("-");
            d = d + 1;
        }
        rule.append(" \n");
        let mut text = rule.clone();
        let mut k: usize = 0;
        while k < m
            invariant
                k <= m,
                m == rows.len(),
                lines@.len() == m,
                forall|a: int| 0 <= a < m ==> #[trigger] lines@[a]@ == row_text(rows[a]),
                rule@ == " "@ + dashes(widest(rows, m as int)) + " \n"@,
                text@ == rule@ + body_text(rows, k as int),
            decreases m - k,
        {
            text.append("|");
            text.append(lines[k].as_str());
            text.append("|\n");
            assert(text@ =~= rule@ + body_text(rows, k + 1));
            k = k + 1;
        }
        text.append(rule.as_str());
        Ok(text)
    }
}

} // verus!

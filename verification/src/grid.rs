//! The mathematical model of a dense matrix stored row by row in a flat
//! sequence, and the index arithmetic facts that every routine relies on.

use vstd::prelude::*;

verus! {

/// The entry in row `i` and column `j` of a matrix with `cols` columns whose
/// rows are laid out one after another in `s`.
pub open spec fn entry<T>(s: Seq<T>, cols: int, i: int, j: int) -> T {
    s[i * cols + j]
}

/// Row `i`, column `j` of a `rows` by `cols` matrix sits inside its storage,
/// and before the start of row `i + 1`.
pub proof fn lemma_index_in_range(rows: int, cols: int, i: int, j: int)
    by (nonlinear_arith)
    requires
        0 <= i < rows,
        0 <= j < cols,
    ensures
        0 <= i * cols,
        0 <= i * cols + j,
        i * cols + j < (i + 1) * cols,
        (i + 1) * cols <= rows * cols,
        i * cols + j < rows * cols,
{
}

/// Row `i` of a `rows` by `cols` matrix lies inside its storage.
pub proof fn lemma_row_in_range(rows: int, cols: int, i: int)
    by (nonlinear_arith)
    requires
        0 <= i < rows,
        0 <= cols,
    ensures
        0 <= i * cols,
        i * cols + cols <= rows * cols,
{
}

/// Rows `a` and `b` of a matrix with `cols` columns occupy disjoint stretches
/// of its storage when `a < b`.
pub proof fn lemma_rows_ordered(cols: int, a: int, b: int)
    by (nonlinear_arith)
    requires
        0 <= a < b,
        0 <= cols,
    ensures
        a * cols + cols <= b * cols,
        0 <= a * cols,
{
}

/// One more full row: `i * cols + cols` is the start of row `i + 1`.
pub proof fn lemma_next_row(cols: int, i: int)
    by (nonlinear_arith)
    ensures
        i * cols + cols == (i + 1) * cols,
{
}

/// Every position `k` of a `rows` by `cols` matrix's storage is the entry in
/// row `k / cols` and column `k % cols`.
pub proof fn lemma_index_split(rows: int, cols: int, k: int)
    requires
        0 <= rows,
        0 <= cols,
        0 <= k < rows * cols,
    ensures
        cols > 0,
        k == (k / cols) * cols + k % cols,
        0 <= k / cols < rows,
        0 <= k % cols < cols,
{
    assert(cols > 0) by (nonlinear_arith)
        requires
            0 <= rows,
            0 <= cols,
            0 <= k < rows * cols,
    ;
    vstd::arithmetic::div_mod::lemma_fundamental_div_mod(k, cols);
    let q = k / cols;
    let r = k % cols;
    assert(0 <= r < cols);
    assert(k == q * cols + r) by (nonlinear_arith)
        requires
            k == cols * q + r,
    ;
    assert(0 <= q < rows) by (nonlinear_arith)
        requires
            k == q * cols + r,
            0 <= r < cols,
            0 <= k < rows * cols,
            cols > 0,
    ;
}

/// Two matrices of the same shape are equal when all their entries are.
pub proof fn lemma_entries_equal<T>(s: Seq<T>, t: Seq<T>, rows: int, cols: int)
    requires
        0 <= rows,
        0 <= cols,
        s.len() == rows * cols,
        t.len() == rows * cols,
        forall|i: int, j: int|
            0 <= i < rows && 0 <= j < cols ==> #[trigger] entry(s, cols, i, j) == entry(t, cols, i, j),
    ensures
        s == t,
{
    assert forall|k: int| 0 <= k < s.len() implies s[k] == t[k] by {
        lemma_index_split(rows, cols, k);
        assert(entry(s, cols, k / cols, k % cols) == entry(t, cols, k / cols, k % cols));
    }
    assert(s =~= t);
}

} // verus!

//! Reshaping routines: transposition.

use vstd::prelude::*;

use crate::grid::{entry, lemma_entries_equal, lemma_index_in_range, lemma_next_row};

verus! {

/// `t` is the transpose of the `rows` by `cols` matrix `s`: a `cols` by `rows`
/// matrix whose entry `(j, i)` is the entry `(i, j)` of `s`.
pub open spec fn is_transpose<T>(t: Seq<T>, s: Seq<T>, rows: int, cols: int) -> bool {
    &&& t.len() == rows * cols
    &&& forall|i: int, j: int|
        0 <= i < rows && 0 <= j < cols ==> #[trigger] entry(t, rows, j, i) == entry(s, cols, i, j)
}

/// Transposes the `rows` by `cols` matrix stored row by row in `data`.
/// Entries of `data` past `rows * cols` are ignored.
pub fn matrix_transpose<T: Copy>(data: &[T], rows: usize, cols: usize) -> (result: Vec<T>)
    requires
        rows * cols <= data@.len(),
    ensures
        is_transpose(result@, data@, rows as int, cols as int),
        result@.len() == rows * cols,
        forall|i: int, j: int|
            0 <= i < rows && 0 <= j < cols ==> #[trigger] result@[j * rows + i] == data@[i * cols + j],
{
    let mut result: Vec<T> = Vec::new();
    let mut j: usize = 0;
    while j < cols
        invariant
            j <= cols,
            rows * cols <= data@.len(),
            result@.len() == j * rows,
            forall|jj: int, i: int|
                0 <= jj < j && 0 <= i < rows ==> #[trigger] entry(result@, rows as int, jj, i)
                    == entry(data@, cols as int, i, jj),
        decreases cols - j,
    {
        let mut i: usize = 0;
        while i < rows
            invariant
                i <= rows,
                j < cols,
                rows * cols <= data@.len(),
                result@.len() == j * rows + i,
                forall|jj: int, ii: int|
                    0 <= jj < j && 0 <= ii < rows ==> #[trigger] entry(result@, rows as int, jj, ii)
                        == entry(data@, cols as int, ii, jj),
                forall|ii: int|
                    0 <= ii < i ==> #[trigger] entry(result@, rows as int, j as int, ii)
                        == entry(data@, cols as int, ii, j as int),
            decreases rows - i,
        {
            proof {
                lemma_index_in_range(rows as int, cols as int, i as int, j as int);
                assert(data@.len() == data.len());
            }
            let v = data[i * cols + j];
            let ghost before = result@;
            result.push(v);
            proof {
                assert forall|jj: int, ii: int|
                    0 <= jj < j && 0 <= ii < rows implies #[trigger] entry(result@, rows as int, jj, ii)
                        == entry(data@, cols as int, ii, jj) by {
                    lemma_index_in_range(j as int, rows as int, jj, ii);
                    assert(entry(before, rows as int, jj, ii) == entry(data@, cols as int, ii, jj));
                }
                assert forall|ii: int|
                    0 <= ii < i + 1 implies #[trigger] entry(result@, rows as int, j as int, ii)
                        == entry(data@, cols as int, ii, j as int) by {
                    if ii < i {
                        assert(entry(before, rows as int, j as int, ii) == entry(data@, cols as int, ii, j as int));
                    }
                }
            }
            i += 1;
        }
        proof {
            lemma_next_row(rows as int, j as int);
        }
        j += 1;
    }
    assert forall|i: int, j: int| 0 <= i < rows && 0 <= j < cols implies #[trigger] result@[j * rows + i]
        == data@[i * cols + j] by {
        assert(entry(result@, rows as int, j, i) == entry(data@, cols as int, i, j));
    }
    assert(cols * rows == rows * cols) by (nonlinear_arith);
    result
}

/// A matrix has exactly one transpose: two sequences that are both the
/// transpose of `s` are equal.
pub proof fn lemma_transpose_unique<T>(t1: Seq<T>, t2: Seq<T>, s: Seq<T>, rows: int, cols: int)
    requires
        0 <= rows,
        0 <= cols,
        is_transpose(t1, s, rows, cols),
        is_transpose(t2, s, rows, cols),
    ensures
        t1 == t2,
{
    assert(t1.len() == cols * rows) by (nonlinear_arith)
        requires
            t1.len() == rows * cols,
    ;
    assert forall|j: int, i: int| 0 <= j < cols && 0 <= i < rows implies #[trigger] entry(t1, rows, j, i)
        == entry(t2, rows, j, i) by {
        assert(entry(t1, rows, j, i) == entry(s, cols, i, j));
        assert(entry(t2, rows, j, i) == entry(s, cols, i, j));
    }
    lemma_entries_equal(t1, t2, cols, rows);
}

/// Transposing twice gives back the matrix: if `t` is the transpose of the
/// `rows` by `cols` matrix `s`, and `u` the transpose of the `cols` by `rows`
/// matrix `t`, then `u` is `s`.
pub proof fn lemma_transpose_involution<T>(s: Seq<T>, t: Seq<T>, u: Seq<T>, rows: int, cols: int)
    requires
        0 <= rows,
        0 <= cols,
        s.len() == rows * cols,
        is_transpose(t, s, rows, cols),
        is_transpose(u, t, cols, rows),
    ensures
        u == s,
{
    assert(u.len() == rows * cols) by (nonlinear_arith)
        requires
            u.len() == cols * rows,
    ;
    assert forall|i: int, j: int| 0 <= i < rows && 0 <= j < cols implies #[trigger] entry(u, cols, i, j)
        == entry(s, cols, i, j) by {
        assert(entry(u, cols, i, j) == entry(t, rows, j, i));
        assert(entry(t, rows, j, i) == entry(s, cols, i, j));
    }
    lemma_entries_equal(u, s, rows, cols);
}

} // verus!

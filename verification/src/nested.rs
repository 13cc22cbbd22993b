//! Conversion between a flat row-major matrix and its list of rows, the shape
//! in which matrices are exchanged as nested arrays.

use vstd::prelude::*;

use crate::grid::{lemma_index_in_range, lemma_next_row, lemma_row_in_range};

verus! {

/// Row `i` of a matrix with `cols` columns stored row by row in `s`.
pub open spec fn row_of<T>(s: Seq<T>, cols: int, i: int) -> Seq<T> {
    s.subrange(i * cols, i * cols + cols)
}

/// The contents of a list of rows, each row taken by its view.
pub open spec fn rows_view<T>(m: Seq<Vec<T>>) -> Seq<Seq<T>> {
    m.map_values(|r: Vec<T>| r@)
}

/// A matrix flattened back into one sequence, with the shape it was read
/// with: `rows` is the number of rows and `cols` the length of the first row.
pub struct FlatMatrix<T> {
    pub data: Vec<T>,
    pub rows: usize,
    pub cols: usize,
}

/// Splits the `rows` by `cols` matrix stored row by row in `data` into its
/// list of rows. Entries of `data` past `rows * cols` are ignored.
pub fn matrix_rows<T: Copy>(data: &[T], rows: usize, cols: usize) -> (result: Vec<Vec<T>>)
    requires
        rows * cols <= data@.len(),
    ensures
        result@.len() == rows,
        forall|i: int| 0 <= i < rows ==> #[trigger] result@[i]@ == row_of(data@, cols as int, i),        forall|i: int|
            0 <= i < rows ==> #[trigger] result@[i]@ == data@.subrange(i * cols, i * cols + cols),
{
    let mut result: Vec<Vec<T>> = Vec::new();
    let mut i: usize = 0;
    while i < rows
        invariant
            i <= rows,
            rows * cols <= data@.len(),
            result@.len() == i,
            forall|r: int| 0 <= r < i ==> #[trigger] result@[r]@ == row_of(data@, cols as int, r),
        decreases rows - i,
    {
        proof {
            lemma_row_in_range(rows as int, cols as int, i as int);
        }
        let mut row: Vec<T> = Vec::new();
        let mut j: usize = 0;
        while j < cols
            invariant
                i < rows,
                j <= cols,
                rows * cols <= data@.len(),
                0 <= i * cols,
                i * cols + cols <= rows * cols,
                row@ == data@.subrange(i * cols, i * cols + j),
            decreases cols - j,
        {
            proof {
                lemma_index_in_range(rows as int, cols as int, i as int, j as int);
                assert(data@.len() == data.len());
            }
            row.push(data[i * cols + j]);
            j += 1;
            assert(row@ =~= data@.subrange(i * cols, i * cols + j));
        }
        result.push(row);
        i += 1;
    }
    result
}

/// Concatenates a list of rows into one flat sequence, row after row, and
/// reports the number of rows and the length of the first row (0 when there
/// are no rows). Rows of differing lengths are concatenated as they are.
pub fn flatten_matrix<T: Copy>(matrix: &Vec<Vec<T>>) -> (result: FlatMatrix<T>)
    ensures
        result.data@ == rows_view(matrix@).flatten(),
        result.rows == matrix@.len(),
        result.cols == (if matrix@.len() == 0 { 0 } else { matrix@[0]@.len() }),
{
    let ghost nested = rows_view(matrix@);
    let mut data: Vec<T> = Vec::new();
    let mut i: usize = 0;
    while i < matrix.len()
        invariant
            i <= matrix@.len(),
            nested == rows_view(matrix@),
            data@ == nested.take(i as int).flatten(),
        decreases matrix@.len() - i,
    {
        let row = &matrix[i];
        let mut j: usize = 0;
        while j < row.len()
            invariant
                i < matrix@.len(),
                j <= row@.len(),
                row@ == matrix@[i as int]@,
                nested == rows_view(matrix@),
                data@ == nested.take(i as int).flatten() + row@.take(j as int),
            decreases row@.len() - j,
        {
            data.push(row[j]);
            j += 1;
            assert(row@.take(j as int) =~= row@.take(j - 1) + seq![row@[j - 1]]);
        }
        proof {
            assert(row@.take(j as int) =~= row@);
            assert(nested.take(i + 1) =~= nested.take(i as int).push(nested[i as int]));
            nested.take(i as int).lemma_flatten_push(nested[i as int]);
        }
        i += 1;
    }
    assert(nested.take(matrix@.len() as int) =~= nested);
    let rows = matrix.len();
    let cols = if rows == 0 { 0 } else { matrix[0].len() };
    FlatMatrix { data, rows, cols }
}

/// Splitting a flat matrix into rows and concatenating the rows again gives
/// back its storage: for the list of rows `m` of a `rows` by `cols` matrix
/// stored in `s`, the concatenation of `m` is the first `rows * cols` entries
/// of `s`, and when there is a row, the first row has `cols` entries.
pub proof fn lemma_rows_flatten_roundtrip<T>(s: Seq<T>, m: Seq<Vec<T>>, rows: int, cols: int)
    requires
        0 <= rows,
        0 <= cols,
        rows * cols <= s.len(),
        m.len() == rows,
        forall|i: int| 0 <= i < rows ==> #[trigger] m[i]@ == row_of(s, cols, i),
    ensures
        rows_view(m).flatten() == s.subrange(0, rows * cols),
        rows > 0 ==> rows_view(m)[0].len() == cols,
    decreases rows,
{
    if rows == 0 {
        assert(rows_view(m) =~= Seq::<Seq<T>>::empty());
        assert(s.subrange(0, 0) =~= Seq::<T>::empty());
    } else {
        let prefix = m.drop_last();
        lemma_row_in_range(rows, cols, rows - 1);
        lemma_next_row(cols, rows - 1);
        assert((rows - 1) * cols <= s.len()) by (nonlinear_arith)
            requires
                rows * cols <= s.len(),
                rows >= 1,
                cols >= 0,
        ;
        lemma_rows_flatten_roundtrip(s, prefix, rows - 1, cols);
        assert(rows_view(m) =~= rows_view(prefix).push(m[rows - 1]@));
        rows_view(prefix).lemma_flatten_push(m[rows - 1]@);
        assert(s.subrange(0, rows * cols) =~= s.subrange(0, (rows - 1) * cols) + row_of(s, cols, rows - 1));
        if rows > 1 {
            assert(rows_view(m)[0] == rows_view(prefix)[0]);
        } else {
            assert(rows_view(m)[0] == row_of(s, cols, 0));
        }
    }
}

} // verus!

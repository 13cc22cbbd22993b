//! Building a symmetric matrix from the values of its upper triangle.

use vstd::prelude::*;

use crate::grid::{entry, lemma_index_in_range, lemma_next_row};

verus! {

/// The number of upper-triangle entries (diagonal included) in the first `i`
/// rows of an `n` by `n` matrix: row `r` holds `n - r` of them.
pub open spec fn tri_offset(n: int, i: int) -> int
    decreases i,
{
    if i <= 0 {
        0
    } else {
        tri_offset(n, i - 1) + (n - (i - 1))
    }
}

/// Where the value of entry `(i, j)` of a symmetric `n` by `n` matrix is found
/// among its upper-triangle values listed row by row, each row from the
/// diagonal rightwards.
pub open spec fn upper_index(n: int, i: int, j: int) -> int {
    if i <= j {
        tri_offset(n, i) + (j - i)
    } else {
        tri_offset(n, j) + (i - j)
    }
}

/// The upper-triangle counts grow with the row.
pub proof fn lemma_tri_offset_monotone(n: int, a: int, b: int)
    requires
        0 <= a <= b <= n,
    ensures
        0 <= tri_offset(n, a) <= tri_offset(n, b),
    decreases b,
{
    if a < b {
        lemma_tri_offset_monotone(n, a, b - 1);
    } else {
        lemma_tri_offset_nonnegative(n, a);
    }
}

/// The upper-triangle counts are never negative.
pub proof fn lemma_tri_offset_nonnegative(n: int, a: int)
    requires
        0 <= a <= n,
    ensures
        0 <= tri_offset(n, a),
    decreases a,
{
    if a > 0 {
        lemma_tri_offset_nonnegative(n, a - 1);
    }
}

/// The rows before row `i` of an `n` by `n` matrix hold
/// `i * n - i * (i - 1) / 2` upper-triangle entries.
pub proof fn lemma_tri_offset_closed_form(n: int, i: int)
    requires
        0 <= i,
    ensures
        2 * tri_offset(n, i) == 2 * (i * n) - i * (i - 1),
        tri_offset(n, i) == i * n - i * (i - 1) / 2,
    decreases i,
{
    if i > 0 {
        lemma_tri_offset_closed_form(n, i - 1);
        let p = tri_offset(n, i - 1);
        assert(2 * tri_offset(n, i) == 2 * (i * n) - i * (i - 1)) by (nonlinear_arith)
            requires
                2 * p == 2 * ((i - 1) * n) - (i - 1) * (i - 1 - 1),
                tri_offset(n, i) == p + (n - (i - 1)),
        ;
    } else {
        assert(2 * tri_offset(n, i) == 2 * (i * n) - i * (i - 1)) by (nonlinear_arith)
            requires
                i == 0,
                tri_offset(n, i) == 0,
        ;
    }
    let x = i * n - tri_offset(n, i);
    assert(i * (i - 1) == 2 * x) by (nonlinear_arith)
        requires
            2 * tri_offset(n, i) == 2 * (i * n) - i * (i - 1),
            x == i * n - tri_offset(n, i),
    ;
    vstd::arithmetic::div_mod::lemma_div_multiples_vanish(x, 2);
}

/// An `n` by `n` matrix has `n * (n + 1) / 2` upper-triangle entries,
/// diagonal included.
pub proof fn lemma_tri_size(n: int)
    requires
        0 <= n,
    ensures
        tri_offset(n, n) == n * (n + 1) / 2,
{
    lemma_tri_offset_closed_form(n, n);
    let h = n * (n - 1) / 2;
    assert(n * (n + 1) == 2 * (h + n)) by (nonlinear_arith)
        requires
            n * (n - 1) == 2 * h,
    ;
    vstd::arithmetic::div_mod::lemma_div_multiples_vanish(h + n, 2);
    assert(n * n - h == h + n) by (nonlinear_arith)
        requires
            n * (n - 1) == 2 * h,
    ;
}

/// Entry `(i, j)` on or above the diagonal of an `n` by `n` matrix is the
/// value at position `i * n - i * (i - 1) / 2 + (j - i)` of its upper
/// triangle listed row by row, left to right from the diagonal; an entry
/// below the diagonal is found at the position of its mirror image.
pub proof fn lemma_upper_index_closed_form(n: int, i: int, j: int)
    requires
        0 <= i,
        0 <= j,
    ensures
        i <= j ==> upper_index(n, i, j) == i * n - i * (i - 1) / 2 + (j - i),
        j < i ==> upper_index(n, i, j) == j * n - j * (j - 1) / 2 + (i - j),
{
    lemma_tri_offset_closed_form(n, i);
    lemma_tri_offset_closed_form(n, j);
}

/// Every entry of an `n` by `n` matrix takes its value from inside the
/// `tri_offset(n, n)` upper-triangle values.
pub proof fn lemma_upper_index_in_range(n: int, i: int, j: int)
    requires
        0 <= i < n,
        0 <= j < n,
    ensures
        0 <= upper_index(n, i, j) < tri_offset(n, n),
{
    let lo = if i <= j { i } else { j };
    lemma_tri_offset_monotone(n, 0, lo);
    lemma_tri_offset_monotone(n, lo + 1, n);
    assert(tri_offset(n, lo + 1) == tri_offset(n, lo) + (n - lo));
}

/// Lays out the symmetric `n` by `n` matrix whose upper triangle (diagonal
/// included) is given row by row in `upper`, each row from the diagonal
/// rightwards; the lower triangle mirrors it. Values of `upper` past the
/// `n * (n + 1) / 2` that the triangle holds are ignored.
pub fn symmetric_from_upper<T: Copy>(upper: &[T], n: usize) -> (result: Vec<T>)
    requires
        n * n <= usize::MAX,
        tri_offset(n as int, n as int) <= upper@.len(),
    ensures
        result@.len() == n * n,
        forall|i: int, j: int|
            0 <= i < n && 0 <= j < n ==> #[trigger] entry(result@, n as int, i, j) == upper@[upper_index(
                n as int,
                i,
                j,
            )],
        forall|i: int, j: int|
            0 <= i < n && 0 <= j < n ==> #[trigger] entry(result@, n as int, i, j) == entry(
                result@,
                n as int,
                j,
                i,
            ),
        forall|i: int, j: int|
            0 <= i <= j < n ==> #[trigger] entry(result@, n as int, i, j) == upper@[i * n - i * (i - 1)
                / 2 + (j - i)],
        forall|i: int, j: int|
            0 <= i <= j < n ==> #[trigger] result@[i * n + j] == upper@[i * n - i * (i - 1) / 2 + (j
                - i)] && result@[j * n + i] == upper@[i * n - i * (i - 1) / 2 + (j - i)],
{
    let ghost nn = n as int;
    let mut offsets: Vec<usize> = Vec::new();
    let mut off: usize = 0;
    let mut r: usize = 0;
    while r < n
        invariant
            r <= n,
            tri_offset(nn, nn) <= upper@.len(),
            nn == n,
            off == tri_offset(nn, r as int),
            offsets@.len() == r,
            forall|k: int| 0 <= k < r ==> #[trigger] offsets@[k] == tri_offset(nn, k),
        decreases n - r,
    {
        offsets.push(off);
        proof {
            lemma_tri_offset_monotone(nn, r + 1, nn);
            assert(tri_offset(nn, r + 1) == tri_offset(nn, r as int) + (nn - r));
            assert(upper@.len() == upper.len());
        }
        off = off + (n - r);
        r += 1;
    }
    let mut result: Vec<T> = Vec::new();
    let mut i: usize = 0;
    while i < n
        invariant
            i <= n,
            nn == n,
            n * n <= usize::MAX,
            tri_offset(nn, nn) <= upper@.len(),
            offsets@.len() == n,
            forall|k: int| 0 <= k < n ==> #[trigger] offsets@[k] == tri_offset(nn, k),
            result@.len() == i * n,
            forall|ii: int, jj: int|
                0 <= ii < i && 0 <= jj < n ==> #[trigger] entry(result@, nn, ii, jj) == upper@[upper_index(
                    nn,
                    ii,
                    jj,
                )],
        decreases n - i,
    {
        let mut j: usize = 0;
        while j < n
            invariant
                i < n,
                j <= n,
                nn == n,
                tri_offset(nn, nn) <= upper@.len(),
                offsets@.len() == n,
                forall|k: int| 0 <= k < n ==> #[trigger] offsets@[k] == tri_offset(nn, k),
                result@.len() == i * n + j,
                forall|ii: int, jj: int|
                    0 <= ii < i && 0 <= jj < n ==> #[trigger] entry(result@, nn, ii, jj)
                        == upper@[upper_index(nn, ii, jj)],
                forall|jj: int|
                    0 <= jj < j ==> #[trigger] entry(result@, nn, i as int, jj) == upper@[upper_index(
                        nn,
                        i as int,
                        jj,
                    )],
            decreases n - j,
        {
            proof {
                lemma_upper_index_in_range(nn, i as int, j as int);
                assert(upper@.len() == upper.len());
            }
            let k = if i <= j {
                offsets[i] + (j - i)
            } else {
                offsets[j] + (i - j)
            };
            let ghost before = result@;
            result.push(upper[k]);
            proof {
                lemma_index_in_range(nn, nn, i as int, j as int);
                assert forall|ii: int, jj: int|
                    0 <= ii < i && 0 <= jj < n implies #[trigger] entry(result@, nn, ii, jj)
                        == upper@[upper_index(nn, ii, jj)] by {
                    lemma_index_in_range(i as int, nn, ii, jj);
                    assert(entry(before, nn, ii, jj) == upper@[upper_index(nn, ii, jj)]);
                }
                assert forall|jj: int|
                    0 <= jj < j + 1 implies #[trigger] entry(result@, nn, i as int, jj)
                        == upper@[upper_index(nn, i as int, jj)] by {
                    if jj < j {
                        assert(entry(before, nn, i as int, jj) == upper@[upper_index(nn, i as int, jj)]);
                    }
                }
            }
            j += 1;
        }
        proof {
            lemma_next_row(nn, i as int);
        }
        i += 1;
    }
    proof {
        assert forall|ii: int, jj: int|
            0 <= ii < n && 0 <= jj < n implies #[trigger] entry(result@, nn, ii, jj) == entry(
                result@,
                nn,
                jj,
                ii,
            ) by {
            assert(entry(result@, nn, ii, jj) == upper@[upper_index(nn, ii, jj)]);
            assert(entry(result@, nn, jj, ii) == upper@[upper_index(nn, jj, ii)]);
        }
        assert forall|ii: int, jj: int| 0 <= ii <= jj < n implies #[trigger] entry(result@, nn, ii, jj)
            == upper@[ii * nn - ii * (ii - 1) / 2 + (jj - ii)] by {
            assert(entry(result@, nn, ii, jj) == upper@[upper_index(nn, ii, jj)]);
            lemma_upper_index_closed_form(nn, ii, jj);
        }
        assert forall|ii: int, jj: int| 0 <= ii <= jj < n implies #[trigger] result@[ii * nn + jj]
            == upper@[ii * nn - ii * (ii - 1) / 2 + (jj - ii)] && result@[jj * nn + ii] == upper@[ii
            * nn - ii * (ii - 1) / 2 + (jj - ii)] by {
            assert(entry(result@, nn, ii, jj) == upper@[ii * nn - ii * (ii - 1) / 2 + (jj - ii)]);
            assert(entry(result@, nn, jj, ii) == entry(result@, nn, ii, jj));
        }
    }
    result
}

} // verus!

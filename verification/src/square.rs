//! Building blocks of Gauss-Jordan inversion and QR iteration on square
//! matrices: the identity, the diagonal, the matrix augmented with the
//! identity, the right block of an augmented matrix, and row swaps.

use vstd::prelude::*;

use crate::grid::{entry, lemma_index_in_range, lemma_next_row, lemma_rows_ordered};

verus! {

/// Lays out the `n` by `n` identity matrix: `one` on the diagonal, `zero`
/// everywhere else.
pub fn identity_matrix<T: Copy>(n: usize, zero: T, one: T) -> (result: Vec<T>)
    requires
        n * n <= usize::MAX,
    ensures
        result@.len() == n * n,
        forall|i: int, j: int|
            0 <= i < n && 0 <= j < n ==> #[trigger] entry(result@, n as int, i, j) == (if i == j {
                one
            } else {
                zero
            }),
        forall|i: int, j: int|
            0 <= i < n && 0 <= j < n ==> #[trigger] result@[i * n + j] == (if i == j {
                one
            } else {
                zero
            }),
{
    let mut result: Vec<T> = Vec::new();
    let mut i: usize = 0;
    while i < n
        invariant
            i <= n,
            result@.len() == i * n,
            forall|ii: int, jj: int|
                0 <= ii < i && 0 <= jj < n ==> #[trigger] entry(result@, n as int, ii, jj) == (if ii == jj {
                    one
                } else {
                    zero
                }),
        decreases n - i,
    {
        let mut j: usize = 0;
        while j < n
            invariant
                i < n,
                j <= n,
                result@.len() == i * n + j,
                forall|ii: int, jj: int|
                    0 <= ii < i && 0 <= jj < n ==> #[trigger] entry(result@, n as int, ii, jj) == (if ii
                        == jj {
                        one
                    } else {
                        zero
                    }),
                forall|jj: int|
                    0 <= jj < j ==> #[trigger] entry(result@, n as int, i as int, jj) == (if i == jj {
                        one
                    } else {
                        zero
                    }),
            decreases n - j,
        {
            let ghost before = result@;
            if i == j {
                result.push(one);
            } else {
                result.push(zero);
            }
            proof {
                assert forall|ii: int, jj: int| 0 <= ii < i && 0 <= jj < n implies #[trigger] entry(
                    result@,
                    n as int,
                    ii,
                    jj,
                ) == (if ii == jj {
                    one
                } else {
                    zero
                }) by {
                    lemma_index_in_range(i as int, n as int, ii, jj);
                    assert(entry(before, n as int, ii, jj) == entry(result@, n as int, ii, jj));
                }
                assert forall|jj: int| 0 <= jj < j + 1 implies #[trigger] entry(
                    result@,
                    n as int,
                    i as int,
                    jj,
                ) == (if i == jj {
                    one
                } else {
                    zero
                }) by {
                    if jj < j {
                        assert(entry(before, n as int, i as int, jj) == entry(result@, n as int, i as int, jj));
                    }
                }
            }
            j += 1;
        }
        proof {
            lemma_next_row(n as int, i as int);
        }
        i += 1;
    }
    assert forall|i: int, j: int| 0 <= i < n && 0 <= j < n implies #[trigger] result@[i * n + j] == (if i
        == j {
        one
    } else {
        zero
    }) by {
        assert(entry(result@, n as int, i, j) == (if i == j {
            one
        } else {
            zero
        }));
    }
    result
}

/// The diagonal of the `n` by `n` matrix stored row by row in `data`.
pub fn matrix_diagonal<T: Copy>(data: &[T], n: usize) -> (result: Vec<T>)
    requires
        n * n <= data@.len(),
    ensures
        result@.len() == n,
        forall|i: int| 0 <= i < n ==> #[trigger] result@[i] == entry(data@, n as int, i, i),
        forall|i: int| 0 <= i < n ==> #[trigger] result@[i] == data@[i * n + i],
{
    let mut result: Vec<T> = Vec::new();
    let mut i: usize = 0;
    while i < n
        invariant
            i <= n,
            n * n <= data@.len(),
            result@.len() == i,
            forall|k: int| 0 <= k < i ==> #[trigger] result@[k] == entry(data@, n as int, k, k),
        decreases n - i,
    {
        proof {
            lemma_index_in_range(n as int, n as int, i as int, i as int);
            assert(data@.len() == data.len());
        }
        result.push(data[i * n + i]);
        i += 1;
    }

    result
}

/// Lays out the `n` by `2n` matrix `[A | I]`: each row holds row `i` of the
/// `n` by `n` matrix `A` stored row by row in `data`, followed by row `i` of
/// the identity (`one` in column `n + i`, `zero` elsewhere).
pub fn augment_with_identity<T: Copy>(data: &[T], n: usize, zero: T, one: T) -> (result: Vec<T>)
    requires
        n * n <= data@.len(),
        n * (2 * n) <= usize::MAX,
    ensures
        result@.len() == n * (2 * n),
        forall|i: int, j: int|
            0 <= i < n && 0 <= j < 2 * n ==> #[trigger] entry(result@, 2 * n, i, j) == (if j < n {
                entry(data@, n as int, i, j)
            } else if j == n + i {
                one
            } else {
                zero
            }),
        forall|i: int, j: int|
            0 <= i < n && 0 <= j < n ==> #[trigger] result@[i * (2 * n) + j] == data@[i * n + j],
        forall|i: int, j: int|
            0 <= i < n && 0 <= j < n ==> #[trigger] result@[i * (2 * n) + n + j] == (if i == j {
                one
            } else {
                zero
            }),
{
    let ghost w = 2 * n;
    assert(2 * n <= usize::MAX) by (nonlinear_arith)
        requires
            n * (2 * n) <= usize::MAX,
    ;
    let width: usize = 2 * n;
    let mut result: Vec<T> = Vec::new();
    let mut i: usize = 0;
    while i < n
        invariant
            i <= n,
            width == w,
            w == 2 * n,
            n * n <= data@.len(),
            result@.len() == i * w,
            forall|ii: int, jj: int|
                0 <= ii < i && 0 <= jj < w ==> #[trigger] entry(result@, w, ii, jj) == (if jj < n {
                    entry(data@, n as int, ii, jj)
                } else if jj == n + ii {
                    one
                } else {
                    zero
                }),
        decreases n - i,
    {
        let mut j: usize = 0;
        while j < width
            invariant
                i < n,
                j <= w,
                width == w,
                w == 2 * n,
                n * n <= data@.len(),
                result@.len() == i * w + j,
                forall|ii: int, jj: int|
                    0 <= ii < i && 0 <= jj < w ==> #[trigger] entry(result@, w, ii, jj) == (if jj < n {
                        entry(data@, n as int, ii, jj)
                    } else if jj == n + ii {
                        one
                    } else {
                        zero
                    }),
                forall|jj: int|
                    0 <= jj < j ==> #[trigger] entry(result@, w, i as int, jj) == (if jj < n {
                        entry(data@, n as int, i as int, jj)
                    } else if jj == n + i {
                        one
                    } else {
                        zero
                    }),
            decreases w - j,
        {
            let ghost before = result@;
            if j < n {
                proof {
                    lemma_index_in_range(n as int, n as int, i as int, j as int);
                    assert(data@.len() == data.len());
                }
                result.push(data[i * n + j]);
            } else if j == n + i {
                result.push(one);
            } else {
                result.push(zero);
            }
            proof {
                assert forall|ii: int, jj: int| 0 <= ii < i && 0 <= jj < w implies #[trigger] entry(
                    result@,
                    w,
                    ii,
                    jj,
                ) == (if jj < n {
                    entry(data@, n as int, ii, jj)
                } else if jj == n + ii {
                    one
                } else {
                    zero
                }) by {
                    lemma_index_in_range(i as int, w, ii, jj);
                    assert(entry(before, w, ii, jj) == entry(result@, w, ii, jj));
                }
                assert forall|jj: int| 0 <= jj < j + 1 implies #[trigger] entry(
                    result@,
                    w,
                    i as int,
                    jj,
                ) == (if jj < n {
                    entry(data@, n as int, i as int, jj)
                } else if jj == n + i {
                    one
                } else {
                    zero
                }) by {
                    if jj < j {
                        assert(entry(before, w, i as int, jj) == entry(result@, w, i as int, jj));
                    }
                }
            }
            j += 1;
        }
        proof {
            lemma_next_row(w, i as int);
        }
        i += 1;
    }
    assert forall|i: int, j: int| 0 <= i < n && 0 <= j < n implies #[trigger] result@[i * (2 * n) + j]
        == data@[i * n + j] by {
        assert(entry(result@, 2 * n, i, j) == entry(data@, n as int, i, j));
    }
    assert forall|i: int, j: int| 0 <= i < n && 0 <= j < n implies #[trigger] result@[i * (2 * n) + n
        + j] == (if i == j {
        one
    } else {
        zero
    }) by {
        assert(entry(result@, 2 * n, i, n + j) == (if n + j == n + i {
            one
        } else {
            zero
        }));
    }
    result
}

/// The right `n` by `n` block of the `n` by `2n` matrix stored row by row in
/// `aug`: entry `(i, j)` of the result is entry `(i, n + j)` of `aug`.
pub fn right_block<T: Copy>(aug: &[T], n: usize) -> (result: Vec<T>)
    requires
        n * (2 * n) <= aug@.len(),
    ensures
        result@.len() == n * n,
        forall|i: int, j: int|
            0 <= i < n && 0 <= j < n ==> #[trigger] entry(result@, n as int, i, j) == entry(
                aug@,
                2 * n,
                i,
                n + j,
            ),
        forall|i: int, j: int|
            0 <= i < n && 0 <= j < n ==> #[trigger] result@[i * n + j] == aug@[i * (2 * n) + n + j],
{
    let ghost w = 2 * n;
    proof {
        assert(aug@.len() == aug.len());
    }
    assert(2 * n <= usize::MAX) by (nonlinear_arith)
        requires
            n * (2 * n) <= usize::MAX,
    ;
    let width: usize = 2 * n;
    let mut result: Vec<T> = Vec::new();
    let mut i: usize = 0;
    while i < n
        invariant
            i <= n,
            width == w,
            w == 2 * n,
            n * w <= aug@.len(),
            aug@.len() == aug.len(),
            result@.len() == i * n,
            forall|ii: int, jj: int|
                0 <= ii < i && 0 <= jj < n ==> #[trigger] entry(result@, n as int, ii, jj) == entry(
                    aug@,
                    w,
                    ii,
                    n + jj,
                ),
        decreases n - i,
    {
        let mut j: usize = 0;
        while j < n
            invariant
                i < n,
                j <= n,
                width == w,
                w == 2 * n,
                n * w <= aug@.len(),
                aug@.len() == aug.len(),
                result@.len() == i * n + j,
                forall|ii: int, jj: int|
                    0 <= ii < i && 0 <= jj < n ==> #[trigger] entry(result@, n as int, ii, jj) == entry(
                        aug@,
                        w,
                        ii,
                        n + jj,
                    ),
                forall|jj: int|
                    0 <= jj < j ==> #[trigger] entry(result@, n as int, i as int, jj) == entry(
                        aug@,
                        w,
                        i as int,
                        n + jj,
                    ),
            decreases n - j,
        {
            proof {
                lemma_index_in_range(n as int, w, i as int, n + j);
            }
            let ghost before = result@;
            result.push(aug[i * width + n + j]);
            proof {
                assert forall|ii: int, jj: int| 0 <= ii < i && 0 <= jj < n implies #[trigger] entry(
                    result@,
                    n as int,
                    ii,
                    jj,
                ) == entry(aug@, w, ii, n + jj) by {
                    lemma_index_in_range(i as int, n as int, ii, jj);
                    assert(entry(before, n as int, ii, jj) == entry(result@, n as int, ii, jj));
                }
                assert forall|jj: int| 0 <= jj < j + 1 implies #[trigger] entry(
                    result@,
                    n as int,
                    i as int,
                    jj,
                ) == entry(aug@, w, i as int, n + jj) by {
                    if jj < j {
                        assert(entry(before, n as int, i as int, jj) == entry(result@, n as int, i as int, jj));
                    }
                }
            }
            j += 1;
        }
        proof {
            lemma_next_row(n as int, i as int);
        }
        i += 1;
    }
    assert forall|i: int, j: int| 0 <= i < n && 0 <= j < n implies #[trigger] result@[i * n + j]
        == aug@[i * (2 * n) + n + j] by {
        assert(entry(result@, n as int, i, j) == entry(aug@, 2 * n, i, n + j));
    }
    result
}

/// `s` with rows `a` and `b` (each `width` entries long) exchanged.
pub open spec fn rows_swapped<T>(s: Seq<T>, width: int, a: int, b: int) -> Seq<T> {
    Seq::new(
        s.len(),
        |k: int|
            if a * width <= k < a * width + width {
                s[k - a * width + b * width]
            } else if b * width <= k < b * width + width {
                s[k - b * width + a * width]
            } else {
                s[k]
            },
    )
}

/// Rows `a` and `b` are either the same row or do not overlap.
proof fn lemma_rows_apart(width: int, a: int, b: int)
    requires
        0 <= a,
        0 <= b,
        0 <= width,
    ensures
        a == b || a * width + width <= b * width || b * width + width <= a * width,
        0 <= a * width,
        0 <= b * width,
{
    if a < b {
        lemma_rows_ordered(width, a, b);
    } else if b < a {
        lemma_rows_ordered(width, b, a);
    }
    assert(0 <= a * width && 0 <= b * width) by (nonlinear_arith)
        requires
            0 <= a,
            0 <= b,
            0 <= width,
    ;
}

/// Exchanges rows `a` and `b`, each `width` entries long, of the matrix
/// stored row by row in `m`.
pub fn swap_rows<T: Copy>(m: &mut Vec<T>, width: usize, a: usize, b: usize)
    requires
        a * width + width <= old(m)@.len(),
        b * width + width <= old(m)@.len(),
    ensures
        final(m)@ == rows_swapped(old(m)@, width as int, a as int, b as int),
        final(m)@.len() == old(m)@.len(),
        forall|t: int| 0 <= t < width ==> #[trigger] final(m)@[a * width + t] == old(m)@[b * width + t],
        forall|t: int| 0 <= t < width ==> #[trigger] final(m)@[b * width + t] == old(m)@[a * width + t],
        forall|k: int|
            0 <= k < old(m)@.len() && !(a * width <= k < a * width + width) && !(b * width <= k < b
                * width + width) ==> #[trigger] final(m)@[k] == old(m)@[k],
{
    proof {
        lemma_rows_apart(width as int, a as int, b as int);
        assert(m@.len() == m.len());
    }
    let ghost s = m@;
    let abase = a * width;
    let bbase = b * width;
    let mut j: usize = 0;
    while j < width
        invariant
            s == old(m)@,
            s.len() <= usize::MAX,
            j <= width,
            abase == a * width,
            bbase == b * width,
            abase + width <= s.len(),
            bbase + width <= s.len(),
            a == b || abase + width <= bbase || bbase + width <= abase,
            m@.len() == s.len(),
            forall|t: int| 0 <= t < j ==> #[trigger] m@[abase + t] == s[bbase + t],
            forall|t: int| 0 <= t < j ==> #[trigger] m@[bbase + t] == s[abase + t],
            forall|k: int|
                0 <= k < s.len() && !(abase <= k < abase + j) && !(bbase <= k < bbase + j)
                    ==> #[trigger] m@[k] == s[k],
        decreases width - j,
    {
        let x = m[abase + j];
        let y = m[bbase + j];
        m.set(abase + j, y);
        m.set(bbase + j, x);
        j += 1;
    }
    proof {
        let r = rows_swapped(s, width as int, a as int, b as int);
        assert forall|k: int| 0 <= k < s.len() implies m@[k] == r[k] by {
            if abase <= k < abase + width {
                let t = k - abase;
                assert(m@[abase + t] == s[bbase + t]);
            } else if bbase <= k < bbase + width {
                let t = k - bbase;
                assert(m@[bbase + t] == s[abase + t]);
            }
        }
        assert(m@ =~= r);
    }
}

/// Exchanging rows `a` and `b` moves every entry of row `b` into the same
/// column of row `a` and every entry of row `a` into the same column of row
/// `b`, and leaves every entry outside the two rows where it was.
pub proof fn lemma_rows_swapped_exchanges<T>(s: Seq<T>, width: int, a: int, b: int)
    requires
        0 <= a,
        0 <= b,
        0 <= width,
        a * width + width <= s.len(),
        b * width + width <= s.len(),
    ensures
        rows_swapped(s, width, a, b).len() == s.len(),
        forall|t: int|
            0 <= t < width ==> #[trigger] rows_swapped(s, width, a, b)[a * width + t] == s[b * width + t],
        forall|t: int|
            0 <= t < width ==> #[trigger] rows_swapped(s, width, a, b)[b * width + t] == s[a * width + t],
        forall|k: int|
            0 <= k < s.len() && !(a * width <= k < a * width + width) && !(b * width <= k < b * width
                + width) ==> #[trigger] rows_swapped(s, width, a, b)[k] == s[k],
{
    lemma_rows_apart(width, a, b);
}

/// Swapping the same two rows twice gives back the matrix.
pub proof fn lemma_swap_rows_involution<T>(s: Seq<T>, width: int, a: int, b: int)
    requires
        0 <= a,
        0 <= b,
        0 <= width,
        a * width + width <= s.len(),
        b * width + width <= s.len(),
    ensures
        rows_swapped(rows_swapped(s, width, a, b), width, a, b) == s,
{
    lemma_rows_apart(width, a, b);
    let once = rows_swapped(s, width, a, b);
    let twice = rows_swapped(once, width, a, b);
    assert(twice =~= s);
}

} // verus!

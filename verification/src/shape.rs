//! Shape checks that decide which inputs the numeric routines accept.

use vstd::prelude::*;

verus! {

/// The largest matrix order that the eigenvalue iteration accepts.
pub const MAX_EIGEN_ORDER: usize = 8;

/// Whether `len` entries are exactly the storage of an `n` by `n` matrix.
pub fn is_square_storage(len: usize, n: usize) -> (ok: bool)
    ensures
        ok == (len == n * n),
{
    if n == 0 {
        len == 0
    } else if len / n != n {
        proof {
            assert(len != n * n) by (nonlinear_arith)
                requires
                    n > 0,
                    len / n != n,
            ;
        }
        false
    } else {
        proof {
            assert((len == n * n) == (len % n == 0)) by (nonlinear_arith)
                requires
                    n > 0,
                    len / n == n,
            {
                vstd::arithmetic::div_mod::lemma_fundamental_div_mod(len as int, n as int);
            }
        }
        len % n == 0
    }
}

/// Whether the eigenvalue iteration accepts an `n` by `n` matrix stored in
/// `len` entries: the order is between 1 and `MAX_EIGEN_ORDER` and the
/// storage holds exactly `n * n` entries.
pub fn eigen_input_accepted(len: usize, n: usize) -> (ok: bool)
    ensures
        ok == (1 <= n <= MAX_EIGEN_ORDER && len == n * n),
{
    if n == 0 || n > MAX_EIGEN_ORDER {
        false
    } else {
        assert(n * n <= 64) by (nonlinear_arith)
            requires
                1 <= n <= 8,
        ;
        len == n * n
    }
}

} // verus!

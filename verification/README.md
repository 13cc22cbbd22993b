# lau-math-wasm

A small toolkit for spectral graph analysis and agent lifecycles, exported to
JavaScript through WebAssembly.

- `src/` is the verified library: the layout of dense row-major matrices
  (transposition, splitting into rows and flattening back, symmetric matrices
  from an upper triangle, the identity, the diagonal, the matrix augmented
  with the identity and its right block, row swaps) and the identifier of
  merged agents. `src/grid.rs` holds the model of a flat matrix, an entry at
  `(i, j)`, that every contract is stated in.
- `app/` is the WebAssembly surface: the floating-point numerics (products,
  inversion, QR eigenvalues, Laplacians, heat kernels, the agent phases), JSON
  handling and browser calls, built on the library's layout routines.

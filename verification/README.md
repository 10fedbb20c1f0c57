# chern_classes

Characteristic classes of vector bundles (Chern, Pontryagin and Todd classes,
the Whitney sum formula and the splitting principle), computed over an exact
polynomial ring with `i128` coefficients and verified with Verus.

- `src/poly.rs`: the polynomial ring; every operation is specified over the
  coefficient sequence, with the exact condition for staying in `i128`.
- `src/rational.rs`: polynomials over a common denominator, for the classes
  whose formulas hold fractions (`ch`, `td`, the A-genus).
- `src/bundle.rs`: vector bundles and the Chern, Todd and Pontryagin classes.
- `src/splitting.rs`: Chern roots, the classes they give, and
  `verify_whitney_sum`, which always holds.
- `src/roots.rs`, `src/whitney.rs`: the proofs behind the splitting principle.
- `src/todd.rs`: the Todd class as the multiplicative sequence of
  `x/(1 - e^-x)`, from the Chern classes through their power sums, exact
  over the common denominator `d! 210^d`.
- `src/todd_cp.rs`: the Todd class of `T(CP^n)`, `n <= 9`, worked out: in
  range, with genus `1`.
- `src/laws.rs`: the ring laws, the product rule, the Whitney sum formula,
  the additivity of the Chern character, the Todd class of a line bundle,
  and the Todd genus `1` of `CP^n`.
- `src/decimal.rs`: decimal text of integers, for names and `to_string`.
- `app/lib.rs`: floating-point views of the exact results.

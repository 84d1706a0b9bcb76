//! The mathematical model of 2x2 matrices over the natural numbers: the
//! product, the power, and the algebraic laws that the Fibonacci engine's
//! proofs rest on.

use vstd::prelude::*;

verus! {

/// A 2x2 matrix of natural numbers, written
/// ```text
/// | a00 a01 |
/// | a10 a11 |
/// ```
pub struct Mat2 {
    pub a00: nat,
    pub a01: nat,
    pub a10: nat,
    pub a11: nat,
}

/// The standard 2x2 matrix product.
pub open spec fn mat_mul(x: Mat2, y: Mat2) -> Mat2 {
    Mat2 {
        a00: x.a00 * y.a00 + x.a01 * y.a10,
        a01: x.a00 * y.a01 + x.a01 * y.a11,
        a10: x.a10 * y.a00 + x.a11 * y.a10,
        a11: x.a10 * y.a01 + x.a11 * y.a11,
    }
}

/// The identity matrix.
pub open spec fn mat_id() -> Mat2 {
    Mat2 { a00: 1, a01: 0, a10: 0, a11: 1 }
}

/// The base Fibonacci matrix `(1, 1, 1, 0)`.
pub open spec fn fib_mat() -> Mat2 {
    Mat2 { a00: 1, a01: 1, a10: 1, a11: 0 }
}

/// `m` raised to the `n`-th power, with `m^0` the identity.
pub open spec fn mat_pow(m: Mat2, n: nat) -> Mat2
    decreases n,
{
    if n == 0 {
        mat_id()
    } else {
        mat_mul(mat_pow(m, (n - 1) as nat), m)
    }
}

/// Multiplying by the identity on the left changes nothing.
pub proof fn lemma_mat_mul_id_left(m: Mat2)
    ensures
        mat_mul(mat_id(), m) == m,
{
    broadcast use vstd::arithmetic::mul::group_mul_basics;

}

/// Multiplying by the identity on the right changes nothing.
pub proof fn lemma_mat_mul_id_right(m: Mat2)
    ensures
        mat_mul(m, mat_id()) == m,
{
    broadcast use vstd::arithmetic::mul::group_mul_basics;

}

/// The first power of a matrix is the matrix itself.
pub proof fn lemma_mat_pow_1(m: Mat2)
    ensures
        mat_pow(m, 1) == m,
{
    assert(mat_pow(m, 0) == mat_id());
    lemma_mat_mul_id_left(m);
}

/// One entry of a 2x2 matrix product, regrouped: the row `(x1, x2)` times
/// the matrix `y` times the column `(z1, z2)` comes out the same whichever
/// product is taken first.
proof fn lemma_dot_assoc(x1: nat, x2: nat, y11: nat, y12: nat, y21: nat, y22: nat, z1: nat, z2:
    nat)
    ensures
        (x1 * y11 + x2 * y21) * z1 + (x1 * y12 + x2 * y22) * z2 == x1 * (y11 * z1 + y12 * z2) + x2
            * (y21 * z1 + y22 * z2),
{
    vstd::arithmetic::mul::lemma_mul_is_distributive_add_other_way(
        z1 as int,
        (x1 * y11) as int,
        (x2 * y21) as int,
    );
    vstd::arithmetic::mul::lemma_mul_is_distributive_add_other_way(
        z2 as int,
        (x1 * y12) as int,
        (x2 * y22) as int,
    );
    vstd::arithmetic::mul::lemma_mul_is_distributive_add(x1 as int, (y11 * z1) as int, (y12
        * z2) as int);
    vstd::arithmetic::mul::lemma_mul_is_distributive_add(x2 as int, (y21 * z1) as int, (y22
        * z2) as int);
    vstd::arithmetic::mul::lemma_mul_is_associative(x1 as int, y11 as int, z1 as int);
    vstd::arithmetic::mul::lemma_mul_is_associative(x1 as int, y12 as int, z2 as int);
    vstd::arithmetic::mul::lemma_mul_is_associative(x2 as int, y21 as int, z1 as int);
    vstd::arithmetic::mul::lemma_mul_is_associative(x2 as int, y22 as int, z2 as int);
}

/// The 2x2 matrix product is associative.
pub proof fn lemma_mat_mul_assoc(a: Mat2, b: Mat2, c: Mat2)
    ensures
        mat_mul(mat_mul(a, b), c) == mat_mul(a, mat_mul(b, c)),
{
    lemma_dot_assoc(a.a00, a.a01, b.a00, b.a01, b.a10, b.a11, c.a00, c.a10);
    lemma_dot_assoc(a.a00, a.a01, b.a00, b.a01, b.a10, b.a11, c.a01, c.a11);
    lemma_dot_assoc(a.a10, a.a11, b.a00, b.a01, b.a10, b.a11, c.a00, c.a10);
    lemma_dot_assoc(a.a10, a.a11, b.a00, b.a01, b.a10, b.a11, c.a01, c.a11);
}

/// Powers of one matrix multiply by adding exponents.
pub proof fn lemma_mat_pow_add(m: Mat2, a: nat, b: nat)
    ensures
        mat_pow(m, a + b) == mat_mul(mat_pow(m, a), mat_pow(m, b)),
    decreases b,
{
    if b == 0 {
        lemma_mat_mul_id_right(mat_pow(m, a));
    } else {
        lemma_mat_pow_add(m, a, (b - 1) as nat);
        lemma_mat_mul_assoc(mat_pow(m, a), mat_pow(m, (b - 1) as nat), m);
    }
}

} // verus!

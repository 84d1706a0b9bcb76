//! An arbitrary-precision Fibonacci engine.
//!
//! `Fibonacci::nth` computes the exact `n`-th Fibonacci number in `O(log n)`
//! big-integer matrix multiplications, by raising the base matrix
//! `(1, 1, 1, 0)` to the `(n - 1)`-th power and reading off its top-left
//! entry.

use vstd::prelude::*;

use crate::bignum::{big_add, big_clone, big_mul, big_one, big_value, big_zero};
use crate::matrix::{
    fib_mat, lemma_mat_mul_id_left, lemma_mat_pow_1, lemma_mat_pow_add, mat_id, mat_mul, mat_pow,
    Mat2,
};

verus! {

/// The Fibonacci numbers: `fib(0) == 0`, `fib(1) == 1`, and each later one is
/// the sum of the two before it.
pub open spec fn fib(n: nat) -> nat
    decreases n,
{
    if n == 0 {
        0
    } else if n == 1 {
        1
    } else {
        fib((n - 1) as nat) + fib((n - 2) as nat)
    }
}

/// The recurrence law: every Fibonacci number from the second on is the sum
/// of the two before it.
pub proof fn lemma_fib_recurrence(n: nat)
    requires
        n >= 2,
    ensures
        fib(n) == fib((n - 1) as nat) + fib((n - 2) as nat),
{
}

/// Monotonicity: from the first one on, the Fibonacci numbers never decrease.
pub proof fn lemma_fib_monotonic(n: nat)
    requires
        n >= 1,
    ensures
        fib(n + 1) >= fib(n),
{
}

/// Determinism: `Fibonacci::nth` promises that its result holds exactly
/// `fib(n)`, so any two results of calls with the same index hold the same
/// number.
pub proof fn lemma_nth_deterministic(n: nat, a: num_bigint::BigUint, b: num_bigint::BigUint)
    requires
        big_value(a) == fib(n),
        big_value(b) == fib(n),
    ensures
        big_value(a) == big_value(b),
{
}

/// The `n`-th power of the base matrix holds the Fibonacci numbers around
/// index `n`.
pub proof fn lemma_fib_mat_pow(n: nat)
    requires
        n >= 1,
    ensures
        mat_pow(fib_mat(), n) == (Mat2 {
            a00: fib(n + 1),
            a01: fib(n),
            a10: fib(n),
            a11: fib((n - 1) as nat),
        }),
    decreases n,
{
    broadcast use vstd::arithmetic::mul::group_mul_basics;

    if n == 1 {
        assert(mat_pow(fib_mat(), 0) == mat_id());
        lemma_mat_mul_id_left(fib_mat());
        assert(fib(0) == 0);
        assert(fib(1) == 1);
        assert(fib(2) == 1);
    } else {
        lemma_fib_mat_pow((n - 1) as nat);
        assert(fib(n + 1) == fib(n) + fib((n - 1) as nat));
        assert(fib(n) == fib((n - 1) as nat) + fib((n - 2) as nat));
    }
}

/// Every power of the base matrix keeps the Fibonacci shape: the two
/// off-diagonal entries are equal, the top-left entry is the largest and the
/// bottom-right entry is the smallest.
pub proof fn lemma_fib_mat_pow_shape(n: nat)
    requires
        n >= 1,
    ensures
        mat_pow(fib_mat(), n).a01 == mat_pow(fib_mat(), n).a10,
        mat_pow(fib_mat(), n).a00 >= mat_pow(fib_mat(), n).a01,
        mat_pow(fib_mat(), n).a10 >= mat_pow(fib_mat(), n).a11,
{
    lemma_fib_mat_pow(n);
    lemma_fib_monotonic(n);
    if n >= 2 {
        lemma_fib_monotonic((n - 1) as nat);
    } else {
        assert(fib(0) == 0);
        assert(fib(1) == 1);
    }
}

/// A 2x2 matrix of arbitrary-precision non-negative integers, seen in
/// specifications as the [`Mat2`] of the numbers its entries hold.
struct Matrix2x2 {
    a00: num_bigint::BigUint,
    a01: num_bigint::BigUint,
    a10: num_bigint::BigUint,
    a11: num_bigint::BigUint,
}

impl View for Matrix2x2 {
    type V = Mat2;

    closed spec fn view(&self) -> Mat2 {
        Mat2 {
            a00: big_value(self.a00),
            a01: big_value(self.a01),
            a10: big_value(self.a10),
            a11: big_value(self.a11),
        }
    }
}

/// The engine itself; it carries no state, every call stands alone.
pub struct Fibonacci;

impl Default for Fibonacci {
    fn default() -> (r: Self)
        ensures
            r == Fibonacci,
    {
        Self::new()
    }
}

impl Fibonacci {
    /// Creates a new engine.
    pub fn new() -> (r: Self)
        ensures
            r == Fibonacci,
    {
        Fibonacci
    }

    /// Computes the `n`-th Fibonacci number exactly.
    pub fn nth(&self, n: usize) -> (r: num_bigint::BigUint)
        ensures
            big_value(r) == fib(n as nat),
    {
        if n == 0 {
            return big_zero();
        }
        let mut matrix = Matrix2x2 { a00: big_one(), a01: big_one(), a10: big_one(), a11:
            big_zero() };
        assert(matrix@ == fib_mat());

        self.matrix_pow(&mut matrix, n - 1);

        proof {
            if n == 1 {
                lemma_fib_mat_pow(1);
                assert(fib(2) == fib(1) + fib(0));
            } else {
                lemma_fib_mat_pow((n - 1) as nat);
            }
        }
        big_clone(&matrix.a00)
    }

    /// The standard 2x2 matrix product, computed with 8 multiplications and
    /// 4 additions; the inputs are left unchanged.
    fn matrix_mult(&self, a: &Matrix2x2, b: &Matrix2x2) -> (r: Matrix2x2)
        ensures
            r@ == mat_mul(a@, b@),
    {
        let a00 = big_add(&big_mul(&a.a00, &b.a00), &big_mul(&a.a01, &b.a10));
        let a01 = big_add(&big_mul(&a.a00, &b.a01), &big_mul(&a.a01, &b.a11));
        let a10 = big_add(&big_mul(&a.a10, &b.a00), &big_mul(&a.a11, &b.a10));
        let a11 = big_add(&big_mul(&a.a10, &b.a01), &big_mul(&a.a11, &b.a11));
        Matrix2x2 { a00, a01, a10, a11 }
    }

    /// Raises the base Fibonacci matrix to the `n`-th power by binary
    /// exponentiation.
    ///
    /// For `n == 0` the matrix is returned unchanged, not replaced by the
    /// identity: the caller only ever raises the base matrix, whose first
    /// power is itself, and this coupling is deliberate.
    fn matrix_pow(&self, matrix: &mut Matrix2x2, n: usize)
        requires
            old(matrix)@ == fib_mat(),
        ensures
            final(matrix)@ == mat_pow(fib_mat(), if n == 0 { 1nat } else { n as nat }),
        decreases n,
    {
        if n == 0 || n == 1 {
            proof {
                lemma_mat_pow_1(fib_mat());
            }
            return;
        }

        let mut temp_matrix = Matrix2x2 {
            a00: big_clone(&matrix.a00),
            a01: big_clone(&matrix.a01),
            a10: big_clone(&matrix.a10),
            a11: big_clone(&matrix.a11),
        };

        self.matrix_pow(&mut temp_matrix, n / 2);

        let temp_matrix_squared = self.matrix_mult(&temp_matrix, &temp_matrix);
        proof {
            lemma_mat_pow_add(fib_mat(), (n / 2) as nat, (n / 2) as nat);
        }

        if n % 2 == 0 {
            *matrix = temp_matrix_squared;
        } else {
            let fib_matrix = Matrix2x2 { a00: big_one(), a01: big_one(), a10: big_one(), a11:
                big_zero() };
            assert(fib_matrix@ == fib_mat());
            *matrix = self.matrix_mult(&temp_matrix_squared, &fib_matrix);
            assert(mat_pow(fib_mat(), n as nat) == mat_mul(
                mat_pow(fib_mat(), (n - 1) as nat),
                fib_mat(),
            ));
        }
    }
}

} // verus!

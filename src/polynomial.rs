//! Polynomials over the prime field, as lists of coefficients.
use crate::field::{add_mod, is_element, mul_mod, random_nonzero_element, MODULUS};
use vstd::arithmetic::div_mod::{lemma_add_mod_noop, lemma_mul_mod_noop, lemma_mod_twice};
use vstd::prelude::*;

verus! {

/// `x` to the power `n`.
pub open spec fn power(x: int, n: nat) -> int
    decreases n,
{
    if n == 0 {
        1
    } else {
        x * power(x, (n - 1) as nat)
    }
}

/// The value at `x` of the polynomial with coefficients `c`, `c[0]` first:
/// the sum of `c[i] * x^i`.
pub open spec fn poly_value(c: Seq<u128>, x: int) -> int
    decreases c.len(),
{
    if c.len() == 0 {
        0
    } else {
        poly_value(c.drop_last(), x) + c.last() * power(x, (c.len() - 1) as nat)
    }
}

/// Every coefficient is a field element.
pub open spec fn all_elements(c: Seq<u128>) -> bool {
    forall|i: int| 0 <= i < c.len() ==> is_element(#[trigger] c[i] as int)
}

/// A polynomial given by its coefficients, the constant term first.
pub struct Polynom {
    pub coefficients: Vec<u128>,
}

impl Polynom {
    pub fn new(coefficients: Vec<u128>) -> (r: Self)
        ensures
            r.coefficients@ == coefficients@,
    {
        Polynom { coefficients }
    }

    /// A random polynomial of degree `deg` with the given constant term: every
    /// other coefficient is drawn uniformly from the nonzero field elements, so
    /// that the degree is exactly `deg`.
    pub fn new_random_of_degree_with_constant_term(deg: usize, constant_term: u128) -> (r: Self)
        requires
            deg < usize::MAX,
        ensures
            r.coefficients@.len() == deg + 1,
            r.coefficients@[0] == constant_term,
            forall|i: int| 1 <= i <= deg ==> 0 < #[trigger] r.coefficients@[i] < MODULUS,
    {
        let mut coefficients: Vec<u128> = Vec::new();
        coefficients.push(constant_term);
        let mut i: usize = 0;
        while i < deg
            invariant
                i <= deg,
                coefficients@.len() == i + 1,
                coefficients@[0] == constant_term,
                forall|k: int| 1 <= k <= i ==> 0 < #[trigger] coefficients@[k] < MODULUS,
            decreases deg - i,
        {
            let coef = random_nonzero_element();
            coefficients.push(coef);
            i = i + 1;
        }
        Polynom { coefficients }
    }

    /// The value of the polynomial at `x`, modulo the field prime.
    pub fn calculate_y(&self, x: u128) -> (r: u128)
        requires
            is_element(x as int),
            all_elements(self.coefficients@),
        ensures
            r as int == poly_value(self.coefficients@, x as int) % (MODULUS as int),
    {
        let c = &self.coefficients;
        let ghost p = MODULUS as int;
        let mut y: u128 = 0;
        let mut x_pow: u128 = 1;
        let mut i: usize = 0;
        while i < c.len()
            invariant
                i <= c.len(),
                p == MODULUS as int,
                is_element(x as int),
                all_elements(c@),
                is_element(y as int),
                is_element(x_pow as int),
                y as int == poly_value(c@.take(i as int), x as int) % p,
                x_pow as int == power(x as int, i as nat) % p,
            decreases c.len() - i,
        {
            let term = mul_mod(c[i], x_pow);
            let ghost s = poly_value(c@.take(i as int), x as int);
            let ghost xi = power(x as int, i as nat);
            proof {
                assert(c@.take(i + 1).drop_last() =~= c@.take(i as int));
                lemma_mul_mod_noop(c[i as int] as int, xi, p);
                lemma_mod_twice(c[i as int] as int, p);
                lemma_add_mod_noop(s, c[i as int] * xi, p);
                lemma_mod_twice(s, p);
                lemma_mul_mod_noop(xi, x as int, p);
                lemma_mod_twice(x as int, p);
                assert(xi * x == x * xi) by (nonlinear_arith);
            }
            y = add_mod(y, term);
            x_pow = mul_mod(x_pow, x);
            i = i + 1;
        }
        proof {
            assert(c@.take(c@.len() as int) =~= c@);
        }
        y
    }

    /// The points `(x, f(x))` for `x = 1, ..., n`.
    pub fn get_firsts_n_points(&self, n: usize) -> (r: Vec<(u128, u128)>)
        requires
            n < MODULUS,
            all_elements(self.coefficients@),
        ensures
            r@.len() == n,
            forall|k: int|
                0 <= k < n ==> #[trigger] r@[k] == ((k + 1) as u128, (poly_value(
                    self.coefficients@,
                    k + 1,
                ) % (MODULUS as int)) as u128),
    {
        let mut points: Vec<(u128, u128)> = Vec::new();
        let mut i: usize = 0;
        while i < n
            invariant
                i <= n,
                n < MODULUS,
                all_elements(self.coefficients@),
                points@.len() == i,
                forall|k: int|
                    0 <= k < i ==> #[trigger] points@[k] == ((k + 1) as u128, (poly_value(
                        self.coefficients@,
                        k + 1,
                    ) % (MODULUS as int)) as u128),
            decreases n - i,
        {
            let x: u128 = (i + 1) as u128;
            let y = self.calculate_y(x);
            points.push((x, y));
            i = i + 1;
        }
        points
    }
}

} // verus!

use crate::integer::Integer;
use num_bigint::BigInt;
use num_rational::BigRational;
use core::cmp::Ordering;
use vstd::prelude::*;

verus! {

/// Greatest common divisor, by Euclid's algorithm.
pub open spec fn gcd(a: nat, b: nat) -> nat
    decreases b,
{
    if b == 0 {
        a
    } else {
        gcd(b, a % b)
    }
}

pub open spec fn abs(x: int) -> nat {
    if x < 0 {
        (-x) as nat
    } else {
        x as nat
    }
}

/// The fraction `n / d` in lowest terms with a positive denominator; zero is `0 / 1`.
pub open spec fn lowest_terms(n: int, d: int) -> (int, int) {
    if n == 0 {
        (0, 1)
    } else {
        let g = gcd(abs(n), abs(d)) as int;
        if d < 0 {
            (-n / g, -d / g)
        } else {
            (n / g, d / g)
        }
    }
}

/// `n / d` rounded toward zero.
pub open spec fn trunc_div(n: int, d: int) -> int {
    if (n < 0) == (d < 0) {
        abs(n) as int / abs(d) as int
    } else {
        -(abs(n) as int / abs(d) as int)
    }
}

/// An exact rational number `numer / denom` with `denom > 0`, as `num_rational` keeps it.
#[derive(Debug)]
pub struct Rational {
    pub(crate) numer: Integer,
    pub(crate) denom: Integer,
}

impl View for Rational {
    type V = (int, int);

    closed spec fn view(&self) -> (int, int) {
        (self.numer@, self.denom@)
    }
}

/// Relies on `Ratio::new`, which reduces to lowest terms with a positive denominator.
#[verifier::external_body]
fn ratio_new(n: &Integer, d: &Integer) -> (r: Rational)
    requires
        d@ != 0,
    ensures
        r@ == lowest_terms(n@, d@),
{
    let q = BigRational::new(BigInt::from_signed_bytes_le(&n.bytes), BigInt::from_signed_bytes_le(&d.bytes));
    Rational {
        numer: Integer { bytes: q.numer().to_signed_bytes_le() },
        denom: Integer { bytes: q.denom().to_signed_bytes_le() },
    }
}

/// Relies on `Ratio + Ratio`, whose result is reduced by `Ratio::new`.
#[verifier::external_body]
fn ratio_add(a: &Rational, b: &Rational) -> (r: Rational)
    requires
        a@.1 != 0,
        b@.1 != 0,
    ensures
        r@ == lowest_terms(a@.0 * b@.1 + b@.0 * a@.1, a@.1 * b@.1),
{
    let x = BigRational::new(BigInt::from_signed_bytes_le(&a.numer.bytes), BigInt::from_signed_bytes_le(&a.denom.bytes));
    let y = BigRational::new(BigInt::from_signed_bytes_le(&b.numer.bytes), BigInt::from_signed_bytes_le(&b.denom.bytes));
    let q = x + y;
    Rational {
        numer: Integer { bytes: q.numer().to_signed_bytes_le() },
        denom: Integer { bytes: q.denom().to_signed_bytes_le() },
    }
}

/// Relies on `Ratio - Ratio`, whose result is reduced by `Ratio::new`.
#[verifier::external_body]
fn ratio_sub(a: &Rational, b: &Rational) -> (r: Rational)
    requires
        a@.1 != 0,
        b@.1 != 0,
    ensures
        r@ == lowest_terms(a@.0 * b@.1 - b@.0 * a@.1, a@.1 * b@.1),
{
    let x = BigRational::new(BigInt::from_signed_bytes_le(&a.numer.bytes), BigInt::from_signed_bytes_le(&a.denom.bytes));
    let y = BigRational::new(BigInt::from_signed_bytes_le(&b.numer.bytes), BigInt::from_signed_bytes_le(&b.denom.bytes));
    let q = x - y;
    Rational {
        numer: Integer { bytes: q.numer().to_signed_bytes_le() },
        denom: Integer { bytes: q.denom().to_signed_bytes_le() },
    }
}

/// Relies on `Ratio * Ratio`, whose result is reduced by `Ratio::new`.
#[verifier::external_body]
fn ratio_mul(a: &Rational, b: &Rational) -> (r: Rational)
    requires
        a@.1 != 0,
        b@.1 != 0,
    ensures
        r@ == lowest_terms(a@.0 * b@.0, a@.1 * b@.1),
{
    let x = BigRational::new(BigInt::from_signed_bytes_le(&a.numer.bytes), BigInt::from_signed_bytes_le(&a.denom.bytes));
    let y = BigRational::new(BigInt::from_signed_bytes_le(&b.numer.bytes), BigInt::from_signed_bytes_le(&b.denom.bytes));
    let q = x * y;
    Rational {
        numer: Integer { bytes: q.numer().to_signed_bytes_le() },
        denom: Integer { bytes: q.denom().to_signed_bytes_le() },
    }
}

/// Relies on `Ratio / Ratio`, whose result is reduced by `Ratio::new`; it panics on a zero divisor.
#[verifier::external_body]
fn ratio_div(a: &Rational, b: &Rational) -> (r: Rational)
    requires
        a@.1 != 0,
        b@.1 != 0,
        b@.0 != 0,
    ensures
        r@ == lowest_terms(a@.0 * b@.1, a@.1 * b@.0),
{
    let x = BigRational::new(BigInt::from_signed_bytes_le(&a.numer.bytes), BigInt::from_signed_bytes_le(&a.denom.bytes));
    let y = BigRational::new(BigInt::from_signed_bytes_le(&b.numer.bytes), BigInt::from_signed_bytes_le(&b.denom.bytes));
    let q = x / y;
    Rational {
        numer: Integer { bytes: q.numer().to_signed_bytes_le() },
        denom: Integer { bytes: q.denom().to_signed_bytes_le() },
    }
}

/// Relies on `Ratio::to_integer`, which rounds toward zero.
#[verifier::external_body]
fn ratio_to_integer(a: &Rational) -> (r: Integer)
    requires
        a@.1 != 0,
    ensures
        r@ == trunc_div(a@.0, a@.1),
{
    let x = BigRational::new(BigInt::from_signed_bytes_le(&a.numer.bytes), BigInt::from_signed_bytes_le(&a.denom.bytes));
    Integer { bytes: x.to_integer().to_signed_bytes_le() }
}

/// Relies on `Ord for Ratio`, which orders by value; with positive denominators that
/// is the order of the cross products.
#[verifier::external_body]
fn ratio_cmp(a: &Rational, b: &Rational) -> (r: Ordering)
    requires
        a@.1 > 0,
        b@.1 > 0,
    ensures
        (r == Ordering::Less) == (a@.0 * b@.1 < b@.0 * a@.1),
        (r == Ordering::Equal) == (a@.0 * b@.1 == b@.0 * a@.1),
        (r == Ordering::Greater) == (a@.0 * b@.1 > b@.0 * a@.1),
{
    let x = BigRational::new(BigInt::from_signed_bytes_le(&a.numer.bytes), BigInt::from_signed_bytes_le(&a.denom.bytes));
    let y = BigRational::new(BigInt::from_signed_bytes_le(&b.numer.bytes), BigInt::from_signed_bytes_le(&b.denom.bytes));
    x.cmp(&y)
}

impl Rational {
    #[verifier::type_invariant]
    spec fn positive_denominator(&self) -> bool {
        self.denom@ > 0
    }

    /// The rational `n / d`, in lowest terms.
    pub fn new(n: &Integer, d: &Integer) -> (r: Rational)
        requires
            d@ != 0,
        ensures
            r@ == lowest_terms(n@, d@),
    {
        ratio_new(n, d)
    }

    /// The rational equal to the integer `n`.
    pub fn from_integer(n: &Integer) -> (r: Rational)
        ensures
            r@ == lowest_terms(n@, 1),
    {
        ratio_new(n, &Integer::from_i64(1))
    }

    /// The numerator, in lowest terms.
    pub fn numer(&self) -> (r: Integer)
        ensures
            r@ == self@.0,
    {
        self.numer.copy()
    }

    /// The denominator, positive and in lowest terms.
    pub fn denom(&self) -> (r: Integer)
        ensures
            r@ == self@.1,
    {
        self.denom.copy()
    }

    /// A copy of this rational.
    pub fn copy(&self) -> (r: Rational)
        ensures
            r@ == self@,
    {
        proof {
            use_type_invariant(self);
        }
        Rational { numer: self.numer.copy(), denom: self.denom.copy() }
    }

    /// The sum, in lowest terms.
    pub fn add(&self, o: &Rational) -> (r: Rational)
        ensures
            r@ == lowest_terms(self@.0 * o@.1 + o@.0 * self@.1, self@.1 * o@.1),
    {
        proof {
            use_type_invariant(self);
            use_type_invariant(o);
        }
        ratio_add(self, o)
    }

    /// The difference, in lowest terms.
    pub fn sub(&self, o: &Rational) -> (r: Rational)
        ensures
            r@ == lowest_terms(self@.0 * o@.1 - o@.0 * self@.1, self@.1 * o@.1),
    {
        proof {
            use_type_invariant(self);
            use_type_invariant(o);
        }
        ratio_sub(self, o)
    }

    /// The product, in lowest terms.
    pub fn mul(&self, o: &Rational) -> (r: Rational)
        ensures
            r@ == lowest_terms(self@.0 * o@.0, self@.1 * o@.1),
    {
        proof {
            use_type_invariant(self);
            use_type_invariant(o);
        }
        ratio_mul(self, o)
    }

    /// The quotient, in lowest terms.
    pub fn div(&self, o: &Rational) -> (r: Rational)
        requires
            o@.0 != 0,
        ensures
            r@ == lowest_terms(self@.0 * o@.1, self@.1 * o@.0),
    {
        proof {
            use_type_invariant(self);
            use_type_invariant(o);
        }
        ratio_div(self, o)
    }

    /// Whether the value is zero.
    pub fn is_zero(&self) -> (r: bool)
        ensures
            r == (self@.0 == 0),
    {
        self.numer.is_zero()
    }

    /// Whether the value is below zero.
    pub fn is_negative(&self) -> (r: bool)
        ensures
            r == (self@.0 < 0),
    {
        self.numer.is_negative()
    }

    /// The order of the two values.
    pub fn compare(&self, o: &Rational) -> (r: Ordering)
        ensures
            self@.1 > 0,
            o@.1 > 0,
            (r == Ordering::Less) == (self@.0 * o@.1 < o@.0 * self@.1),
            (r == Ordering::Equal) == (self@.0 * o@.1 == o@.0 * self@.1),
            (r == Ordering::Greater) == (self@.0 * o@.1 > o@.0 * self@.1),
    {
        proof {
            use_type_invariant(self);
            use_type_invariant(o);
        }
        ratio_cmp(self, o)
    }

    /// The integer part, rounded toward zero.
    pub fn to_integer(&self) -> (r: Integer)
        ensures
            r@ == trunc_div(self@.0, self@.1),
    {
        proof {
            use_type_invariant(self);
        }
        ratio_to_integer(self)
    }
}

impl PartialEq for Rational {
    fn eq(&self, o: &Rational) -> (r: bool)
        ensures
            r == (self@ == o@),
    {
        self.numer.equals(&o.numer) && self.denom.equals(&o.denom)
    }
}

impl vstd::std_specs::cmp::PartialEqSpecImpl for Rational {
    open spec fn obeys_eq_spec() -> bool {
        true
    }

    open spec fn eq_spec(&self, o: &Rational) -> bool {
        self@ == o@
    }
}

} // verus!

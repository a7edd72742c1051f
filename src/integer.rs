use num_bigint::BigInt;
use num_traits::{Signed, ToPrimitive, Zero};
use vstd::arithmetic::power::pow;
use vstd::prelude::*;

verus! {

/// The unsigned value of little-endian base-256 digits.
pub open spec fn unsigned_le(s: Seq<u8>) -> nat
    decreases s.len(),
{
    if s.len() == 0 {
        0
    } else {
        s[0] as nat + 256 * unsigned_le(s.drop_first())
    }
}

/// The value of little-endian two's-complement bytes (the empty sequence is zero).
pub open spec fn signed_le(s: Seq<u8>) -> int {
    if s.len() > 0 && s.last() >= 128 {
        unsigned_le(s) - pow(256, s.len())
    } else {
        unsigned_le(s) as int
    }
}

/// An arbitrary-precision integer, held as little-endian two's-complement bytes.
/// The arithmetic is `num_bigint`'s: each wrapper below reads the bytes with
/// `BigInt::from_signed_bytes_le` and writes its result with `to_signed_bytes_le`.
#[derive(Debug)]
pub struct Integer {
    pub(crate) bytes: Vec<u8>,
}

impl View for Integer {
    type V = int;

    closed spec fn view(&self) -> int {
        signed_le(self.bytes@)
    }
}

/// Relies on `BigInt::from(i64)` and `BigInt::to_signed_bytes_le`: the bytes of a machine integer.
#[verifier::external_body]
fn big_from_i64(v: i64) -> (r: Integer)
    ensures
        r@ == v as int,
{
    Integer { bytes: BigInt::from(v).to_signed_bytes_le() }
}

/// Relies on `BigInt + BigInt` (with `from_signed_bytes_le` / `to_signed_bytes_le`).
#[verifier::external_body]
fn big_add(a: &Integer, b: &Integer) -> (r: Integer)
    ensures
        r@ == a@ + b@,
{
    let s = BigInt::from_signed_bytes_le(&a.bytes) + BigInt::from_signed_bytes_le(&b.bytes);
    Integer { bytes: s.to_signed_bytes_le() }
}

/// Relies on `BigInt - BigInt` (with `from_signed_bytes_le` / `to_signed_bytes_le`).
#[verifier::external_body]
fn big_sub(a: &Integer, b: &Integer) -> (r: Integer)
    ensures
        r@ == a@ - b@,
{
    let s = BigInt::from_signed_bytes_le(&a.bytes) - BigInt::from_signed_bytes_le(&b.bytes);
    Integer { bytes: s.to_signed_bytes_le() }
}

/// Relies on `BigInt * BigInt` (with `from_signed_bytes_le` / `to_signed_bytes_le`).
#[verifier::external_body]
fn big_mul(a: &Integer, b: &Integer) -> (r: Integer)
    ensures
        r@ == a@ * b@,
{
    let s = BigInt::from_signed_bytes_le(&a.bytes) * BigInt::from_signed_bytes_le(&b.bytes);
    Integer { bytes: s.to_signed_bytes_le() }
}

/// Relies on `BigInt::pow`: `base` raised to `exp`.
#[verifier::external_body]
fn big_pow(base: &Integer, exp: u32) -> (r: Integer)
    ensures
        r@ == pow(base@, exp as nat),
{
    Integer { bytes: BigInt::from_signed_bytes_le(&base.bytes).pow(exp).to_signed_bytes_le() }
}

/// Relies on `Zero::is_zero` for `BigInt`.
#[verifier::external_body]
fn big_is_zero(a: &Integer) -> (r: bool)
    ensures
        r == (a@ == 0),
{
    BigInt::from_signed_bytes_le(&a.bytes).is_zero()
}

/// Relies on `Signed::is_negative` for `BigInt`.
#[verifier::external_body]
fn big_is_negative(a: &Integer) -> (r: bool)
    ensures
        r == (a@ < 0),
{
    BigInt::from_signed_bytes_le(&a.bytes).is_negative()
}

/// Relies on `ToPrimitive::to_i64` for `BigInt`: `Some` exactly when the value fits.
#[verifier::external_body]
fn big_to_i64(a: &Integer) -> (r: Option<i64>)
    ensures
        r matches Some(v) ==> v as int == a@,
        r is Some <==> i64::MIN <= a@ <= i64::MAX,
{
    BigInt::from_signed_bytes_le(&a.bytes).to_i64()
}

/// Relies on `ToPrimitive::to_i128` for `BigInt`: `Some` exactly when the value fits.
#[verifier::external_body]
fn big_to_i128(a: &Integer) -> (r: Option<i128>)
    ensures
        r matches Some(v) ==> v as int == a@,
        r is Some <==> i128::MIN <= a@ <= i128::MAX,
{
    BigInt::from_signed_bytes_le(&a.bytes).to_i128()
}

/// Relies on `BigInt / BigInt`, which rounds toward zero: the floor for these signs.
#[verifier::external_body]
fn big_div(a: &Integer, b: &Integer) -> (r: Integer)
    requires
        a@ >= 0,
        b@ > 0,
    ensures
        r@ == a@ / b@,
{
    let q = BigInt::from_signed_bytes_le(&a.bytes) / BigInt::from_signed_bytes_le(&b.bytes);
    Integer { bytes: q.to_signed_bytes_le() }
}

impl Integer {
    /// The integer whose two's-complement little-endian bytes are given.
    pub fn from_signed_bytes_le(bytes: Vec<u8>) -> (r: Integer)
        ensures
            r@ == signed_le(bytes@),
    {
        Integer { bytes }
    }

    /// The two's-complement little-endian bytes of this integer.
    pub fn to_signed_bytes_le(&self) -> (r: Vec<u8>)
        ensures
            signed_le(r@) == self@,
    {
        let r = self.bytes.clone();
        assert(r@ =~= self.bytes@);
        r
    }

    /// The integer equal to `v`.
    pub fn from_i64(v: i64) -> (r: Integer)
        ensures
            r@ == v as int,
    {
        big_from_i64(v)
    }

    /// A copy of this integer.
    pub fn copy(&self) -> (r: Integer)
        ensures
            r@ == self@,
    {
        Integer::from_signed_bytes_le(self.to_signed_bytes_le())
    }

    /// The sum.
    pub fn add(&self, o: &Integer) -> (r: Integer)
        ensures
            r@ == self@ + o@,
    {
        big_add(self, o)
    }

    /// The difference.
    pub fn sub(&self, o: &Integer) -> (r: Integer)
        ensures
            r@ == self@ - o@,
    {
        big_sub(self, o)
    }

    /// The product.
    pub fn mul(&self, o: &Integer) -> (r: Integer)
        ensures
            r@ == self@ * o@,
    {
        big_mul(self, o)
    }

    /// The quotient of two naturals, rounded down.
    pub fn div_floor(&self, o: &Integer) -> (r: Integer)
        requires
            self@ >= 0,
            o@ > 0,
        ensures
            r@ == self@ / o@,
    {
        big_div(self, o)
    }

    /// `self` raised to `exp`.
    pub fn pow(&self, exp: u32) -> (r: Integer)
        ensures
            r@ == pow(self@, exp as nat),
    {
        big_pow(self, exp)
    }

    /// Whether the value is zero.
    pub fn is_zero(&self) -> (r: bool)
        ensures
            r == (self@ == 0),
    {
        big_is_zero(self)
    }

    /// Whether the value is below zero.
    pub fn is_negative(&self) -> (r: bool)
        ensures
            r == (self@ < 0),
    {
        big_is_negative(self)
    }

    /// The value as an `i64`, or `None` where it does not fit.
    pub fn to_i64(&self) -> (r: Option<i64>)
        ensures
            r matches Some(v) ==> v as int == self@,
            r is Some <==> i64::MIN <= self@ <= i64::MAX,
    {
        big_to_i64(self)
    }

    /// The value as an `i128`, or `None` where it does not fit.
    pub fn to_i128(&self) -> (r: Option<i128>)
        ensures
            r matches Some(v) ==> v as int == self@,
            r is Some <==> i128::MIN <= self@ <= i128::MAX,
    {
        big_to_i128(self)
    }

    /// Whether the two integers are equal.
    pub fn equals(&self, o: &Integer) -> (r: bool)
        ensures
            r == (self@ == o@),
    {
        self.sub(o).is_zero()
    }
}

impl PartialEq for Integer {
    fn eq(&self, o: &Integer) -> (r: bool)
        ensures
            r == (self@ == o@),
    {
        self.equals(o)
    }
}

impl vstd::std_specs::cmp::PartialEqSpecImpl for Integer {
    open spec fn obeys_eq_spec() -> bool {
        true
    }

    open spec fn eq_spec(&self, o: &Integer) -> bool {
        self@ == o@
    }
}

} // verus!

//! Token amounts of arbitrary size.
//!
//! An [`Amount`] holds a non-negative integer as its big-endian bytes, a
//! [`SignedAmount`] a sign and such a magnitude. The arithmetic itself is done by
//! the MultiversX framework's `BigUint` and `BigInt`, run on its static API, so
//! that every sum, product and quotient is the one the contract's own numbers give.
use multiversx_sc::types::{BigInt, BigUint};
use multiversx_sc_scenario::api::StaticApi;
use vstd::arithmetic::power::pow;
use vstd::prelude::*;

verus! {

/// The value of a big-endian byte string.
pub open spec fn be_value(s: Seq<u8>) -> nat
    decreases s.len(),
{
    if s.len() == 0 {
        0
    } else {
        be_value(s.drop_last()) * 256 + s.last() as nat
    }
}

/// A non-negative integer of any size: an amount of tokens, a reward per token,
/// a tally.
#[derive(Debug)]
pub struct Amount {
    bytes: Vec<u8>,
}

impl View for Amount {
    type V = nat;

    closed spec fn view(&self) -> nat {
        be_value(self.bytes@)
    }
}

/// The value of a big-endian two's-complement byte string.
pub open spec fn signed_be_value(s: Seq<u8>) -> int {
    if s.len() > 0 && s[0] >= 128 {
        be_value(s) - pow(256, s.len())
    } else {
        be_value(s) as int
    }
}

/// An integer of any size and either sign, held as its big-endian two's
/// complement bytes.
#[derive(Debug)]
pub struct SignedAmount {
    bytes: Vec<u8>,
}

impl View for SignedAmount {
    type V = int;

    closed spec fn view(&self) -> int {
        signed_be_value(self.bytes@)
    }
}

impl Amount {
    /// Zero.
    pub fn zero() -> (r: Amount)
        ensures
            r@ == 0,
    {
        Amount { bytes: Vec::new() }
    }

    /// The amount `v`.
    pub fn from_u64(v: u64) -> (r: Amount)
        ensures
            r@ == v,
    {
        biguint_from_u128(v as u128)
    }

    /// The amount `v`.
    pub fn from_u128(v: u128) -> (r: Amount)
        ensures
            r@ == v,
    {
        biguint_from_u128(v)
    }

    /// The amount as a `u64`, where it is at most `i64::MAX`.
    pub fn to_u64(&self) -> (r: Option<u64>)
        ensures
            r is Some <==> self@ <= i64::MAX,
            r matches Some(v) ==> v == self@,
    {
        biguint_to_u64(self)
    }

    /// The amount with these big-endian bytes.
    pub fn from_bytes_be(bytes: Vec<u8>) -> (r: Amount)
        ensures
            r@ == be_value(bytes@),
    {
        Amount { bytes }
    }

    /// Big-endian bytes of the amount.
    pub fn to_bytes_be(&self) -> (r: Vec<u8>)
        ensures
            be_value(r@) == self@,
    {
        let r = self.bytes.clone();
        assert(r@ =~= self.bytes@);
        r
    }

    /// A copy of the amount.
    pub fn duplicate(&self) -> (r: Amount)
        ensures
            r@ == self@,
    {
        let bytes = self.bytes.clone();
        assert(bytes@ =~= self.bytes@);
        Amount { bytes }
    }

    /// `self + other`.
    pub fn plus(&self, other: &Amount) -> (r: Amount)
        ensures
            r@ == self@ + other@,
    {
        biguint_add(self, other)
    }

    /// `self - other`, for `other` at most `self`.
    pub fn minus(&self, other: &Amount) -> (r: Amount)
        requires
            other@ <= self@,
        ensures
            r@ == self@ - other@,
    {
        biguint_sub(self, other)
    }

    /// `self * other`.
    pub fn times(&self, other: &Amount) -> (r: Amount)
        ensures
            r@ == self@ * other@,
    {
        biguint_mul(self, other)
    }

    /// `self / other`, rounded down, for a non-zero `other`.
    pub fn div_floor(&self, other: &Amount) -> (r: Amount)
        requires
            other@ > 0,
        ensures
            r@ == self@ / other@,
    {
        biguint_div(self, other)
    }

    /// `self` to the power `exp`.
    pub fn pow(&self, exp: u32) -> (r: Amount)
        ensures
            r@ == pow(self@ as int, exp as nat),
    {
        biguint_pow(self, exp)
    }

    /// Whether `self < other`.
    pub fn less_than(&self, other: &Amount) -> (r: bool)
        ensures
            r == (self@ < other@),
    {
        biguint_lt(self, other)
    }

    /// Whether the amount is zero.
    pub fn is_zero(&self) -> (r: bool)
        ensures
            r == (self@ == 0),
    {
        !biguint_lt(&Amount::zero(), self)
    }

    /// Whether the two amounts are equal.
    pub fn equals(&self, other: &Amount) -> (r: bool)
        ensures
            r == (self@ == other@),
    {
        !biguint_lt(self, other) && !biguint_lt(other, self)
    }

    /// `10^exp`, the unit of a token with `exp` decimals.
    pub fn power_of_ten(exp: u32) -> (r: Amount)
        ensures
            r@ == pow(10, exp as nat),
            r@ > 0,
    {
        let r = biguint_pow(&biguint_from_u128(10), exp);
        proof {
            vstd::arithmetic::power::lemma_pow_positive(10, exp as nat);
        }
        r
    }
}

impl SignedAmount {
    /// Zero.
    pub fn zero() -> (r: SignedAmount)
        ensures
            r@ == 0,
    {
        SignedAmount { bytes: Vec::new() }
    }

    /// The signed number equal to `a`.
    pub fn from_amount(a: &Amount) -> (r: SignedAmount)
        ensures
            r@ == a@ as int,
    {
        bigint_from_biguint(a)
    }

    /// `self + other`.
    pub fn plus(&self, other: &SignedAmount) -> (r: SignedAmount)
        ensures
            r@ == self@ + other@,
    {
        bigint_add(self, other)
    }

    /// `self - other`.
    pub fn minus(&self, other: &SignedAmount) -> (r: SignedAmount)
        ensures
            r@ == self@ - other@,
    {
        bigint_sub(self, other)
    }

    /// The number as an [`Amount`], where it is not negative.
    pub fn to_amount(&self) -> (r: Option<Amount>)
        ensures
            r is Some <==> self@ >= 0,
            r matches Some(m) ==> m@ == self@,
    {
        bigint_into_biguint(self)
    }

    /// The number with these big-endian two's complement bytes.
    pub fn from_signed_bytes_be(bytes: Vec<u8>) -> (r: SignedAmount)
        ensures
            r@ == signed_be_value(bytes@),
    {
        SignedAmount { bytes }
    }

    /// Big-endian two's complement bytes of the number.
    pub fn to_signed_bytes_be(&self) -> (r: Vec<u8>)
        ensures
            signed_be_value(r@) == self@,
    {
        let r = self.bytes.clone();
        assert(r@ =~= self.bytes@);
        r
    }

    /// A copy of the number.
    pub fn duplicate(&self) -> (r: SignedAmount)
        ensures
            r@ == self@,
    {
        let bytes = self.bytes.clone();
        assert(bytes@ =~= self.bytes@);
        SignedAmount { bytes }
    }
}

/// `BigUint::add`: the sum of the two numbers.
#[verifier::external_body]
fn biguint_add(a: &Amount, b: &Amount) -> (r: Amount)
    ensures
        r@ == a@ + b@,
{
    let x = BigUint::<StaticApi>::from_bytes_be(&a.bytes);
    let y = BigUint::<StaticApi>::from_bytes_be(&b.bytes);
    Amount { bytes: (x + y).to_bytes_be().into_vec() }
}

/// `BigUint::sub`: the difference, where it is not negative (the framework
/// signals an error otherwise, which `requires` leaves out).
#[verifier::external_body]
fn biguint_sub(a: &Amount, b: &Amount) -> (r: Amount)
    requires
        b@ <= a@,
    ensures
        r@ == a@ - b@,
{
    let x = BigUint::<StaticApi>::from_bytes_be(&a.bytes);
    let y = BigUint::<StaticApi>::from_bytes_be(&b.bytes);
    Amount { bytes: (x - y).to_bytes_be().into_vec() }
}

/// `BigUint::mul`: the product of the two numbers.
#[verifier::external_body]
fn biguint_mul(a: &Amount, b: &Amount) -> (r: Amount)
    ensures
        r@ == a@ * b@,
{
    let x = BigUint::<StaticApi>::from_bytes_be(&a.bytes);
    let y = BigUint::<StaticApi>::from_bytes_be(&b.bytes);
    Amount { bytes: (x * y).to_bytes_be().into_vec() }
}

/// `BigUint::div`: the quotient rounded down, for a divisor that is not zero
/// (the virtual machine stops with "division by 0" otherwise).
#[verifier::external_body]
fn biguint_div(a: &Amount, b: &Amount) -> (r: Amount)
    requires
        b@ > 0,
    ensures
        r@ == a@ / b@,
{
    let x = BigUint::<StaticApi>::from_bytes_be(&a.bytes);
    let y = BigUint::<StaticApi>::from_bytes_be(&b.bytes);
    Amount { bytes: (x / y).to_bytes_be().into_vec() }
}

/// `BigUint::pow`: the number raised to the power `exp`.
#[verifier::external_body]
fn biguint_pow(a: &Amount, exp: u32) -> (r: Amount)
    ensures
        r@ == pow(a@ as int, exp as nat),
{
    let x = BigUint::<StaticApi>::from_bytes_be(&a.bytes);
    Amount { bytes: x.pow(exp).to_bytes_be().into_vec() }
}

/// `BigUint`'s `<`: whether the first number is the smaller.
#[verifier::external_body]
fn biguint_lt(a: &Amount, b: &Amount) -> (r: bool)
    ensures
        r == (a@ < b@),
{
    let x = BigUint::<StaticApi>::from_bytes_be(&a.bytes);
    let y = BigUint::<StaticApi>::from_bytes_be(&b.bytes);
    x < y
}

/// `BigUint::from(u128)`: the number `v`. (The framework's conversion from
/// `u64` goes through `i64` and refuses numbers above `i64::MAX`; the one from
/// `u128` reads the big-endian bytes and takes every value.)
#[verifier::external_body]
fn biguint_from_u128(v: u128) -> (r: Amount)
    ensures
        r@ == v,
{
    Amount { bytes: BigUint::<StaticApi>::from(v).to_bytes_be().into_vec() }
}

/// `BigUint::to_u64`: the number as a `u64`. The framework reads it through the
/// virtual machine's `i64` conversion, so it gives `None` exactly for numbers
/// above `i64::MAX`.
#[verifier::external_body]
fn biguint_to_u64(a: &Amount) -> (r: Option<u64>)
    ensures
        r is Some <==> a@ <= i64::MAX,
        r matches Some(v) ==> v == a@,
{
    BigUint::<StaticApi>::from_bytes_be(&a.bytes).to_u64()
}

/// `BigUint::into_big_int`: the signed number equal to `a`.
#[verifier::external_body]
fn bigint_from_biguint(a: &Amount) -> (r: SignedAmount)
    ensures
        r@ == a@ as int,
{
    let x = BigUint::<StaticApi>::from_bytes_be(&a.bytes).into_big_int();
    SignedAmount { bytes: x.to_signed_bytes_be().into_vec() }
}

/// `BigInt::add`: the sum of the two signed numbers.
#[verifier::external_body]
fn bigint_add(a: &SignedAmount, b: &SignedAmount) -> (r: SignedAmount)
    ensures
        r@ == a@ + b@,
{
    let x = BigInt::<StaticApi>::from_signed_bytes_be(&a.bytes);
    let y = BigInt::<StaticApi>::from_signed_bytes_be(&b.bytes);
    SignedAmount { bytes: (x + y).to_signed_bytes_be().into_vec() }
}

/// `BigInt::sub`: the difference of the two signed numbers.
#[verifier::external_body]
fn bigint_sub(a: &SignedAmount, b: &SignedAmount) -> (r: SignedAmount)
    ensures
        r@ == a@ - b@,
{
    let x = BigInt::<StaticApi>::from_signed_bytes_be(&a.bytes);
    let y = BigInt::<StaticApi>::from_signed_bytes_be(&b.bytes);
    SignedAmount { bytes: (x - y).to_signed_bytes_be().into_vec() }
}

/// `BigInt::into_big_uint`: the number itself where it is not negative, `None`
/// where it is.
#[verifier::external_body]
fn bigint_into_biguint(a: &SignedAmount) -> (r: Option<Amount>)
    ensures
        r is Some <==> a@ >= 0,
        r matches Some(m) ==> m@ == a@,
{
    let x = BigInt::<StaticApi>::from_signed_bytes_be(&a.bytes);
    match x.into_big_uint().into_option() {
        Some(m) => Some(Amount { bytes: m.to_bytes_be().into_vec() }),
        None => None,
    }
}

} // verus!

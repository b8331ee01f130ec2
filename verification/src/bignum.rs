//! Trusted boundary around `num_bigint`: the two arbitrary-precision integer
//! types are declared for the verifier, their mathematical values are named by
//! uninterpreted view functions, and each primitive operation the library uses
//! is wrapped in one small trusted function whose contract states what
//! `num_bigint`'s source shows for that operation. Everything built on these
//! primitives is verified.

use vstd::prelude::*;
use vstd::arithmetic::power2::pow2;

verus! {

#[verifier::external_type_specification]
#[verifier::external_body]
pub struct ExBigUint(num_bigint::BigUint);

#[verifier::external_type_specification]
#[verifier::external_body]
pub struct ExBigInt(num_bigint::BigInt);

/// The non-negative integer that a `BigUint` holds.
pub uninterp spec fn biguint_nat(u: num_bigint::BigUint) -> nat;

/// The signed integer that a `BigInt` holds.
pub uninterp spec fn bigint_int(i: num_bigint::BigInt) -> int;

/// Absolute value of a mathematical integer.
pub open spec fn int_abs(x: int) -> int {
    if x < 0 { -x } else { x }
}

/// Quotient of division truncated toward zero, the semantics of `BigInt`'s
/// `/` operator (and of Rust's `/` on primitive integers).
pub open spec fn tdiv(a: int, b: int) -> int {
    if (a < 0) <==> (b < 0) {
        int_abs(a) / int_abs(b)
    } else {
        -(int_abs(a) / int_abs(b))
    }
}

/// Remainder paired with `tdiv`: same sign as the dividend.
pub open spec fn tmod(a: int, b: int) -> int {
    a - b * tdiv(a, b)
}

/// The decimal digit character for a value below ten.
pub open spec fn dec_digit(d: nat) -> char {
    if d == 0 { '0' }
    else if d == 1 { '1' }
    else if d == 2 { '2' }
    else if d == 3 { '3' }
    else if d == 4 { '4' }
    else if d == 5 { '5' }
    else if d == 6 { '6' }
    else if d == 7 { '7' }
    else if d == 8 { '8' }
    else { '9' }
}

/// The canonical decimal rendering of a natural number: no sign, no leading
/// zeros, a single `'0'` for zero.
pub open spec fn dec_of(n: nat) -> Seq<char>
    decreases n,
{
    if n < 10 {
        seq![dec_digit(n)]
    } else {
        dec_of(n / 10).push(dec_digit(n % 10))
    }
}

/// The canonical decimal rendering of a signed integer: a `'-'` prefix on the
/// magnitude when negative.
pub open spec fn int_dec_of(i: int) -> Seq<char> {
    if i < 0 {
        seq!['-'].add(dec_of((-i) as nat))
    } else {
        dec_of(i as nat)
    }
}

/// A non-empty run of ASCII decimal digits.
pub open spec fn is_dec_seq(s: Seq<char>) -> bool {
    s.len() > 0 && forall|i: int| 0 <= i < s.len() ==> '0' <= #[trigger] s[i] <= '9'
}

/// A decimal digit run with an optional leading minus sign.
pub open spec fn is_signed_dec_seq(s: Seq<char>) -> bool {
    is_dec_seq(s) || (s.len() > 1 && s[0] == '-' && is_dec_seq(s.skip(1)))
}

/// The value of a run of decimal digits, most significant first.
pub open spec fn dec_val(s: Seq<char>) -> nat
    decreases s.len(),
{
    if s.len() == 0 {
        0
    } else {
        (dec_val(s.drop_last()) * 10 + (s.last() as int - '0' as int)) as nat
    }
}

/// The value of an optionally minus-signed run of decimal digits.
pub open spec fn signed_dec_val(s: Seq<char>) -> int {
    if s.len() > 0 && s[0] == '-' {
        -(dec_val(s.skip(1)) as int)
    } else {
        dec_val(s) as int
    }
}

/// Relies on `BigUint: From<u64>`: the value is the given integer.
#[verifier::external_body]
pub fn big_from_u64(x: u64) -> (r: num_bigint::BigUint)
    ensures
        biguint_nat(r) == x as nat,
{
    num_bigint::BigUint::from(x)
}

/// Relies on `BigUint: Clone`: the copy holds the same value.
pub assume_specification[ <num_bigint::BigUint as Clone>::clone ](a: &num_bigint::BigUint) -> (r:
    num_bigint::BigUint)
    ensures
        biguint_nat(r) == biguint_nat(*a),
;

/// Relies on `BigUint: Clone`: the copy holds the same value.
#[verifier::external_body]
pub fn big_clone(a: &num_bigint::BigUint) -> (r: num_bigint::BigUint)
    ensures
        biguint_nat(r) == biguint_nat(*a),
{
    a.clone()
}

/// Relies on `BigUint: PartialEq`, equality of the held values.
#[verifier::external_body]
pub fn big_eq(a: &num_bigint::BigUint, b: &num_bigint::BigUint) -> (r: bool)
    ensures
        r <==> biguint_nat(*a) == biguint_nat(*b),
{
    a == b
}

/// Relies on `BigUint: Ord`, the order of the held values.
#[verifier::external_body]
pub fn big_lt(a: &num_bigint::BigUint, b: &num_bigint::BigUint) -> (r: bool)
    ensures
        r <==> biguint_nat(*a) < biguint_nat(*b),
{
    a < b
}

/// Relies on `Add for &BigUint`: the sum of the held values.
#[verifier::external_body]
pub fn big_add(a: &num_bigint::BigUint, b: &num_bigint::BigUint) -> (r: num_bigint::BigUint)
    ensures
        biguint_nat(r) == biguint_nat(*a) + biguint_nat(*b),
{
    a + b
}

/// Relies on `Sub for &BigUint`, which panics on underflow: the difference.
#[verifier::external_body]
pub fn big_sub(a: &num_bigint::BigUint, b: &num_bigint::BigUint) -> (r: num_bigint::BigUint)
    requires
        biguint_nat(*b) <= biguint_nat(*a),
    ensures
        biguint_nat(r) == biguint_nat(*a) - biguint_nat(*b),
{
    a - b
}

/// Relies on `Mul for &BigUint`: the product of the held values.
#[verifier::external_body]
pub fn big_mul(a: &num_bigint::BigUint, b: &num_bigint::BigUint) -> (r: num_bigint::BigUint)
    ensures
        biguint_nat(r) == biguint_nat(*a) * biguint_nat(*b),
{
    a * b
}

/// Relies on `Div for &BigUint`, flooring division, which panics on a zero
/// divisor.
#[verifier::external_body]
pub fn big_div(a: &num_bigint::BigUint, b: &num_bigint::BigUint) -> (r: num_bigint::BigUint)
    requires
        biguint_nat(*b) > 0,
    ensures
        biguint_nat(r) == biguint_nat(*a) / biguint_nat(*b),
{
    a / b
}

/// Relies on `Rem for &BigUint`, the remainder of flooring division, which
/// panics on a zero divisor.
#[verifier::external_body]
pub fn big_rem(a: &num_bigint::BigUint, b: &num_bigint::BigUint) -> (r: num_bigint::BigUint)
    requires
        biguint_nat(*b) > 0,
    ensures
        biguint_nat(r) == biguint_nat(*a) % biguint_nat(*b),
{
    a % b
}

/// Relies on `Shl<u64> for &BigUint`: a left shift multiplies by a power of
/// two.
#[verifier::external_body]
pub fn big_shl(a: &num_bigint::BigUint, n: u64) -> (r: num_bigint::BigUint)
    ensures
        biguint_nat(r) == biguint_nat(*a) * pow2(n as nat),
{
    a << n
}

/// Relies on `Shr<u64> for &BigUint`: a right shift divides by a power of two,
/// flooring.
#[verifier::external_body]
pub fn big_shr(a: &num_bigint::BigUint, n: u64) -> (r: num_bigint::BigUint)
    ensures
        biguint_nat(r) == biguint_nat(*a) / pow2(n as nat),
{
    a >> n
}

/// Relies on `BigUint::bits`, the bit length: zero for zero, else the
/// exponent of the least power of two above the value.
#[verifier::external_body]
pub fn big_bits(a: &num_bigint::BigUint) -> (r: u64)
    ensures
        biguint_nat(*a) == 0 ==> r == 0,
        biguint_nat(*a) > 0 ==> r > 0 && pow2((r - 1) as nat) <= biguint_nat(*a) < pow2(r as nat),
{
    a.bits()
}

/// Relies on `BigUint::sqrt`, the truncated principal square root.
#[verifier::external_body]
pub fn big_sqrt(a: &num_bigint::BigUint) -> (r: num_bigint::BigUint)
    ensures
        biguint_nat(r) * biguint_nat(r) <= biguint_nat(*a),
        biguint_nat(*a) < (biguint_nat(r) + 1) * (biguint_nat(r) + 1),
{
    a.sqrt()
}

/// Relies on `ToPrimitive::to_u32` for `BigUint`: `Some` exactly when the
/// value fits, holding the value.
#[verifier::external_body]
pub fn big_to_u32(a: &num_bigint::BigUint) -> (r: Option<u32>)
    ensures
        match r {
            Some(v) => biguint_nat(*a) == v as nat,
            None => biguint_nat(*a) > u32::MAX as nat,
        },
{
    num_traits::ToPrimitive::to_u32(a)
}

/// Relies on `BigUint::parse_bytes` with radix ten, which accepts a non-empty
/// run of decimal digits and yields its value.
#[verifier::external_body]
pub fn big_from_dec(s: &str) -> (r: Option<num_bigint::BigUint>)
    ensures
        is_dec_seq(s@) ==> match r {
            Some(v) => biguint_nat(v) == dec_val(s@),
            None => false,
        },
{
    num_bigint::BigUint::parse_bytes(s.as_bytes(), 10)
}

/// Relies on `BigUint::to_str_radix` with radix ten: the canonical decimal
/// rendering, without sign or leading zeros.
#[verifier::external_body]
pub fn big_to_dec(a: &num_bigint::BigUint) -> (r: String)
    ensures
        r@ == dec_of(biguint_nat(*a)),
{
    a.to_str_radix(10)
}

/// Relies on `BigInt: From<BigUint>`: the same value, non-negative.
#[verifier::external_body]
pub fn int_from_big(a: &num_bigint::BigUint) -> (r: num_bigint::BigInt)
    ensures
        bigint_int(r) == biguint_nat(*a),
{
    num_bigint::BigInt::from(a.clone())
}

/// Relies on `BigInt::to_biguint`: `Some` exactly for non-negative values,
/// holding the magnitude.
#[verifier::external_body]
pub fn int_to_big(a: &num_bigint::BigInt) -> (r: Option<num_bigint::BigUint>)
    ensures
        match r {
            Some(v) => bigint_int(*a) >= 0 && biguint_nat(v) == bigint_int(*a),
            None => bigint_int(*a) < 0,
        },
{
    a.to_biguint()
}

/// Relies on `BigInt: From<u64>`: the value is the given integer.
#[verifier::external_body]
pub fn int_from_u64(x: u64) -> (r: num_bigint::BigInt)
    ensures
        bigint_int(r) == x as int,
{
    num_bigint::BigInt::from(x)
}

/// Relies on `BigInt: Clone`: the copy holds the same value.
#[verifier::external_body]
pub fn int_clone(a: &num_bigint::BigInt) -> (r: num_bigint::BigInt)
    ensures
        bigint_int(r) == bigint_int(*a),
{
    a.clone()
}

/// Relies on `BigInt: PartialEq`, equality of the held values.
#[verifier::external_body]
pub fn int_eq(a: &num_bigint::BigInt, b: &num_bigint::BigInt) -> (r: bool)
    ensures
        r <==> bigint_int(*a) == bigint_int(*b),
{
    a == b
}

/// Relies on `BigInt: Ord`, the order of the held values.
#[verifier::external_body]
pub fn int_lt(a: &num_bigint::BigInt, b: &num_bigint::BigInt) -> (r: bool)
    ensures
        r <==> bigint_int(*a) < bigint_int(*b),
{
    a < b
}

/// Relies on `Add for &BigInt`: the sum of the held values.
#[verifier::external_body]
pub fn int_add(a: &num_bigint::BigInt, b: &num_bigint::BigInt) -> (r: num_bigint::BigInt)
    ensures
        bigint_int(r) == bigint_int(*a) + bigint_int(*b),
{
    a + b
}

/// Relies on `Sub for &BigInt`: the difference of the held values.
#[verifier::external_body]
pub fn int_sub(a: &num_bigint::BigInt, b: &num_bigint::BigInt) -> (r: num_bigint::BigInt)
    ensures
        bigint_int(r) == bigint_int(*a) - bigint_int(*b),
{
    a - b
}

/// Relies on `Mul for &BigInt`: the product of the held values.
#[verifier::external_body]
pub fn int_mul(a: &num_bigint::BigInt, b: &num_bigint::BigInt) -> (r: num_bigint::BigInt)
    ensures
        bigint_int(r) == bigint_int(*a) * bigint_int(*b),
{
    a * b
}

/// Relies on `Div for &BigInt`, division truncated toward zero, which panics
/// on a zero divisor.
#[verifier::external_body]
pub fn int_div(a: &num_bigint::BigInt, b: &num_bigint::BigInt) -> (r: num_bigint::BigInt)
    requires
        bigint_int(*b) != 0,
    ensures
        bigint_int(r) == tdiv(bigint_int(*a), bigint_int(*b)),
{
    a / b
}

/// Relies on `Rem for &BigInt`, the remainder of truncated division (sign of
/// the dividend), which panics on a zero divisor.
#[verifier::external_body]
pub fn int_rem(a: &num_bigint::BigInt, b: &num_bigint::BigInt) -> (r: num_bigint::BigInt)
    requires
        bigint_int(*b) != 0,
    ensures
        bigint_int(r) == tmod(bigint_int(*a), bigint_int(*b)),
{
    a % b
}

/// Relies on `BigInt::parse_bytes` with radix ten, which accepts a non-empty
/// run of decimal digits with an optional leading minus sign.
#[verifier::external_body]
pub fn int_from_dec(s: &str) -> (r: Option<num_bigint::BigInt>)
    ensures
        is_signed_dec_seq(s@) ==> match r {
            Some(v) => bigint_int(v) == signed_dec_val(s@),
            None => false,
        },
{
    num_bigint::BigInt::parse_bytes(s.as_bytes(), 10)
}

/// Relies on `BigInt::to_str_radix` with radix ten: the canonical decimal
/// rendering, a minus sign before the magnitude of a negative value.
#[verifier::external_body]
pub fn int_to_dec(a: &num_bigint::BigInt) -> (r: String)
    ensures
        r@ == int_dec_of(bigint_int(*a)),
{
    a.to_str_radix(10)
}

} // verus!

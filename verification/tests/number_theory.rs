use cryptovis::number_theory::{
    egcd_big, gcd_big, is_probable_prime, lambda_of_pq, lcm_big, mod_inv_big, mod_pow_big,
    phi_of_pq,
};
use num_bigint::{BigInt, BigUint, ToBigInt};
use num_traits::One;

#[test]
fn test_mod_pow_small() {
    let b = BigUint::from(4u32);
    let e = BigUint::from(13u32);
    let m = BigUint::from(497u32);
    let r = mod_pow_big(&b, &e, &m);
    assert_eq!(r, BigUint::from(445u32));
}

#[test]
fn test_gcd_egcd() {
    let a = BigUint::from(240u32);
    let b = BigUint::from(46u32);
    let g = gcd_big(&a, &b);
    assert_eq!(g, BigUint::from(2u32));
    let (g2, x, y) = egcd_big(&a.to_bigint().unwrap(), &b.to_bigint().unwrap());
    assert_eq!(g2.to_biguint(), Some(g));
    let lhs = a.to_bigint().unwrap() * x + b.to_bigint().unwrap() * y;
    assert_eq!(lhs, g2);
}

#[test]
fn test_mod_inv() {
    let a = BigInt::from(3);
    let m = BigInt::from(11);
    let inv = mod_inv_big(&a, &m).unwrap();
    assert_eq!((a * inv) % m, BigInt::one());
}

#[test]
fn test_is_prime() {
    assert!(is_probable_prime(&BigUint::from(17u32)));
    assert!(!is_probable_prime(&BigUint::from(21u32)));
}

#[test]
fn test_phi_lambda_small() {
    let p = BigUint::from(61u32);
    let q = BigUint::from(53u32);
    let phi = phi_of_pq(&p, &q);
    let lam = lambda_of_pq(&p, &q);
    assert_eq!(phi, BigUint::from(3120u32));
    assert_eq!(lam, BigUint::from(780u32));
}

#[test]
fn test_is_prime_accepts_two_rejects_evens() {
    assert!(is_probable_prime(&BigUint::from(2u32)));
    assert!(!is_probable_prime(&BigUint::from(0u32)));
    assert!(!is_probable_prime(&BigUint::from(1u32)));
    assert!(!is_probable_prime(&BigUint::from(4u32)));
    assert!(!is_probable_prime(&BigUint::from(100u32)));
    assert!(is_probable_prime(&BigUint::from(3u32)));
    assert!(is_probable_prime(&BigUint::from(5u32)));
    assert!(is_probable_prime(&BigUint::from(104729u32)));
    assert!(!is_probable_prime(&BigUint::from(104730u32)));
}

#[test]
fn test_mod_pow_zero_modulus_and_zero_exponent() {
    let a = BigUint::from(7u32);
    let zero = BigUint::from(0u32);
    let m = BigUint::from(13u32);
    assert_eq!(mod_pow_big(&a, &m, &zero), BigUint::from(0u32));
    assert_eq!(mod_pow_big(&a, &zero, &m), BigUint::one());
    let one = BigUint::from(1u32);
    assert_eq!(mod_pow_big(&a, &m, &one), BigUint::from(0u32));
}

#[test]
fn test_gcd_divides_both() {
    let a = BigUint::from(84u32);
    let b = BigUint::from(126u32);
    let g = gcd_big(&a, &b);
    assert_eq!(g, BigUint::from(42u32));
    assert_eq!(&a % &g, BigUint::from(0u32));
    assert_eq!(&b % &g, BigUint::from(0u32));
}

#[test]
fn test_lcm_small_and_zero() {
    let a = BigUint::from(4u32);
    let b = BigUint::from(6u32);
    assert_eq!(lcm_big(&a, &b), BigUint::from(12u32));
    let zero = BigUint::from(0u32);
    assert_eq!(lcm_big(&zero, &b), zero);
}

#[test]
fn test_mod_inv_none_when_not_coprime() {
    let a = BigInt::from(4);
    let m = BigInt::from(8);
    assert!(mod_inv_big(&a, &m).is_none());
    let a2 = BigInt::from(3);
    let m2 = BigInt::from(11);
    assert_eq!(mod_inv_big(&a2, &m2), Some(BigInt::from(4)));
}

use cryptovis::number_theory::mod_pow_big;
use cryptovis::rsa::generate_rsa_keypair_internal;
use cryptovis::util::parse_biguint;
use cryptovis::{
    big_to_text, choose_e_d, d_from_e_pq, decrypt, egcd, encrypt, gcd, generate_prime, is_prime,
    lambda_of, lcm, map_modexp, mod_inv, mod_pow, n_from_pq, phi_of,
    pick_small_primes_in_range, pick_small_primes_in_range_internal, text_to_big,
};
use cryptovis::number_theory::phi_of_pq;
use num_bigint::BigUint;
use num_traits::One;

#[test]
fn test_pick_small_primes_in_range_internal() {
    let min = BigUint::from(30u32);
    let max = BigUint::from(60u32);
    let res = pick_small_primes_in_range_internal(&min, &max).expect("should find primes");
    let (p, q, n) = res;
    assert!(p > BigUint::one());
    assert!(q > BigUint::one());
    assert!(n >= min && n <= max);
}

#[test]
fn test_choose_e_d_properties() {
    // p=61, q=53 -> phi=3120
    let p = "61";
    let q = "53";
    let pair = choose_e_d(p, q, false, None);
    assert!(pair.is_some());
    let pair = pair.unwrap();
    let e_s = pair.e;
    let d_s = pair.d;
    assert_ne!(e_s, d_s);
    assert_eq!(e_s, "65537");
    assert_eq!(d_s, "2753");
    let e_b = parse_biguint(&e_s);
    let d_b = parse_biguint(&d_s);
    let phi = phi_of_pq(&parse_biguint(p), &parse_biguint(q));
    // Check (e*d) mod phi == 1
    let ed = (e_b * d_b) % phi;
    assert_eq!(ed, BigUint::one());
}

#[test]
fn test_rsa_roundtrip_small() {
    let kp = generate_rsa_keypair_internal(32, Some(42)).expect("keypair search should succeed");
    let n = kp.n.clone();
    let e = kp.e.clone();
    let d = kp.d.clone();
    let m = BigUint::from(42u32);
    let c = mod_pow_big(&m, &e, &n);
    let m2 = mod_pow_big(&c, &d, &n);
    assert_eq!(m, m2);
}

#[test]
fn test_string_api_mod_pow_gcd_lcm() {
    assert_eq!(mod_pow("4", "13", "497"), "445");
    assert_eq!(mod_pow("7", "5", "0"), "0");
    assert_eq!(mod_pow("7", "0", "13"), "1");
    assert_eq!(gcd("240", "46"), "2");
    assert_eq!(lcm("4", "6"), "12");
    assert_eq!(lcm("0", "6"), "0");
    assert_eq!(n_from_pq("61", "53"), "3233");
    assert_eq!(phi_of("61", "53"), "3120");
    assert_eq!(lambda_of("61", "53"), "780");
}

#[test]
fn test_string_api_is_prime() {
    assert!(is_prime("17"));
    assert!(!is_prime("21"));
    assert!(is_prime("2"));
    assert!(!is_prime("100"));
}

#[test]
fn test_string_api_egcd_and_mod_inv() {
    let r = egcd("240", "46");
    assert_eq!(r.g, "2");
    let x: i64 = r.x.parse().unwrap();
    let y: i64 = r.y.parse().unwrap();
    assert_eq!(240 * x + 46 * y, 2);
    assert_eq!(mod_inv("3", "11"), Some("4".to_string()));
    assert_eq!(mod_inv("4", "8"), None);
}

#[test]
fn test_string_api_encrypt_decrypt_roundtrip() {
    // n = 61 * 53 = 3233, e = 17, d = 2753
    let c = encrypt("42", "17", "3233");
    let m = decrypt(&c, "2753", "3233");
    assert_eq!(m, "42");
    assert_eq!(d_from_e_pq("17", "61", "53", false), Some("2753".to_string()));
    let d_lambda = d_from_e_pq("17", "61", "53", true).unwrap();
    let d_val: u64 = d_lambda.parse().unwrap();
    assert_eq!((17 * d_val) % 780, 1);
}

#[test]
fn test_generate_prime_has_requested_size() {
    let s = generate_prime(12).expect("prime search should succeed");
    let v: u64 = s.parse().unwrap();
    assert!(v >= 2048 && v < 4096);
    assert!(is_prime(&s));
}

#[test]
fn test_text_big_roundtrip() {
    assert_eq!(text_to_big("AB"), "16706");
    assert_eq!(big_to_text("16706"), Some("AB".to_string()));
    assert_eq!(big_to_text("0"), Some(String::new()));
    assert_eq!(text_to_big(""), "0");
}

#[test]
fn test_map_modexp_identity_exponent() {
    let out = map_modexp("1", "5", 5);
    assert_eq!(out, vec![0, 1, 2, 3, 4]);
}

#[test]
fn test_pick_small_primes_string_form() {
    let r = pick_small_primes_in_range("30", "60").expect("should find primes");
    let n: u32 = r.n.parse().unwrap();
    let p: u32 = r.p.parse().unwrap();
    let q: u32 = r.q.parse().unwrap();
    assert!((30..=60).contains(&n));
    assert_eq!(p * q, n);
    assert!(p < q);
    assert!(pick_small_primes_in_range("197", "198").is_none());
}

#[test]
fn test_error_paths_return_none() {
    // even exponent shares a factor with the even totient
    assert_eq!(d_from_e_pq("2", "61", "53", false), None);
    // a single byte above the ASCII range is not valid text
    assert_eq!(big_to_text("128"), None);
    // totient of 2 * 2 is too small to pick exponents from
    assert!(choose_e_d("2", "2", false, None).is_none());
}

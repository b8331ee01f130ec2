use cryptovis::diffie_hellman::{diffie_hellman_exchange_internal, generate_diffie_hellman_params};
use cryptovis::discrete_log::{baby_step_giant_step, brute_force_discrete_log};
use cryptovis::number_theory::{is_probable_prime, mod_pow_big};
use cryptovis::sha256::sha256_with_visualization;
use num_bigint::BigUint;
use num_traits::One;

#[test]
fn test_dh_exchange_shared_secrets_agree() {
    let p = BigUint::from(23u32);
    let g = BigUint::from(5u32);
    let a = BigUint::from(6u32);
    let b = BigUint::from(15u32);
    let ex = diffie_hellman_exchange_internal(&p, &g, &a, &b);
    assert_eq!(ex.alice_shared, ex.bob_shared);
    assert_eq!(ex.alice_public, "8");
    assert_eq!(ex.bob_public, "19");
    assert_eq!(ex.alice_shared, "2");
    assert_eq!(ex.steps.len(), 4);
    assert_eq!(ex.steps[0].step, "1");
    assert_eq!(ex.steps[3].step, "4");
}

#[test]
fn test_dh_generated_params_are_safe() {
    let (p, g) = generate_diffie_hellman_params(8).expect("parameter search should succeed");
    assert!(is_probable_prime(&p));
    let q = (&p - BigUint::one()) / BigUint::from(2u32);
    assert!(is_probable_prime(&q));
    assert!(g >= BigUint::from(2u32) && g <= &p - BigUint::from(2u32));
    assert!(mod_pow_big(&g, &q, &p) != BigUint::one());
}

#[test]
fn test_bsgs_finds_discrete_log() {
    let base = BigUint::from(2u32);
    let target = BigUint::from(9u32);
    let modulus = BigUint::from(11u32);
    let viz = baby_step_giant_step(&base, &target, &modulus, 20);
    assert_eq!(viz.solution, Some("6".to_string()));
    assert_eq!(viz.method_used, "Baby-step Giant-step");
    assert!(!viz.truncated);
    assert!(viz.warnings.is_empty());
    assert_eq!(viz.base, "2");
    assert_eq!(viz.target, "9");
    assert_eq!(viz.modulus, "11");
}

#[test]
fn test_brute_force_agrees_with_bsgs() {
    let base = BigUint::from(2u32);
    let target = BigUint::from(9u32);
    let modulus = BigUint::from(11u32);
    let brute = brute_force_discrete_log(&base, &target, &modulus, 20);
    let bsgs = baby_step_giant_step(&base, &target, &modulus, 20);
    assert_eq!(brute.solution, Some("6".to_string()));
    assert_eq!(brute.solution, bsgs.solution);
    assert!(!brute.truncated);
}

#[test]
fn test_brute_force_truncation() {
    let base = BigUint::from(2u32);
    let target = BigUint::from(9u32);
    let modulus = BigUint::from(11u32);
    let viz = brute_force_discrete_log(&base, &target, &modulus, 3);
    assert_eq!(viz.solution, None);
    assert!(viz.truncated);
    assert_eq!(viz.steps.len(), 3);
}

#[test]
fn test_bsgs_truncation_sets_flag_without_wrong_answer() {
    let base = BigUint::from(2u32);
    let target = BigUint::from(9u32);
    let modulus = BigUint::from(11u32);
    let viz = baby_step_giant_step(&base, &target, &modulus, 2);
    assert!(viz.truncated);
    if let Some(sol) = viz.solution {
        let x: u32 = sol.parse().unwrap();
        assert_eq!(2u32.pow(x) % 11, 9);
    }
    assert!(viz.warnings.iter().any(|w| w.contains("truncated")));
}

#[test]
fn test_bsgs_warns_on_reduction_and_composite_modulus() {
    let base = BigUint::from(14u32);
    let target = BigUint::from(2u32);
    let modulus = BigUint::from(12u32);
    let viz = baby_step_giant_step(&base, &target, &modulus, 10);
    assert!(viz.warnings.iter().any(|w| w.contains("Base reduced")));
    assert!(viz.warnings.iter().any(|w| w.contains("gcd(base, modulus)")));
    assert!(viz.warnings.iter().any(|w| w.contains("not prime")));
    assert_eq!(viz.base, "2");
}

#[test]
fn test_sha256_known_vectors() {
    let viz = sha256_with_visualization(b"abc");
    let expected: [u32; 8] = [
        0xba7816bf, 0x8f01cfea, 0x414140de, 0x5dae2223, 0xb00361a3, 0x96177a9c, 0xb410ff61,
        0xf20015ad,
    ];
    assert_eq!(viz.hash, expected);
    assert_eq!(viz.message, b"abc".to_vec());
    assert_eq!(viz.padded_message.len(), 64);
    assert_eq!(viz.steps.len(), 64);
    assert_eq!(viz.final_hash.len(), 256);
    assert!(viz.final_hash.starts_with("10111010011110000001011010111111"));

    let empty = sha256_with_visualization(b"");
    let expected_empty: [u32; 8] = [
        0xe3b0c442, 0x98fc1c14, 0x9afbf4c8, 0x996fb924, 0x27ae41e4, 0x649b934c, 0xa495991b,
        0x7852b855,
    ];
    assert_eq!(empty.hash, expected_empty);
}

#[test]
fn test_sha256_two_blocks() {
    // 56 bytes of message force a second padding block
    let msg = [0x61u8; 56];
    let viz = sha256_with_visualization(&msg);
    assert_eq!(viz.padded_message.len(), 128);
    assert_eq!(viz.steps.len(), 128);
    assert_eq!(viz.steps[64].step, 0);
}

#[test]
fn test_aes_encrypt_known_vector() {
    let key: [u8; 16] = [
        0x00, 0x01, 0x02, 0x03, 0x04, 0x05, 0x06, 0x07, 0x08, 0x09, 0x0a, 0x0b, 0x0c, 0x0d,
        0x0e, 0x0f,
    ];
    let plaintext: [u8; 16] = [
        0x00, 0x11, 0x22, 0x33, 0x44, 0x55, 0x66, 0x77, 0x88, 0x99, 0xaa, 0xbb, 0xcc, 0xdd,
        0xee, 0xff,
    ];
    let viz = cryptovis::aes::aes_encrypt_with_visualization(&plaintext, &key);
    let expected: [u8; 16] = [
        0x69, 0xc4, 0xe0, 0xd8, 0x6a, 0x7b, 0x04, 0x30, 0xd8, 0xcd, 0xb7, 0x80, 0x70, 0xb4,
        0xc5, 0x5a,
    ];
    assert_eq!(viz.ciphertext, expected);
    assert_eq!(viz.plaintext, plaintext);
    assert_eq!(viz.key, key);
    assert_eq!(viz.rounds.len(), 41);
    assert_eq!(viz.rounds[0].step, "Initial State");
    assert_eq!(viz.rounds[40].step, "AddRoundKey");
}

#[test]
fn test_bsgs_method_tags_for_failures() {
    // base shares a factor with the modulus and the giant stride collapses:
    // the inverse is missing
    let viz = baby_step_giant_step(
        &BigUint::from(2u32),
        &BigUint::from(3u32),
        &BigUint::from(8u32),
        10,
    );
    assert_eq!(viz.solution, None);
    assert_eq!(viz.method_used, "Baby-step Giant-step (failed - no inverse)");

    // coprime base, but the target is outside the subgroup: both phases
    // exhaust
    let viz2 = baby_step_giant_step(
        &BigUint::from(3u32),
        &BigUint::from(5u32),
        &BigUint::from(8u32),
        10,
    );
    assert_eq!(viz2.solution, None);
    assert_eq!(viz2.method_used, "Baby-step Giant-step (no solution found)");
}

#[test]
fn test_bsgs_trace_is_strictly_ordered() {
    let viz = baby_step_giant_step(
        &BigUint::from(2u32),
        &BigUint::from(9u32),
        &BigUint::from(11u32),
        20,
    );
    assert_eq!(viz.steps[0].step, 0);
    for w in viz.steps.windows(2) {
        assert!(w[0].step < w[1].step);
    }
}

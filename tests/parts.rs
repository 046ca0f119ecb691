use axelar_auth::bytes::{bytes_lt, is_zero, same_bytes, same_slice};
use axelar_auth::operator_set::{check_params, is_sorted_asc_and_contains_no_duplicate, to_u32, total_weight_reaches, weights_to_u32};
use axelar_auth::registry::Registry;
use axelar_auth::signatures::{recover, validate_signatures};
use k256::ecdsa::SigningKey;
use k256::elliptic_curve::sec1::ToEncodedPoint;
use sha3::Digest;
use axelar_auth::{AuthError, OperatorSetParams};

fn op(b: u8) -> [u8; 20] {
    let mut a = [0u8; 20];
    a[0] = b;
    a
}

#[test]
fn byte_comparisons() {
    let mut a = op(1);
    a[19] = 5;
    let mut b = op(1);
    b[19] = 6;
    assert!(bytes_lt(&a, &b));
    assert!(!bytes_lt(&b, &a));
    assert!(!bytes_lt(&a, &a));
    assert!(bytes_lt(&op(1), &op(2)));
    assert!(same_bytes(&a, &a));
    assert!(!same_bytes(&a, &b));
    assert!(is_zero(&[0u8; 20]));
    assert!(!is_zero(&a));
    assert!(same_slice(b"abc", b"abc"));
    assert!(!same_slice(b"abc", b"ab"));
    assert!(!same_slice(b"abc", b"abd"));
}

#[test]
fn sortedness_check() {
    assert!(is_sorted_asc_and_contains_no_duplicate(&vec![op(1), op(2), op(3)]));
    assert!(is_sorted_asc_and_contains_no_duplicate(&vec![op(1)]));
    assert!(!is_sorted_asc_and_contains_no_duplicate(&vec![op(1), op(3), op(2)]));
    assert!(!is_sorted_asc_and_contains_no_duplicate(&vec![op(1), op(1)]));
    assert!(!is_sorted_asc_and_contains_no_duplicate(&vec![[0u8; 20], op(1)]));
}

#[test]
fn weights_and_thresholds() {
    assert_eq!(to_u32(&[7, 0, 0, 0]), Some(7));
    assert_eq!(to_u32(&[u32::MAX as u64, 0, 0, 0]), Some(u32::MAX));
    assert_eq!(to_u32(&[0x1_0000_0007, 0, 0, 0]), None);
    assert_eq!(to_u32(&[5, 1, 0, 0]), None);
    assert_eq!(weights_to_u32(&vec![[1, 0, 0, 0], [2, 0, 0, 0]]), Some(vec![1, 2]));
    assert_eq!(weights_to_u32(&vec![[1, 0, 0, 0], [0, 0, 0, 1]]), None);
    assert!(total_weight_reaches(&vec![1, 2], 3));
    assert!(!total_weight_reaches(&vec![1, 2], 4));
    assert!(total_weight_reaches(&vec![], 0));
    assert!(total_weight_reaches(&vec![u32::MAX, u32::MAX], u32::MAX));
}

#[test]
fn check_params_order_of_errors() {
    let p = OperatorSetParams { operators: vec![op(2), op(1)], weights: vec![], threshold: [0; 4] };
    assert_eq!(check_params(&p), Err(AuthError::InvalidOperators));
    let p = OperatorSetParams { operators: vec![op(1), op(2)], weights: vec![], threshold: [0; 4] };
    assert_eq!(check_params(&p), Err(AuthError::InvalidWeights));
    let p = OperatorSetParams { operators: vec![op(1), op(2)], weights: vec![[1, 0, 0, 0], [0, 1, 0, 0]], threshold: [1, 0, 0, 0] };
    assert_eq!(check_params(&p), Err(AuthError::InvalidWeights));
    let p = OperatorSetParams { operators: vec![op(1), op(2)], weights: vec![[1, 0, 0, 0]; 2], threshold: [0; 4] };
    assert_eq!(check_params(&p), Err(AuthError::InvalidThreshold));
    let p = OperatorSetParams { operators: vec![op(1)], weights: vec![[10, 0, 0, 0]], threshold: [5, 1, 0, 0] };
    assert_eq!(check_params(&p), Err(AuthError::InvalidThreshold));
    let p = OperatorSetParams { operators: vec![op(1), op(2)], weights: vec![[1, 0, 0, 0]; 2], threshold: [2, 0, 0, 0] };
    assert_eq!(check_params(&p), Ok(()));
}

fn key_and_address(seed: u8) -> (SigningKey, [u8; 20]) {
    let key = SigningKey::from_slice(&[seed; 32]).unwrap();
    let point = key.verifying_key().to_encoded_point(false);
    let digest: [u8; 32] = sha3::Keccak256::digest(&point.as_bytes()[1..]).into();
    let mut a = [0u8; 20];
    a.copy_from_slice(&digest[12..]);
    (key, a)
}

fn sign(key: &SigningKey, digest: &[u8; 32], base: u8) -> Vec<u8> {
    let (sig, id) = key.sign_prehash_recoverable(digest).unwrap();
    let mut bytes = sig.to_bytes().to_vec();
    bytes.push(id.to_byte() + base);
    bytes
}

#[test]
fn recover_signer_address() {
    let (key, address) = key_and_address(9);
    let digest = [3u8; 32];
    assert_eq!(recover(&digest, &sign(&key, &digest, 27)), Some(address));
    assert_eq!(recover(&digest, &sign(&key, &digest, 0)), Some(address));
    assert_ne!(recover(&[4u8; 32], &sign(&key, &digest, 27)), Some(address));
    assert_eq!(recover(&digest, &vec![0u8; 64]), None);
    assert_eq!(recover(&digest, &vec![0u8; 65]), None);
}

#[test]
fn merge_pass_example() {
    let mut k: Vec<(SigningKey, [u8; 20])> = (1..=3).map(key_and_address).collect();
    k.sort_by(|x, y| x.1.cmp(&y.1));
    let ops: Vec<[u8; 20]> = k.iter().map(|x| x.1).collect();
    let d = [0x11u8; 32];
    let s: Vec<Vec<u8>> = k.iter().map(|x| sign(&x.0, &d, 27)).collect();
    let w = vec![1u32, 1, 1];
    assert_eq!(validate_signatures(&d, &ops, &w, 2, &vec![s[0].clone(), s[2].clone()]), Ok(()));
    assert_eq!(validate_signatures(&d, &ops, &w, 2, &vec![s[2].clone(), s[0].clone()]), Err(AuthError::UnmatchedSigner));
    assert_eq!(validate_signatures(&d, &ops, &w, 3, &vec![s[0].clone(), s[2].clone()]), Err(AuthError::InsufficientWeight));
    assert_eq!(validate_signatures(&d, &ops, &vec![u32::MAX, u32::MAX, 1], u32::MAX, &vec![s[1].clone()]), Ok(()));
}

#[test]
fn registry_commit_and_lookup() {
    let mut r = Registry::new();
    assert_eq!(r.current_epoch(), 0);
    assert_eq!(r.commit([1u8; 32]), Ok(1));
    assert_eq!(r.commit([2u8; 32]), Ok(2));
    assert_eq!(r.commit([1u8; 32]), Err(AuthError::DuplicateOperators));
    assert_eq!(r.current_epoch(), 2);
    assert_eq!(r.lookup_epoch(&[2u8; 32]), 2);
    assert_eq!(r.lookup_epoch(&[3u8; 32]), 0);
    assert_eq!(r.lookup_fingerprint(1), Some([1u8; 32]));
    assert_eq!(r.lookup_fingerprint(0), None);
}

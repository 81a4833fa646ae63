use hash_search::kernel::{digest_score, hash_kernel, message_of, prefix_of_round};
use hash_search::sha256::digest;

#[test]
fn prefix_is_input_round_and_dash() {
    assert_eq!(prefix_of_round(b"abc", 0), b"abc0-".to_vec());
    assert_eq!(prefix_of_round(b"abc", 9), b"abc9-".to_vec());
    assert_eq!(prefix_of_round(b"abc", 12), b"abc12-".to_vec());
    assert_eq!(prefix_of_round(b"", 4294967295), b"4294967295-".to_vec());
}

#[test]
fn message_is_prefix_and_nonce() {
    assert_eq!(message_of(b"abc0-", 0), b"abc0-0".to_vec());
    assert_eq!(message_of(b"abc0-", 262139), b"abc0-262139".to_vec());
    assert_eq!(message_of(b"", 5), b"5".to_vec());
}

#[test]
fn score_is_the_largest_byte_of_the_digest() {
    let mut bytes: [u8; 32] = [0; 32];
    assert_eq!(digest_score(&bytes), 0);
    bytes[31] = 3;
    assert_eq!(digest_score(&bytes), 3);
    bytes[0] = 200;
    bytes[17] = 201;
    assert_eq!(digest_score(&bytes), 201);
    bytes[5] = 255;
    assert_eq!(digest_score(&bytes), 255);
}

#[test]
fn score_of_known_digests() {
    assert_eq!(digest_score(&digest(b"")), 252);
    assert_eq!(digest_score(&digest(b"abc")), 255);
}

#[test]
fn kernel_scores_the_first_candidate() {
    assert_eq!(hash_kernel(b"abc0-", 0), 252);
    assert_eq!(hash_kernel(b"abc0-", 0), digest_score(&digest(b"abc0-0")));
}

#[test]
fn kernel_scores_of_the_first_round() {
    let expected: [u8; 8] = [252, 227, 250, 243, 252, 247, 237, 250];
    for nonce in 0..8u64 {
        assert_eq!(hash_kernel(b"abc0-", nonce), expected[nonce as usize]);
    }
}

#[test]
fn kernel_is_deterministic() {
    for nonce in 0..50u64 {
        assert_eq!(hash_kernel(b"abc3-", nonce), hash_kernel(b"abc3-", nonce));
    }
}

#[test]
fn kernel_hashes_prefix_and_decimal_nonce() {
    let prefix = prefix_of_round(b"hello", 7);
    for nonce in [0u64, 9, 10, 99, 1234567] {
        let text = format!("hello7-{}", nonce);
        assert_eq!(hash_kernel(&prefix, nonce), digest_score(&digest(text.as_bytes())));
    }
}

use hash_search::sha256::digest;

fn hex(bytes: &[u8]) -> String {
    let mut text = String::new();
    for byte in bytes {
        text.push_str(&format!("{:02x}", byte));
    }
    text
}

fn pattern(len: usize) -> Vec<u8> {
    let mut bytes: Vec<u8> = Vec::new();
    for i in 0..len {
        bytes.push(((i * 7 + 3) % 256) as u8);
    }
    bytes
}

#[test]
fn sha256_of_empty_message() {
    assert_eq!(
        hex(&digest(b"")),
        "e3b0c44298fc1c149afbf4c8996fb92427ae41e4649b934ca495991b7852b855"
    );
}

#[test]
fn sha256_of_abc() {
    assert_eq!(
        hex(&digest(b"abc")),
        "ba7816bf8f01cfea414140de5dae2223b00361a396177a9cb410ff61f20015ad"
    );
}

#[test]
fn sha256_of_abc_as_bytes() {
    let expected: [u8; 32] = [
        0xba, 0x78, 0x16, 0xbf, 0x8f, 0x01, 0xcf, 0xea, 0x41, 0x41, 0x40, 0xde, 0x5d, 0xae, 0x22,
        0x23, 0xb0, 0x03, 0x61, 0xa3, 0x96, 0x17, 0x7a, 0x9c, 0xb4, 0x10, 0xff, 0x61, 0xf2, 0x00,
        0x15, 0xad,
    ];
    assert_eq!(digest(b"abc"), expected);
}

#[test]
fn sha256_of_a_message_that_needs_a_second_block() {
    assert_eq!(
        hex(&digest(b"abcdbcdecdefdefgefghfghighijhijkijkljklmklmnlmnomnopnopq")),
        "248d6a61d20638b8e5c026930c3e6039a33ce45964ff2167f6ecedd419db06c1"
    );
}

#[test]
fn sha256_of_the_first_candidate() {
    assert_eq!(
        hex(&digest(b"abc0-0")),
        "f6a1dcedcb3bd6559e04cb5e88895c9f496d63de7f43eb0fe7fb2894fcddf03a"
    );
}

#[test]
fn sha256_where_the_padding_just_fits() {
    assert_eq!(
        hex(&digest(&pattern(55))),
        "e7313d333c272e639f790978283f9eb392e843d0f29b7016828bb1daa4aac70b"
    );
}

#[test]
fn sha256_where_the_length_moves_to_the_next_block() {
    assert_eq!(
        hex(&digest(&pattern(56))),
        "4324d65f3c103567f5589c710bc08f8523f929a9272e3af36fc968e52abc6c27"
    );
    assert_eq!(
        hex(&digest(&pattern(57))),
        "35df609437dcfea3279283ab79fd554e2bf78f8f7ae2de532d8ee300b09e8f73"
    );
    assert_eq!(
        hex(&digest(&pattern(63))),
        "81c80242132f230c3bd41b3e63bbcff16107339549214a99614ff26664625055"
    );
}

#[test]
fn sha256_of_whole_blocks() {
    assert_eq!(
        hex(&digest(&pattern(64))),
        "39e3d7b6b5d075d37d053ad89b24b41bef4f3c29760c84447cab3f3be1882241"
    );
    assert_eq!(
        hex(&digest(&pattern(128))),
        "d2742f1f4ac6bb7ca2b239ee18402ba8b3f9f8e652d2a72973c2b9ba11c08cf6"
    );
}

#[test]
fn sha256_of_longer_messages() {
    assert_eq!(
        hex(&digest(&pattern(65))),
        "aacca6ff74fdbb296d165a45cecfa04e5127bc008770fbbdd48006f2d2fae95e"
    );
    assert_eq!(
        hex(&digest(&pattern(119))),
        "9ce7368e4daf32341631b492e80359dc9f594b48453cd0dd5bf0b19279cc177e"
    );
    assert_eq!(
        hex(&digest(&pattern(120))),
        "7836b787757e95e58b3ca5aec90b1b004e8deba1e50e9675af9cabf1a13a04b5"
    );
    assert_eq!(
        hex(&digest(&pattern(1000))),
        "1e9bc38cbf860b9ec31918b065f9b52476c549a782e0e7990bed8ce3868d2371"
    );
}

#[test]
fn sha256_is_repeatable() {
    assert_eq!(digest(b"abc0-17"), digest(b"abc0-17"));
    assert_ne!(digest(b"abc0-17"), digest(b"abc0-18"));
}

use hash_search::buffers::{kernel_buffers, prefix_words};

#[test]
fn prefix_words_widen_each_byte() {
    assert_eq!(prefix_words(b"abc0-"), vec![97u32, 98, 99, 48, 45]);
    assert_eq!(prefix_words(b""), Vec::<u32>::new());
    assert_eq!(prefix_words(&[255, 0]), vec![255u32, 0]);
}

#[test]
fn kernel_buffers_hold_the_words_as_memory_bytes() {
    let buffers = kernel_buffers(b"abc0-").unwrap();
    let mut expected: Vec<u8> = Vec::new();
    for word in [97u32, 98, 99, 48, 45] {
        expected.extend_from_slice(&word.to_ne_bytes());
    }
    assert_eq!(buffers.prefix.len(), 20);
    assert_eq!(buffers.prefix, expected);
    assert_eq!(buffers.length, 5u32.to_ne_bytes().to_vec());
}

#[test]
fn kernel_buffers_of_an_empty_prefix() {
    let buffers = kernel_buffers(b"").unwrap();
    assert_eq!(buffers.prefix, Vec::<u8>::new());
    assert_eq!(buffers.length, 0u32.to_ne_bytes().to_vec());
}

#[test]
fn kernel_buffers_spell_each_word_back() {
    let prefix = b"hello12-";
    let buffers = kernel_buffers(prefix).unwrap();
    for (i, byte) in prefix.iter().enumerate() {
        let word = u32::from_ne_bytes([
            buffers.prefix[4 * i],
            buffers.prefix[4 * i + 1],
            buffers.prefix[4 * i + 2],
            buffers.prefix[4 * i + 3],
        ]);
        assert_eq!(word, *byte as u32);
    }
}

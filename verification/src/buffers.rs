//! The buffers that a round binds for the kernel on a device.
//!
//! The kernel reads the prefix as one 32-bit word for each byte, and the
//! length of the prefix as a single word. Both are handed to the device as
//! the bytes that the words occupy in memory.

use vstd::prelude::*;

verus! {

/// The bytes of the two read-only buffers of a round.
pub struct KernelBuffers {
    /// The prefix, one word for each byte.
    pub prefix: Vec<u8>,
    /// The number of bytes of the prefix, as one word.
    pub length: Vec<u8>,
}

/// Each byte widened to a word.
pub open spec fn widened(bytes: Seq<u8>) -> Seq<u32> {
    Seq::new(bytes.len(), |i: int| bytes[i] as u32)
}

/// The word that four bytes starting at `at` spell, least significant byte
/// first.
pub open spec fn little_endian_word(bytes: Seq<u8>, at: int) -> u32 {
    (bytes[at] as u32) | ((bytes[at + 1] as u32) << 8u32) | ((bytes[at + 2] as u32) << 16u32) | ((
    bytes[at + 3] as u32) << 24u32)
}

/// The word that four bytes starting at `at` spell, most significant byte
/// first.
pub open spec fn big_endian_word(bytes: Seq<u8>, at: int) -> u32 {
    ((bytes[at] as u32) << 24u32) | ((bytes[at + 1] as u32) << 16u32) | ((bytes[at + 2] as u32)
        << 8u32) | (bytes[at + 3] as u32)
}

/// Whether `bytes` is what `words` occupy in memory: four bytes for each
/// word, in the byte order of the machine, which is the same for all words.
pub open spec fn is_memory_image(bytes: Seq<u8>, words: Seq<u32>) -> bool {
    &&& bytes.len() == 4 * words.len()
    &&& {
        ||| forall|i: int| 0 <= i < words.len() ==> little_endian_word(bytes, 4 * i) == #[trigger] words[i]
        ||| forall|i: int| 0 <= i < words.len() ==> big_endian_word(bytes, 4 * i) == #[trigger] words[i]
    }
}

/// `bytemuck::cast_slice` from words to bytes: the same memory seen as
/// bytes. There are four bytes for each word, and they spell the word in the
/// machine's byte order. The cast from a wider to a narrower plain type never
/// fails.
#[verifier::external_body]
fn words_as_bytes(words: &[u32]) -> (bytes: &[u8])
    ensures
        is_memory_image(bytes@, words@),
{
    bytemuck::cast_slice(words)
}

/// Widens each byte of the prefix to a word.
pub fn prefix_words(prefix: &[u8]) -> (words: Vec<u32>)
    ensures
        words@ == widened(prefix@),
{
    let mut words: Vec<u32> = Vec::new();
    let mut i: usize = 0;
    while i < prefix.len()
        invariant
            i <= prefix.len(),
            words@ == widened(prefix@.take(i as int)),
        decreases prefix.len() - i,
    {
        words.push(prefix[i] as u32);
        i = i + 1;
        assert(words@ =~= widened(prefix@.take(i as int)));
    }
    assert(prefix@.take(prefix.len() as int) =~= prefix@);
    words
}

/// Prepares the read-only buffers of a round, unless the prefix is too long
/// for its length to fit in one word.
pub fn kernel_buffers(prefix: &[u8]) -> (buffers: Option<KernelBuffers>)
    ensures
        prefix@.len() > u32::MAX ==> buffers.is_none(),
        prefix@.len() <= u32::MAX ==> (buffers matches Some(b) && is_memory_image(
            b.prefix@,
            widened(prefix@),
        ) && is_memory_image(b.length@, seq![prefix@.len() as u32])),
{
    if prefix.len() > u32::MAX as usize {
        return None;
    }
    let words: Vec<u32> = prefix_words(prefix);
    let mut prefix_bytes: Vec<u8> = Vec::new();
    prefix_bytes.extend_from_slice(words_as_bytes(words.as_slice()));
    let mut size: Vec<u32> = Vec::new();
    size.push(prefix.len() as u32);
    assert(size@ =~= seq![prefix@.len() as u32]);
    let mut length_bytes: Vec<u8> = Vec::new();
    length_bytes.extend_from_slice(words_as_bytes(size.as_slice()));
    Some(KernelBuffers { prefix: prefix_bytes, length: length_bytes })
}

} // verus!

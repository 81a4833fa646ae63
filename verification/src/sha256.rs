//! SHA-256 over byte strings: the mathematical definition and an executable
//! implementation proved equal to it.

use vstd::prelude::*;

verus! {

/// The first 32 bits of the fractional parts of the cube roots of the first
/// 64 primes.
pub const K: [u32; 64] = [
    0x428a2f98, 0x71374491, 0xb5c0fbcf, 0xe9b5dba5, 0x3956c25b, 0x59f111f1, 0x923f82a4, 0xab1c5ed5,
    0xd807aa98, 0x12835b01, 0x243185be, 0x550c7dc3, 0x72be5d74, 0x80deb1fe, 0x9bdc06a7, 0xc19bf174,
    0xe49b69c1, 0xefbe4786, 0x0fc19dc6, 0x240ca1cc, 0x2de92c6f, 0x4a7484aa, 0x5cb0a9dc, 0x76f988da,
    0x983e5152, 0xa831c66d, 0xb00327c8, 0xbf597fc7, 0xc6e00bf3, 0xd5a79147, 0x06ca6351, 0x14292967,
    0x27b70a85, 0x2e1b2138, 0x4d2c6dfc, 0x53380d13, 0x650a7354, 0x766a0abb, 0x81c2c92e, 0x92722c85,
    0xa2bfe8a1, 0xa81a664b, 0xc24b8b70, 0xc76c51a3, 0xd192e819, 0xd6990624, 0xf40e3585, 0x106aa070,
    0x19a4c116, 0x1e376c08, 0x2748774c, 0x34b0bcb5, 0x391c0cb3, 0x4ed8aa4a, 0x5b9cca4f, 0x682e6ff3,
    0x748f82ee, 0x78a5636f, 0x84c87814, 0x8cc70208, 0x90befffa, 0xa4506ceb, 0xbef9a3f7, 0xc67178f2,
];

/// The first 32 bits of the fractional parts of the square roots of the first
/// 8 primes.
pub const H0: [u32; 8] = [
    0x6a09e667, 0xbb67ae85, 0x3c6ef372, 0xa54ff53a, 0x510e527f, 0x9b05688c, 0x1f83d9ab, 0x5be0cd19,
];

/// Addition modulo 2^32.
pub open spec fn add32(x: u32, y: u32) -> u32 {
    if x + y > u32::MAX {
        (x + y - 0x1_0000_0000) as u32
    } else {
        (x + y) as u32
    }
}

/// Rotation of a 32-bit word to the right by `n` bits, `0 < n < 32`.
pub open spec fn rotr(x: u32, n: u32) -> u32
    recommends
        0 < n < 32,
{
    (x >> n) | (x << ((32 - n) as u32))
}

/// Choice: each bit of `x` picks the bit of `y` or of `z`.
pub open spec fn ch(x: u32, y: u32, z: u32) -> u32 {
    (x & y) ^ (!x & z)
}

/// Majority: each bit is the one that at least two of `x`, `y`, `z` hold.
pub open spec fn maj(x: u32, y: u32, z: u32) -> u32 {
    (x & y) ^ (x & z) ^ (y & z)
}

/// The mixing function of register `a` in a round.
pub open spec fn big_sigma0(x: u32) -> u32 {
    rotr(x, 2) ^ rotr(x, 13) ^ rotr(x, 22)
}

/// The mixing function of register `e` in a round.
pub open spec fn big_sigma1(x: u32) -> u32 {
    rotr(x, 6) ^ rotr(x, 11) ^ rotr(x, 25)
}

/// The first mixing function of the message schedule.
pub open spec fn small_sigma0(x: u32) -> u32 {
    rotr(x, 7) ^ rotr(x, 18) ^ (x >> 3u32)
}

/// The second mixing function of the message schedule.
pub open spec fn small_sigma1(x: u32) -> u32 {
    rotr(x, 17) ^ rotr(x, 19) ^ (x >> 10u32)
}

/// Word `t` of the message schedule of a block of 16 words.
pub open spec fn schedule(block: Seq<u32>, t: int) -> u32
    decreases t,
{
    if t < 16 {
        block[t]
    } else {
        add32(
            add32(add32(small_sigma1(schedule(block, t - 2)), schedule(block, t - 7)), small_sigma0(schedule(block, t - 15))),
            schedule(block, t - 16),
        )
    }
}

/// The eight working registers of the compression function.
pub struct Registers {
    pub a: u32,
    pub b: u32,
    pub c: u32,
    pub d: u32,
    pub e: u32,
    pub f: u32,
    pub g: u32,
    pub h: u32,
}

/// One round of the compression function, with round constant `k` and
/// schedule word `w`.
pub open spec fn round(r: Registers, k: u32, w: u32) -> Registers {
    let t1 = add32(add32(add32(add32(r.h, big_sigma1(r.e)), ch(r.e, r.f, r.g)), k), w);
    let t2 = add32(big_sigma0(r.a), maj(r.a, r.b, r.c));
    Registers { a: add32(t1, t2), b: r.a, c: r.b, d: r.c, e: add32(r.d, t1), f: r.e, g: r.f, h: r.g }
}

/// The registers after the first `n` rounds on `block`, starting from `start`.
pub open spec fn rounds(start: Registers, block: Seq<u32>, n: nat) -> Registers
    decreases n,
{
    if n == 0 {
        start
    } else {
        round(rounds(start, block, (n - 1) as nat), K@[n - 1], schedule(block, n - 1))
    }
}

/// The registers that hold a hash value of eight words.
pub open spec fn registers_of(hash: Seq<u32>) -> Registers {
    Registers {
        a: hash[0],
        b: hash[1],
        c: hash[2],
        d: hash[3],
        e: hash[4],
        f: hash[5],
        g: hash[6],
        h: hash[7],
    }
}

/// The hash value after compressing one block of 16 words into `hash`.
pub open spec fn compress(hash: Seq<u32>, block: Seq<u32>) -> Seq<u32> {
    let r = rounds(registers_of(hash), block, 64);
    seq![
        add32(hash[0], r.a),
        add32(hash[1], r.b),
        add32(hash[2], r.c),
        add32(hash[3], r.d),
        add32(hash[4], r.e),
        add32(hash[5], r.f),
        add32(hash[6], r.g),
        add32(hash[7], r.h),
    ]
}

fn rotate_right(x: u32, n: u32) -> (r: u32)
    requires
        0 < n < 32,
    ensures
        r == rotr(x, n),
{
    (x >> n) | (x << (32 - n))
}

fn expand(block: &[u32; 16]) -> (w: [u32; 64])
    ensures
        forall|t: int| 0 <= t < 64 ==> w@[t] == schedule(block@, t),
{
    let mut w: [u32; 64] = [0u32; 64];
    let mut t: usize = 0;
    while t < 16
        invariant
            t <= 16,
            forall|j: int| 0 <= j < t ==> w@[j] == schedule(block@, j),
        decreases 16 - t,
    {
        w[t] = block[t];
        t = t + 1;
    }
    while t < 64
        invariant
            16 <= t <= 64,
            forall|j: int| 0 <= j < t ==> w@[j] == schedule(block@, j),
        decreases 64 - t,
    {
        let s0: u32 = rotate_right(w[t - 15], 7) ^ rotate_right(w[t - 15], 18) ^ (w[t - 15] >> 3u32);
        let s1: u32 = rotate_right(w[t - 2], 17) ^ rotate_right(w[t - 2], 19) ^ (w[t - 2] >> 10u32);
        w[t] = s1.wrapping_add(w[t - 7]).wrapping_add(s0).wrapping_add(w[t - 16]);
        t = t + 1;
    }
    w
}

fn compress_block(hash: &[u32; 8], block: &[u32; 16]) -> (next: [u32; 8])
    ensures
        next@ == compress(hash@, block@),
{
    let w: [u32; 64] = expand(block);
    let mut a: u32 = hash[0];
    let mut b: u32 = hash[1];
    let mut c: u32 = hash[2];
    let mut d: u32 = hash[3];
    let mut e: u32 = hash[4];
    let mut f: u32 = hash[5];
    let mut g: u32 = hash[6];
    let mut h: u32 = hash[7];
    let mut t: usize = 0;
    while t < 64
        invariant
            t <= 64,
            forall|j: int| 0 <= j < 64 ==> w@[j] == schedule(block@, j),
            (Registers { a, b, c, d, e, f, g, h }) == rounds(registers_of(hash@), block@, t as nat),
        decreases 64 - t,
    {
        let s1: u32 = rotate_right(e, 6) ^ rotate_right(e, 11) ^ rotate_right(e, 25);
        let t1: u32 = h.wrapping_add(s1).wrapping_add((e & f) ^ (!e & g)).wrapping_add(K[t]).wrapping_add(w[t]);
        let s0: u32 = rotate_right(a, 2) ^ rotate_right(a, 13) ^ rotate_right(a, 22);
        let t2: u32 = s0.wrapping_add((a & b) ^ (a & c) ^ (b & c));
        h = g;
        g = f;
        f = e;
        e = d.wrapping_add(t1);
        d = c;
        c = b;
        b = a;
        a = t1.wrapping_add(t2);
        t = t + 1;
    }
    let next: [u32; 8] = [
        hash[0].wrapping_add(a),
        hash[1].wrapping_add(b),
        hash[2].wrapping_add(c),
        hash[3].wrapping_add(d),
        hash[4].wrapping_add(e),
        hash[5].wrapping_add(f),
        hash[6].wrapping_add(g),
        hash[7].wrapping_add(h),
    ];
    assert(next@ =~= compress(hash@, block@));
    next
}

/// The low eight bits of `x`.
pub open spec fn low_byte(x: u64) -> u8 {
    (x & 0xff) as u8
}

/// The four bytes of a word, most significant first.
pub open spec fn word_bytes(w: u32) -> Seq<u8> {
    seq![
        low_byte((w >> 24u32) as u64),
        low_byte((w >> 16u32) as u64),
        low_byte((w >> 8u32) as u64),
        low_byte(w as u64),
    ]
}

/// The eight bytes of a 64-bit length, most significant first.
pub open spec fn length_bytes(n: u64) -> Seq<u8> {
    seq![
        low_byte(n >> 56u64),
        low_byte(n >> 48u64),
        low_byte(n >> 40u64),
        low_byte(n >> 32u64),
        low_byte(n >> 24u64),
        low_byte(n >> 16u64),
        low_byte(n >> 8u64),
        low_byte(n),
    ]
}

/// The word that four bytes of `data` starting at `at` spell, most
/// significant byte first.
pub open spec fn word_at(data: Seq<u8>, at: int) -> u32 {
    ((data[at] as u32) << 24u32) | ((data[at + 1] as u32) << 16u32) | ((data[at + 2] as u32)
        << 8u32) | (data[at + 3] as u32)
}

/// Block `index` of `data` as 16 words.
pub open spec fn block_at(data: Seq<u8>, index: int) -> Seq<u32> {
    Seq::new(16, |j: int| word_at(data, 64 * index + 4 * j))
}

/// The length of a message of `len` bytes in bits, modulo 2^64.
pub open spec fn bit_length(len: nat) -> u64 {
    ((len * 8) % 0x1_0000_0000_0000_0000) as u64
}

/// How many zero bytes the padding of a message of `len` bytes holds.
pub open spec fn zero_count(len: nat) -> nat {
    ((119 - len % 64) % 64) as nat
}

/// What is appended to a message of `len` bytes: the byte `0x80`, zero
/// bytes up to 8 short of a multiple of 64, and the bit length.
pub open spec fn padding(len: nat) -> Seq<u8> {
    seq![0x80u8] + Seq::new(zero_count(len), |i: int| 0u8) + length_bytes(bit_length(len))
}

/// The padded message: a whole number of 64-byte blocks.
pub open spec fn padded(message: Seq<u8>) -> Seq<u8> {
    message + padding(message.len())
}

/// The hash value after the first `n` blocks of `data`.
pub open spec fn hash_blocks(data: Seq<u8>, n: nat) -> Seq<u32>
    decreases n,
{
    if n == 0 {
        H0@
    } else {
        compress(hash_blocks(data, (n - 1) as nat), block_at(data, n - 1))
    }
}

/// The 32 bytes of a hash value of eight words.
pub open spec fn digest_bytes(hash: Seq<u32>) -> Seq<u8> {
    Seq::new(32, |i: int| word_bytes(hash[i / 4])[i % 4])
}

/// The SHA-256 digest of `message`.
pub open spec fn sha256(message: Seq<u8>) -> Seq<u8> {
    let data = padded(message);
    digest_bytes(hash_blocks(data, data.len() / 64))
}

/// A padded message fills whole blocks.
pub proof fn lemma_padded_len(message: Seq<u8>)
    ensures
        padded(message).len() == message.len() + 1 + zero_count(message.len()) + 8,
        padded(message).len() % 64 == 0,
{
}

fn byte_of(x: u64) -> (b: u8)
    ensures
        b == low_byte(x),
{
    assert(x & 0xff <= 0xff) by (bit_vector);
    (x & 0xff) as u8
}

fn pad(message: &[u8]) -> (data: Vec<u8>)
    ensures
        data@ == padded(message@),
{
    let len: usize = message.len();
    let mut data: Vec<u8> = Vec::new();
    data.extend_from_slice(message);
    data.push(0x80u8);
    let zeros: usize = (119 - len % 64) % 64;
    let mut i: usize = 0;
    while i < zeros
        invariant
            i <= zeros,
            data@ == message@ + seq![0x80u8] + Seq::new(i as nat, |j: int| 0u8),
        decreases zeros - i,
    {
        data.push(0u8);
        i = i + 1;
    }
    let bits: u64 = (len as u64).wrapping_mul(8);
    data.push(byte_of(bits >> 56u64));
    data.push(byte_of(bits >> 48u64));
    data.push(byte_of(bits >> 40u64));
    data.push(byte_of(bits >> 32u64));
    data.push(byte_of(bits >> 24u64));
    data.push(byte_of(bits >> 16u64));
    data.push(byte_of(bits >> 8u64));
    data.push(byte_of(bits));
    assert(data@ =~= padded(message@));
    data
}

fn load_block(data: &Vec<u8>, index: usize) -> (block: [u32; 16])
    requires
        64 * (index + 1) <= data.len(),
    ensures
        block@ == block_at(data@, index as int),
{
    let mut block: [u32; 16] = [0u32; 16];
    let mut j: usize = 0;
    while j < 16
        invariant
            j <= 16,
            64 * (index + 1) <= data.len(),
            forall|k: int| 0 <= k < j ==> block@[k] == word_at(data@, 64 * index + 4 * k),
        decreases 16 - j,
    {
        let at: usize = 64 * index + 4 * j;
        block[j] = ((data[at] as u32) << 24u32) | ((data[at + 1] as u32) << 16u32) | ((data[at + 2] as u32)
            << 8u32) | (data[at + 3] as u32);
        j = j + 1;
    }
    assert(block@ =~= block_at(data@, index as int));
    block
}

fn store_digest(hash: &[u32; 8]) -> (digest: [u8; 32])
    ensures
        digest@ == digest_bytes(hash@),
{
    let mut digest: [u8; 32] = [0u8; 32];
    let mut i: usize = 0;
    while i < 8
        invariant
            i <= 8,
            forall|k: int| 0 <= k < 4 * i ==> digest@[k] == word_bytes(hash@[k / 4])[k % 4],
        decreases 8 - i,
    {
        let w: u32 = hash[i];
        digest[4 * i] = byte_of((w >> 24u32) as u64);
        digest[4 * i + 1] = byte_of((w >> 16u32) as u64);
        digest[4 * i + 2] = byte_of((w >> 8u32) as u64);
        digest[4 * i + 3] = byte_of(w as u64);
        i = i + 1;
    }
    assert(digest@ =~= digest_bytes(hash@));
    digest
}

/// Computes the SHA-256 digest of `message`.
pub fn digest(message: &[u8]) -> (out: [u8; 32])
    ensures
        out@ == sha256(message@),
{
    let data: Vec<u8> = pad(message);
    proof {
        lemma_padded_len(message@);
    }
    let blocks: usize = data.len() / 64;
    let mut hash: [u32; 8] = H0;
    let mut n: usize = 0;
    while n < blocks
        invariant
            n <= blocks,
            blocks == data.len() / 64,
            data.len() % 64 == 0,
            hash@ == hash_blocks(data@, n as nat),
        decreases blocks - n,
    {
        let block: [u32; 16] = load_block(&data, n);
        hash = compress_block(&hash, &block);
        n = n + 1;
    }
    store_digest(&hash)
}

} // verus!

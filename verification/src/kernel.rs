//! The candidate strings of a search and the kernel that scores one of them.
//!
//! Every worker of a round shares the round's prefix, appends its own nonce
//! in decimal, hashes the result and keeps the largest byte of the digest.

use vstd::prelude::*;
use crate::decimal::{decimal, decimal_text, lemma_decimal_injective, lemma_decimal_shape};
use crate::sha256::{digest, sha256};

verus! {

/// The ASCII code of the dash that ends a round's prefix.
pub const DASH: u8 = 45;

/// The prefix that the workers of a round share: the input, the round in
/// decimal, and a dash.
pub open spec fn round_prefix(input: Seq<u8>, round: nat) -> Seq<u8> {
    input + decimal(round) + seq![DASH]
}

/// The message that the worker with the given nonce hashes.
pub open spec fn message(prefix: Seq<u8>, nonce: nat) -> Seq<u8> {
    prefix + decimal(nonce)
}

/// The candidate of round `round` and nonce `nonce`.
pub open spec fn candidate(input: Seq<u8>, round: nat, nonce: nat) -> Seq<u8> {
    message(round_prefix(input, round), nonce)
}

/// The largest byte of `bytes`, and zero for no bytes.
pub open spec fn max_byte(bytes: Seq<u8>) -> u8
    decreases bytes.len(),
{
    if bytes.len() == 0 {
        0
    } else if bytes.last() > max_byte(bytes.drop_last()) {
        bytes.last()
    } else {
        max_byte(bytes.drop_last())
    }
}

/// The score of hashing `prefix` followed by `nonce` in decimal: the largest
/// byte of the SHA-256 digest.
pub open spec fn kernel_score(prefix: Seq<u8>, nonce: nat) -> u8 {
    max_byte(sha256(message(prefix, nonce)))
}

/// The score of the candidate of round `round` and nonce `nonce`.
pub open spec fn score(input: Seq<u8>, round: nat, nonce: nat) -> u8 {
    kernel_score(round_prefix(input, round), nonce)
}

/// `max_byte` bounds every byte, and some byte attains it.
pub proof fn lemma_max_byte(bytes: Seq<u8>)
    ensures
        forall|i: int| 0 <= i < bytes.len() ==> #[trigger] bytes[i] <= max_byte(bytes),
        bytes.len() > 0 ==> exists|i: int| 0 <= i < bytes.len() && #[trigger] bytes[i] == max_byte(bytes),
    decreases bytes.len(),
{
    if bytes.len() > 0 {
        let front = bytes.drop_last();
        lemma_max_byte(front);
        assert forall|i: int| 0 <= i < bytes.len() implies #[trigger] bytes[i] <= max_byte(bytes) by {
            if i < front.len() {
                assert(front[i] == bytes[i]);
            }
        }
        if bytes.last() > max_byte(front) || front.len() == 0 {
            assert(bytes[bytes.len() - 1] == max_byte(bytes));
        } else {
            let i = choose|i: int| 0 <= i < front.len() && #[trigger] front[i] == max_byte(front);
            assert(bytes[i] == max_byte(bytes));
        }
    }
}

/// A candidate names its round and nonce: two candidates of one search are
/// the same byte string only if they have the same round and the same nonce.
pub proof fn lemma_candidates_are_distinct(input: Seq<u8>, i1: nat, n1: nat, i2: nat, n2: nat)
    requires
        candidate(input, i1, n1) == candidate(input, i2, n2),
    ensures
        i1 == i2,
        n1 == n2,
{
    let c1 = candidate(input, i1, n1);
    let c2 = candidate(input, i2, n2);
    let r1 = decimal(i1);
    let r2 = decimal(i2);
    let skip = input.len() as int;
    lemma_decimal_shape(i1);
    lemma_decimal_shape(i2);
    // The first dash after the input ends the round, since no digit is a dash.
    if r1.len() < r2.len() {
        assert(c1[skip + r1.len()] == DASH);
        assert(c2[skip + r1.len()] == r2[r1.len() as int]);
    }
    if r2.len() < r1.len() {
        assert(c2[skip + r2.len()] == DASH);
        assert(c1[skip + r2.len()] == r1[r2.len() as int]);
    }
    assert(r1 =~= c1.subrange(skip, skip + r1.len()));
    assert(r2 =~= c2.subrange(skip, skip + r2.len()));
    lemma_decimal_injective(i1, i2);
    let rest = skip + r1.len() + 1;
    assert(decimal(n1) =~= c1.subrange(rest, c1.len() as int));
    assert(decimal(n2) =~= c2.subrange(rest, c2.len() as int));
    lemma_decimal_injective(n1, n2);
}

/// Builds the prefix of a round.
pub fn prefix_of_round(input: &[u8], round: u32) -> (prefix: Vec<u8>)
    ensures
        prefix@ == round_prefix(input@, round as nat),
{
    let mut prefix: Vec<u8> = Vec::new();
    prefix.extend_from_slice(input);
    let mut digits: Vec<u8> = decimal_text(round as u64);
    prefix.append(&mut digits);
    prefix.push(DASH);
    assert(prefix@ =~= round_prefix(input@, round as nat));
    prefix
}

/// Builds the message that the worker with the given nonce hashes.
pub fn message_of(prefix: &[u8], nonce: u64) -> (text: Vec<u8>)
    ensures
        text@ == message(prefix@, nonce as nat),
{
    let mut text: Vec<u8> = Vec::new();
    text.extend_from_slice(prefix);
    let mut digits: Vec<u8> = decimal_text(nonce);
    text.append(&mut digits);
    assert(text@ =~= message(prefix@, nonce as nat));
    text
}

/// Reduces a digest to its score, the largest of its bytes.
pub fn digest_score(digest: &[u8; 32]) -> (best: u8)
    ensures
        best == max_byte(digest@),
{
    let mut best: u8 = 0;
    let mut i: usize = 0;
    while i < 32
        invariant
            i <= 32,
            best == max_byte(digest@.take(i as int)),
        decreases 32 - i,
    {
        assert(digest@.take(i + 1).drop_last() =~= digest@.take(i as int));
        if digest[i] > best {
            best = digest[i];
        }
        i = i + 1;
    }
    assert(digest@.take(32) =~= digest@);
    best
}

/// Runs the kernel of one worker: hashes the prefix followed by the nonce
/// in decimal and scores the digest.
///
/// The score is a function of the prefix and the nonce alone, so evaluating
/// the same worker again gives the same score.
pub fn hash_kernel(prefix: &[u8], nonce: u64) -> (result: u8)
    ensures
        result == kernel_score(prefix@, nonce as nat),
{
    let text: Vec<u8> = message_of(prefix, nonce);
    let hash: [u8; 32] = digest(text.as_slice());
    digest_score(&hash)
}

} // verus!

//! The reduction of a round's scores to the best candidate seen so far.

use vstd::prelude::*;
use crate::decimal::{decimal, decimal_text, reversed_decimal, reversed_decimal_text};
use crate::kernel::DASH;

verus! {

/// The best candidate of the rounds reduced so far.
#[derive(Clone, Copy, Debug, PartialEq, Eq, Structural)]
pub enum BestResult {
    /// No candidate has scored above zero.
    Nothing,
    /// The first candidate that reached the highest score.
    Found { round: u32, nonce: u64, score: u8 },
}

/// Whether `index` is where the largest score first occurs.
pub open spec fn is_first_max(scores: Seq<u8>, index: int) -> bool {
    &&& 0 <= index < scores.len()
    &&& forall|j: int| 0 <= j < scores.len() ==> #[trigger] scores[j] <= scores[index]
    &&& forall|j: int| 0 <= j < index ==> #[trigger] scores[j] < scores[index]
}

/// The index at which the largest score first occurs, and zero for no scores.
pub open spec fn first_max(scores: Seq<u8>) -> int
    decreases scores.len(),
{
    if scores.len() <= 1 {
        0
    } else {
        let before = first_max(scores.drop_last());
        if scores.last() > scores[before] {
            scores.len() - 1
        } else {
            before
        }
    }
}

/// `first_max` is where the largest score first occurs.
pub proof fn lemma_first_max(scores: Seq<u8>)
    requires
        scores.len() > 0,
    ensures
        is_first_max(scores, first_max(scores)),
    decreases scores.len(),
{
    if scores.len() > 1 {
        let front = scores.drop_last();
        lemma_first_max(front);
        let before = first_max(front);
        assert(front[before] == scores[before]);
        assert forall|j: int| 0 <= j < scores.len() implies #[trigger] scores[j] <= scores[first_max(
            scores,
        )] by {
            if j < front.len() {
                assert(front[j] == scores[j]);
            }
        }
        assert forall|j: int| 0 <= j < first_max(scores) implies #[trigger] scores[j] < scores[first_max(
            scores,
        )] by {
            assert(front[j] == scores[j]);
        }
    }
}

/// Only one index is where the largest score first occurs.
pub proof fn lemma_first_max_unique(scores: Seq<u8>, i: int, j: int)
    requires
        is_first_max(scores, i),
        is_first_max(scores, j),
    ensures
        i == j,
{
    if i < j {
        assert(scores[i] < scores[j]);
    } else if j < i {
        assert(scores[j] < scores[i]);
    }
}

/// The best result after reducing the scores of round `round` into `best`:
/// the round's first largest score replaces `best` only if it is strictly
/// larger.
pub open spec fn reduced(best: BestResult, round: nat, scores: Seq<u8>) -> BestResult {
    let index = first_max(scores);
    if scores[index] > best.score_of() {
        BestResult::Found { round: round as u32, nonce: index as u64, score: scores[index] }
    } else {
        best
    }
}

/// The text that names the candidate of a round and nonce: the round in
/// decimal, a dash, and the digits of the nonce in reverse order.
pub open spec fn identity_text(round: nat, nonce: nat) -> Seq<u8> {
    decimal(round) + seq![DASH] + reversed_decimal(nonce)
}

/// The characters that a sequence of ASCII bytes spells.
pub open spec fn ascii(bytes: Seq<u8>) -> Seq<char> {
    Seq::new(bytes.len(), |i: int| bytes[i] as char)
}

/// `String::push` of the standard library: the string afterwards is the
/// string before with the character appended at its end.
#[verifier::external_body]
fn push_char(text: &mut String, c: char)
    ensures
        final(text)@ == old(text)@.push(c),
{
    text.push(c);
}

impl BestResult {
    /// The recorded score, and zero while nothing was found.
    pub open spec fn score_of(self) -> u8 {
        match self {
            BestResult::Nothing => 0,
            BestResult::Found { score, .. } => score,
        }
    }

    /// The text that names the recorded candidate, empty while nothing was
    /// found.
    pub open spec fn text_of(self) -> Seq<u8> {
        match self {
            BestResult::Nothing => Seq::empty(),
            BestResult::Found { round, nonce, .. } => identity_text(round as nat, nonce as nat),
        }
    }

    /// The recorded score.
    pub fn score(&self) -> (s: u8)
        ensures
            s == self.score_of(),
    {
        match self {
            BestResult::Nothing => 0,
            BestResult::Found { score, .. } => *score,
        }
    }

    /// The result as it is reported: the text that names the recorded
    /// candidate, and its score.
    pub fn report(&self) -> (out: (String, u32))
        ensures
            out.0@ == ascii(self.text_of()),
            out.1 == self.score_of(),
    {
        (self.text(), self.score() as u32)
    }

    /// The bytes of the text that names the recorded candidate.
    pub fn text_bytes(&self) -> (bytes: Vec<u8>)
        ensures
            bytes@ == self.text_of(),
    {
        match self {
            BestResult::Nothing => Vec::new(),
            BestResult::Found { round, nonce, .. } => {
                let mut bytes: Vec<u8> = decimal_text(*round as u64);
                bytes.push(DASH);
                let mut digits: Vec<u8> = reversed_decimal_text(*nonce);
                bytes.append(&mut digits);
                assert(bytes@ =~= identity_text(*round as nat, *nonce as nat));
                bytes
            },
        }
    }

    /// The text that names the recorded candidate.
    pub fn text(&self) -> (text: String)
        ensures
            text@ == ascii(self.text_of()),
    {
        let bytes: Vec<u8> = self.text_bytes();
        let mut text: String = String::new();
        let mut i: usize = 0;
        while i < bytes.len()
            invariant
                i <= bytes.len(),
                text@ == ascii(bytes@.take(i as int)),
            decreases bytes.len() - i,
        {
            push_char(&mut text, bytes[i] as char);
            i = i + 1;
            assert(text@ =~= ascii(bytes@.take(i as int)));
        }
        assert(bytes@.take(bytes.len() as int) =~= bytes@);
        text
    }
}

/// Finds where the largest score first occurs.
pub fn index_of_max(scores: &[u8]) -> (index: usize)
    requires
        scores.len() > 0,
    ensures
        index == first_max(scores@),
        is_first_max(scores@, index as int),
{
    let mut index: usize = 0;
    let mut i: usize = 1;
    assert(scores@.take(1).len() == 1);
    while i < scores.len()
        invariant
            1 <= i <= scores.len(),
            index == first_max(scores@.take(i as int)),
            0 <= index < i,
        decreases scores.len() - i,
    {
        assert(scores@.take(i + 1).drop_last() =~= scores@.take(i as int));
        if scores[i] > scores[index] {
            index = i;
        }
        i = i + 1;
    }
    assert(scores@.take(scores.len() as int) =~= scores@);
    proof {
        lemma_first_max(scores@);
    }
    index
}

/// Reduces the scores of a round into the best result so far.
///
/// The recorded score never decreases, and it changes only when the round
/// holds a strictly larger score.
pub fn reduce(best: BestResult, round: u32, scores: &[u8]) -> (next: BestResult)
    requires
        scores.len() > 0,
    ensures
        next == reduced(best, round as nat, scores@),
        next.score_of() >= best.score_of(),
{
    let index: usize = index_of_max(scores);
    if scores[index] > best.score() {
        BestResult::Found { round, nonce: index as u64, score: scores[index] }
    } else {
        best
    }
}

} // verus!

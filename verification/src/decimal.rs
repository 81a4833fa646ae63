//! Decimal text of natural numbers, as ASCII bytes.

use vstd::prelude::*;

verus! {

/// The ASCII code of the decimal digit `d`.
pub open spec fn digit(d: nat) -> u8
    recommends
        d < 10,
{
    (48 + d) as u8
}

/// The decimal text of `n`: most significant digit first, no leading zero,
/// and the single digit `0` for zero.
pub open spec fn decimal(n: nat) -> Seq<u8>
    decreases n,
{
    if n < 10 {
        seq![digit(n)]
    } else {
        decimal(n / 10).push(digit(n % 10))
    }
}

/// The decimal text of `n` read backwards: least significant digit first.
pub open spec fn reversed_decimal(n: nat) -> Seq<u8> {
    decimal(n).reverse()
}

/// The number that a sequence of ASCII digits denotes.
pub open spec fn decimal_value(text: Seq<u8>) -> nat
    decreases text.len(),
{
    if text.len() == 0 {
        0
    } else {
        (10 * decimal_value(text.drop_last()) + (text.last() - 48)) as nat
    }
}

/// Whether every byte of `text` is an ASCII digit.
pub open spec fn all_digits(text: Seq<u8>) -> bool {
    forall|i: int| 0 <= i < text.len() ==> 48 <= #[trigger] text[i] <= 57
}

/// Decimal text is never empty and holds digits only.
pub proof fn lemma_decimal_shape(n: nat)
    ensures
        decimal(n).len() >= 1,
        all_digits(decimal(n)),
        n < 10 ==> decimal(n).len() == 1,
    decreases n,
{
    if n >= 10 {
        lemma_decimal_shape(n / 10);
    }
}

/// Reading decimal text gives the number back.
pub proof fn lemma_decimal_value(n: nat)
    ensures
        decimal_value(decimal(n)) == n,
    decreases n,
{
    if n < 10 {
        assert(decimal(n).drop_last() =~= Seq::<u8>::empty());
        assert(decimal_value(decimal(n).drop_last()) == 0);
    } else {
        lemma_decimal_value(n / 10);
        assert(decimal(n).drop_last() =~= decimal(n / 10));
    }
}

/// Distinct numbers have distinct decimal texts.
pub proof fn lemma_decimal_injective(a: nat, b: nat)
    requires
        decimal(a) == decimal(b),
    ensures
        a == b,
{
    lemma_decimal_value(a);
    lemma_decimal_value(b);
}

/// Reversed text starts with the last digit.
pub proof fn lemma_reversed_decimal_step(n: nat)
    requires
        n >= 10,
    ensures
        reversed_decimal(n) == seq![digit(n % 10)] + reversed_decimal(n / 10),
{
    assert(reversed_decimal(n) =~= seq![digit(n % 10)] + reversed_decimal(n / 10));
}

/// The digits of `n`, least significant first.
pub fn reversed_decimal_text(n: u64) -> (text: Vec<u8>)
    ensures
        text@ == reversed_decimal(n as nat),
{
    let mut text: Vec<u8> = Vec::new();
    let mut rest: u64 = n;
    while rest >= 10
        invariant
            text@ + reversed_decimal(rest as nat) == reversed_decimal(n as nat),
        decreases rest,
    {
        proof {
            lemma_reversed_decimal_step(rest as nat);
        }
        let low: u8 = (rest % 10) as u8;
        text.push(48 + low);
        rest = rest / 10;
    }
    assert(reversed_decimal(rest as nat) =~= seq![digit(rest as nat)]);
    text.push(48 + rest as u8);
    text
}

/// The decimal text of `n`.
pub fn decimal_text(n: u64) -> (text: Vec<u8>)
    ensures
        text@ == decimal(n as nat),
{
    let backwards: Vec<u8> = reversed_decimal_text(n);
    let mut text: Vec<u8> = Vec::new();
    let mut left: usize = backwards.len();
    while left > 0
        invariant
            left <= backwards.len(),
            text.len() == backwards.len() - left,
            forall|i: int| 0 <= i < text.len() ==> text[i] == backwards[backwards.len() - 1 - i],
        decreases left,
    {
        left = left - 1;
        text.push(backwards[left]);
    }
    assert(text@ =~= backwards@.reverse());
    assert(decimal(n as nat).reverse().reverse() =~= decimal(n as nat));
    text
}

} // verus!

//! Request targets built from arbitrary bytes: a `/` followed by one
//! lower-case letter for each of the first sixteen bytes.

use vstd::prelude::*;

verus! {

/// The lower-case letter that byte `b` stands for: `a` plus `b` modulo 26.
pub open spec fn letter_for(b: u8) -> u8 {
    (97 + b % 26) as u8
}

/// The target for `data`: `/` followed by the letters of its first sixteen
/// bytes.
pub open spec fn target_for(data: Seq<u8>) -> Seq<u8> {
    let n = if data.len() < 16 {
        data.len() as int
    } else {
        16
    };
    seq![47u8] + data.subrange(0, n).map_values(|b: u8| letter_for(b))
}

/// The lower-case letter for a byte.
pub fn token_byte(byte: u8) -> (r: u8)
    ensures
        r == letter_for(byte),
{
    97 + (byte % 26)
}

/// A request target made from the first sixteen bytes of `data`.
pub fn target_from_bytes(data: &[u8]) -> (r: Vec<u8>)
    ensures
        r@ == target_for(data@),
{
    let n: usize = if data.len() < 16 {
        data.len()
    } else {
        16
    };
    let mut target: Vec<u8> = Vec::with_capacity(n + 1);
    target.push(47u8);
    let mut i: usize = 0;
    while i < n
        invariant
            n <= data@.len(),
            n <= 16,
            i <= n,
            target@ =~= seq![47u8] + data@.subrange(0, i as int).map_values(|b: u8| letter_for(b)),
        decreases n - i,
    {
        target.push(token_byte(data[i]));
        i = i + 1;
        assert(target@ =~= seq![47u8] + data@.subrange(0, i as int).map_values(
            |b: u8| letter_for(b),
        ));
    }
    target
}

} // verus!

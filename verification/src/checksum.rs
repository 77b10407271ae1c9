//! The 16-bit sum with end-around carry over the big-endian words of a
//! sequence of bytes.

use vstd::prelude::*;

verus! {

/// The sum of two 16-bit numbers, a carry out of the top added back in at
/// the bottom.
pub open spec fn end_around_sum(sum: u16, val: u16) -> u16 {
    let t = sum as int + val as int;
    if t > 0xffff {
        (t - 0xffff) as u16
    } else {
        t as u16
    }
}

/// Word `i` of the bytes, the first byte of a word being the high one; a
/// last word of one byte is filled with zero.
pub open spec fn word(bytes: Seq<u8>, i: int) -> u16 {
    let hi = bytes[2 * i] as int;
    let lo = if 2 * i + 1 < bytes.len() {
        bytes[2 * i + 1] as int
    } else {
        0
    };
    (hi * 256 + lo) as u16
}

/// The sum with end-around carry of the first `n` words.
pub open spec fn sum_of_words(bytes: Seq<u8>, n: nat) -> u16
    decreases n,
{
    if n == 0 {
        0
    } else {
        end_around_sum(sum_of_words(bytes, (n - 1) as nat), word(bytes, n - 1))
    }
}

/// The checksum of bytes: the sum with end-around carry of all their words.
pub open spec fn checksum_of(bytes: Seq<u8>) -> u16 {
    sum_of_words(bytes, ((bytes.len() + 1) / 2) as nat)
}

/// Add one word, given by its two bytes, to a running sum.
pub fn fold_word(sum: u16, hi: u8, lo: u8) -> (out: u16)
    ensures
        out == end_around_sum(sum, (hi as int * 256 + lo as int) as u16),
{
    let val: u32 = hi as u32 * 256 + lo as u32;
    let t: u32 = sum as u32 + val;
    if t > 0xffff {
        (t - 0xffff) as u16
    } else {
        t as u16
    }
}

/// The checksum of bytes.
pub fn checksum(bytes: &Vec<u8>) -> (sum: u16)
    ensures
        sum == checksum_of(bytes@),
{
    let n: usize = bytes.len();
    let pairs: usize = n / 2;
    let mut sum: u16 = 0;
    let mut w: usize = 0;
    while w < pairs
        invariant
            w <= pairs,
            pairs == n / 2,
            n == bytes@.len(),
            sum == sum_of_words(bytes@, w as nat),
        decreases pairs - w,
    {
        sum = fold_word(sum, bytes[2 * w], bytes[2 * w + 1]);
        w += 1;
    }
    if n % 2 == 1 {
        sum = fold_word(sum, bytes[n - 1], 0);
    }
    sum
}

} // verus!

//! The 16-bit one's-complement Internet checksum used by ICMP.
//!
//! The packet is summed as big-endian 16-bit words (a trailing odd byte is
//! zero-padded), carries above bit 15 are folded back into the low 16 bits
//! until none remain, and the result is complemented.

use vstd::prelude::*;

verus! {

/// The big-endian 16-bit word starting at byte index `i`; a trailing odd
/// byte is padded with a zero low byte.
pub open spec fn word_at(data: Seq<u8>, i: int) -> int
    recommends
        0 <= i < data.len(),
{
    if i + 1 < data.len() {
        data[i] * 0x100 + data[i + 1]
    } else {
        data[i] * 0x100
    }
}

/// Sum of the big-endian 16-bit words of `data`, starting at byte index `i`
/// and stepping by two bytes.
pub open spec fn sum_words_from(data: Seq<u8>, i: int) -> int
    decreases data.len() + 2 - i,
{
    if i < 0 || i >= data.len() {
        0
    } else {
        word_at(data, i) + sum_words_from(data, i + 2)
    }
}

/// Sum of all big-endian 16-bit words of `data`.
pub open spec fn sum_words(data: Seq<u8>) -> int {
    sum_words_from(data, 0)
}

/// End-around carry folding: while the value exceeds 16 bits, add the high
/// part back onto the low 16 bits.
pub open spec fn fold_carries(x: int) -> int
    recommends
        x >= 0,
    decreases x,
{
    if x > 0xffff {
        fold_carries(x % 0x10000 + x / 0x10000)
    } else {
        x
    }
}

/// The checksum of a packet: the one's complement of the folded word sum.
pub open spec fn checksum_of(data: Seq<u8>) -> u16 {
    (0xffff - fold_carries(sum_words(data))) as u16
}

/// The word sum is non-negative and bounded by `0xffff` per byte pair.
pub proof fn lemma_sum_words_from_bounds(data: Seq<u8>, i: int)
    ensures
        0 <= sum_words_from(data, i),
        0 <= i <= data.len() ==> sum_words_from(data, i) <= 0xffff * (data.len() - i),
    decreases data.len() + 2 - i,
{
    if i < 0 || i >= data.len() {
    } else {
        lemma_sum_words_from_bounds(data, i + 2);
        if i + 2 > data.len() {
            assert(sum_words_from(data, i + 2) == 0);
        }
    }
}

/// Folding a non-negative value lands in the 16-bit range.
pub proof fn lemma_fold_carries_range(x: int)
    requires
        x >= 0,
    ensures
        0 <= fold_carries(x) <= 0xffff,
    decreases x,
{
    if x > 0xffff {
        lemma_fold_carries_range(x % 0x10000 + x / 0x10000);
    }
}

/// Folding preserves the value modulo 0xffff (end-around carry is addition
/// modulo 2^16 - 1).
pub proof fn lemma_fold_carries_mod(x: int)
    requires
        x >= 0,
    ensures
        fold_carries(x) % 0xffff == x % 0xffff,
    decreases x,
{
    if x > 0xffff {
        let q = x / 0x10000;
        let r = x % 0x10000;
        vstd::arithmetic::div_mod::lemma_fundamental_div_mod(x, 0x10000);
        assert(x == 0xffff * q + (q + r));
        vstd::arithmetic::div_mod::lemma_mod_multiples_vanish(q, q + r, 0xffff);
        lemma_fold_carries_mod(r + q);
    }
}

/// Folding a positive value stays positive.
pub proof fn lemma_fold_carries_pos(x: int)
    requires
        x > 0,
    ensures
        fold_carries(x) > 0,
    decreases x,
{
    if x > 0xffff {
        lemma_fold_carries_pos(x % 0x10000 + x / 0x10000);
    }
}

/// Word sums agree from `i` on when the sequences agree from `i` on.
proof fn lemma_sum_words_from_agree(a: Seq<u8>, b: Seq<u8>, i: int)
    requires
        a.len() == b.len(),
        forall|j: int| i <= j < a.len() ==> a[j] == b[j],
    ensures
        sum_words_from(a, i) == sum_words_from(b, i),
    decreases a.len() + 2 - i,
{
    if 0 <= i < a.len() {
        lemma_sum_words_from_agree(a, b, i + 2);
    }
}

/// The standard self-verification property: compute the checksum of a packet
/// whose checksum field (bytes 2 and 3) is zero, write it into that field in
/// big-endian order, and the checksum of the completed packet is zero.
pub proof fn lemma_checksum_self_verifies(data: Seq<u8>)
    requires
        data.len() >= 4,
        data[2] == 0,
        data[3] == 0,
    ensures
        ({
            let c = checksum_of(data);
            checksum_of(data.update(2, (c / 0x100) as u8).update(3, (c % 0x100) as u8)) == 0
        }),
{
    let s0 = sum_words(data);
    lemma_sum_words_from_bounds(data, 0);
    lemma_fold_carries_range(s0);
    let f = fold_carries(s0);
    let c = checksum_of(data);
    assert(c == 0xffff - f);
    let hi = (c / 0x100) as u8;
    let lo = (c % 0x100) as u8;
    let patched = data.update(2, hi).update(3, lo);
    lemma_sum_words_from_agree(patched, data, 4);
    assert(sum_words_from(data, 0) == word_at(data, 0) + sum_words_from(data, 2));
    assert(sum_words_from(data, 2) == word_at(data, 2) + sum_words_from(data, 4));
    assert(sum_words_from(patched, 0) == word_at(patched, 0) + sum_words_from(patched, 2));
    assert(sum_words_from(patched, 2) == word_at(patched, 2) + sum_words_from(patched, 4));
    assert(word_at(patched, 0) == word_at(data, 0));
    assert(word_at(data, 2) == 0);
    assert(word_at(patched, 2) == c) by {
        assert(hi == c / 0x100 && lo == c % 0x100);
        vstd::arithmetic::div_mod::lemma_fundamental_div_mod(c as int, 0x100);
    }
    let s1 = sum_words(patched);
    assert(s1 == s0 + c);
    let m = 0xffff as int;
    if c == 0 {
        assert(fold_carries(s1) == 0xffff);
    } else {
        lemma_fold_carries_mod(s1);
        lemma_fold_carries_mod(s0);
        vstd::arithmetic::div_mod::lemma_add_mod_noop(s0, c as int, m);
        vstd::arithmetic::div_mod::lemma_small_mod(f as nat, 0xffff);
        if c == 0xffff {
            vstd::arithmetic::div_mod::lemma_mod_self_0(m);
            vstd::arithmetic::div_mod::lemma_small_mod(0, 0xffff);
        } else {
            vstd::arithmetic::div_mod::lemma_small_mod(c as nat, 0xffff);
            vstd::arithmetic::div_mod::lemma_mod_self_0(m);
        }
        assert(s1 % m == 0);
        lemma_fold_carries_range(s1);
        lemma_fold_carries_pos(s1);
        if fold_carries(s1) < 0xffff {
            vstd::arithmetic::div_mod::lemma_small_mod(fold_carries(s1) as nat, 0xffff);
            assert(false);
        }
    }
    assert(fold_carries(s1) == 0xffff);
}

pub fn icmp_checksum(data: &[u8]) -> (r: u16)
    requires
        data@.len() < 0xffff_ffff,
    ensures
        r == checksum_of(data@),
{
    let len: usize = data.len();
    let mut sum: u64 = 0;
    let mut i: usize = 0;
    while i < len
        invariant
            len == data@.len(),
            len < 0xffff_ffff,
            i <= len + 1,
            sum <= 0xffff * i,
            sum_words(data@) == sum + sum_words_from(data@, i as int),
        decreases len + 1 - i,
    {
        let word: u64 = if i + 1 < len {
            (data[i] as u64) * 0x100 + (data[i + 1] as u64)
        } else {
            (data[i] as u64) * 0x100
        };
        proof {
            lemma_sum_words_from_bounds(data@, i as int);
        }
        sum = sum + word;
        i = i + 2;
    }
    proof {
        lemma_sum_words_from_bounds(data@, 0);
        lemma_fold_carries_range(sum_words(data@));
    }
    while sum > 0xffff
        invariant
            fold_carries(sum_words(data@)) == fold_carries(sum as int),
        decreases sum,
    {
        sum = sum % 0x10000 + sum / 0x10000;
    }
    0xffff - (sum as u16)
}

} // verus!

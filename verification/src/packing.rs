use vstd::prelude::*;
use vstd::arithmetic::power2::{
    lemma2_to64, lemma_pow2_pos, lemma_pow2_strictly_increases, lemma_pow2_unfold, pow2,
};
use vstd::bits::{lemma_u64_shl_is_mul, lemma_u64_shr_is_div};

verus! {

/// The weight a bit contributes to a little-endian sum.
pub open spec fn bit_weight(bit: bool, position: nat) -> nat {
    if bit {
        pow2(position)
    } else {
        0
    }
}

/// The number whose little-endian binary digits are `bits`.
pub open spec fn le_value(bits: Seq<bool>) -> nat
    decreases bits.len(),
{
    if bits.len() == 0 {
        0
    } else {
        le_value(bits.drop_last()) + bit_weight(bits.last(), (bits.len() - 1) as nat)
    }
}

/// The binary digit of `n` at `position`, counted from the least significant.
pub open spec fn bit_of(n: nat, position: nat) -> bool {
    (n / pow2(position)) % 2 == 1
}

/// A little-endian sum of `n` digits is below `2^n`.
pub proof fn lemma_le_value_bound(bits: Seq<bool>)
    ensures
        le_value(bits) < pow2(bits.len()),
    decreases bits.len(),
{
    if bits.len() == 0 {
        lemma2_to64();
    } else {
        lemma_le_value_bound(bits.drop_last());
        lemma_pow2_unfold(bits.len());
    }
}

/// Reading a digit back out of a little-endian sum gives the digit that went in.
pub proof fn lemma_bit_of_le_value(bits: Seq<bool>, i: int)
    requires
        0 <= i < bits.len(),
    ensures
        bit_of(le_value(bits), i as nat) == bits[i],
    decreases bits.len(),
{
    let front = bits.drop_last();
    let top = (bits.len() - 1) as nat;
    lemma_le_value_bound(front);
    lemma_pow2_pos(i as nat);
    if i == top {
        let low = le_value(front) as int;
        let w = pow2(top) as int;
        if bits.last() {
            assert((low + w) / w == 1) by (nonlinear_arith)
                requires
                    0 <= low < w,
            ;
        } else {
            assert(low / w == 0) by (nonlinear_arith)
                requires
                    0 <= low < w,
            ;
        }
    } else {
        lemma_bit_of_le_value(front, i);
        if bits.last() {
            // top = i + 1 + d, so 2^top is an even multiple of 2^i
            let d = (top - i - 1) as nat;
            vstd::arithmetic::power2::lemma_pow2_adds(i as nat, (d + 1) as nat);
            lemma_pow2_unfold((d + 1) as nat);
            let low = le_value(front) as int;
            let w = pow2(i as nat) as int;
            let m = pow2(d) as int;
            assert(pow2(top) == w * (2 * m)) by (nonlinear_arith)
                requires
                    pow2(top) == w * pow2((d + 1) as nat),
                    pow2((d + 1) as nat) == 2 * m,
            ;
            assert((low + w * (2 * m)) / w == low / w + 2 * m) by {
                vstd::arithmetic::div_mod::lemma_div_plus_one(low, w);
                vstd::arithmetic::div_mod::lemma_hoist_over_denominator(low, 2 * m, w as nat);
                assert(w * (2 * m) == (2 * m) * w) by (nonlinear_arith);
            }
        }
    }
}

/// Packs `count` of the given bits, starting at `start`, into one word,
/// least significant first.
pub fn pack_bits(bits: &[bool; 100], start: usize, count: usize) -> (word: u64)
    requires
        count <= 64,
        start + count <= 100,
    ensures
        word == le_value(bits@.subrange(start as int, start + count)),
{
    let mut word: u64 = 0;
    let mut i: usize = 0;
    proof {
        lemma2_to64();
    }
    while i < count
        invariant
            i <= count <= 64,
            start + count <= 100,
            word == le_value(bits@.subrange(start as int, start + i)),
            word < pow2(i as nat),
        decreases count - i,
    {
        proof {
            let next = bits@.subrange(start as int, start + i + 1);
            assert(next.drop_last() == bits@.subrange(start as int, start + i));
            lemma_pow2_unfold((i + 1) as nat);
            lemma2_to64();
            if i + 1 < 64 {
                lemma_pow2_strictly_increases((i + 1) as nat, 64);
            }
            lemma_u64_shl_is_mul(1u64, i as u64);
        }
        if bits[start + i] {
            let mask: u64 = 1u64 << (i as u64);
            assert(word | mask == word + mask) by (bit_vector)
                requires
                    word < mask,
                    mask == 1u64 << (i as u64),
                    i < 64,
            ;
            word |= mask;
        }
        i += 1;
    }
    word
}

/// Reads the bit at `position` of `word`, counted from the least significant.
pub fn read_bit(word: u64, position: usize) -> (bit: bool)
    requires
        position < 64,
    ensures
        bit == bit_of(word as nat, position as nat),
{
    let shifted: u64 = word >> (position as u64);
    proof {
        lemma_u64_shr_is_div(word, position as u64);
        assert(shifted & 1 == shifted % 2) by (bit_vector);
    }
    shifted & 1 == 1
}

/// Zero has no binary digits.
pub proof fn lemma_bit_of_zero(position: nat)
    ensures
        !bit_of(0, position),
{
    lemma_pow2_pos(position);
    vstd::arithmetic::div_mod::lemma_basic_div(0, pow2(position) as int);
}

/// The little-endian sum taken apart at its lowest digit.
pub proof fn lemma_le_value_first(bits: Seq<bool>)
    requires
        bits.len() > 0,
    ensures
        le_value(bits) == bit_weight(bits[0], 0) + 2 * le_value(bits.drop_first()),
    decreases bits.len(),
{
    lemma2_to64();
    if bits.len() == 1 {
        assert(bits.drop_last() =~= Seq::<bool>::empty());
        assert(bits.drop_first() =~= Seq::<bool>::empty());
    } else {
        let front = bits.drop_last();
        let rest = bits.drop_first();
        lemma_le_value_first(front);
        assert(front.drop_first() =~= rest.drop_last());
        assert(front[0] == bits[0]);
        lemma_pow2_unfold((bits.len() - 1) as nat);
    }
}

/// A little-endian sum with a zero digit at position `i` falls short of the
/// largest sum of its length by at least `2^i`.
pub proof fn lemma_le_value_gap(bits: Seq<bool>, i: int)
    requires
        0 <= i < bits.len(),
        !bits[i],
    ensures
        le_value(bits) + pow2(i as nat) < pow2(bits.len()),
    decreases bits.len(),
{
    let front = bits.drop_last();
    let top = (bits.len() - 1) as nat;
    lemma_pow2_unfold(bits.len());
    if i == top {
        lemma_le_value_bound(front);
    } else {
        lemma_le_value_gap(front, i);
    }
}

/// Unset digits on top of a little-endian number do not change it.
pub proof fn lemma_le_value_padding(bits: Seq<bool>, count: int)
    requires
        0 <= count <= bits.len(),
        forall|i: int| count <= i < bits.len() ==> !#[trigger] bits[i],
    ensures
        le_value(bits) == le_value(bits.subrange(0, count)),
    decreases bits.len() - count,
{
    if count == bits.len() {
        assert(bits.subrange(0, count) =~= bits);
    } else {
        let front = bits.drop_last();
        lemma_le_value_padding(front, count);
        assert(front.subrange(0, count) =~= bits.subrange(0, count));
        assert(!bits[bits.len() - 1]);
    }
}

} // verus!

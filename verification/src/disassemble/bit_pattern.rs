//! Bit patterns: templates of required zeros, required ones and wildcards
//! against which the bits of a number are tested.

use vstd::arithmetic::power2::{
    lemma2_to64, lemma_pow2_pos, lemma_pow2_strictly_increases, lemma_pow2_unfold, pow2,
};
use vstd::prelude::*;
use vstd::string::*;

verus! {

/// Every character is `0`, `1` or `x`.
pub open spec fn is_pattern_text(pattern: Seq<char>) -> bool {
    forall|i: int|
        0 <= i < pattern.len() ==> pattern[i] == '0' || pattern[i] == '1' || pattern[i] == 'x'
}

/// Only wildcards stand before the last `k` characters.
pub open spec fn fixed_within(pattern: Seq<char>, k: nat) -> bool {
    forall|i: int| 0 <= i < pattern.len() - k ==> pattern[i] == 'x'
}

/// A pattern for a 32-bit number: each character is `0`, `1` or `x`, and
/// the positions above bit 31, if it has any, hold wildcards.
pub open spec fn is_bit_pattern(pattern: Seq<char>) -> bool {
    is_pattern_text(pattern) && fixed_within(pattern, 32)
}

/// 1 where the character fixes its bit, 0 for a wildcard.
pub open spec fn fixes(c: char) -> nat {
    if c == 'x' {
        0
    } else {
        1
    }
}

/// 1 where the character asks for a set bit.
pub open spec fn asks_one(c: char) -> nat {
    if c == '1' {
        1
    } else {
        0
    }
}

/// The mask of a pattern: the number whose set bits are the positions that
/// the pattern fixes. The last character stands for bit 0.
pub open spec fn fixed_bits(pattern: Seq<char>) -> nat
    decreases pattern.len(),
{
    if pattern.len() == 0 {
        0
    } else {
        2 * fixed_bits(pattern.drop_last()) + fixes(pattern.last())
    }
}

/// The target of a pattern: the number whose set bits are the positions at
/// which the pattern asks for a one.
pub open spec fn one_bits(pattern: Seq<char>) -> nat
    decreases pattern.len(),
{
    if pattern.len() == 0 {
        0
    } else {
        2 * one_bits(pattern.drop_last()) + asks_one(pattern.last())
    }
}

/// A number matches a pattern when its bits at the fixed positions are
/// exactly those the pattern asks for.
pub open spec fn pattern_matches(pattern: Seq<char>, number: u32) -> bool {
    number & (fixed_bits(pattern) as u32) == one_bits(pattern) as u32
}

/// Bit `i` of `number` is set.
pub open spec fn bit_is_set(number: u32, i: u32) -> bool {
    (number >> i) & 1 == 1
}

/// A bit agrees with a pattern character: set for `1`, clear for `0`,
/// either for a wildcard.
pub open spec fn agrees(c: char, set: bool) -> bool {
    (c == '1' ==> set) && (c == '0' ==> !set)
}

/// Every bit of `number` agrees with the character of the pattern at its
/// position, the last character standing for bit 0.
pub open spec fn matches_bitwise(pattern: Seq<char>, number: u32) -> bool {
    forall|i: int|
        0 <= i < pattern.len() && i < 32 ==> agrees(
            #[trigger] pattern[pattern.len() - 1 - i],
            bit_is_set(number, i as u32),
        )
}

/// Mask and target of a pattern that fixes bits among its last `k`
/// positions only lie below `2^k`.
pub proof fn lemma_pattern_bounds(pattern: Seq<char>, k: nat)
    requires
        fixed_within(pattern, k),
    ensures
        one_bits(pattern) <= fixed_bits(pattern) < pow2(k),
    decreases pattern.len(),
{
    lemma_pow2_pos(k);
    if pattern.len() == 0 {
    } else if k == 0 {
        lemma_wildcards_match_all(pattern, 0);
    } else {
        lemma_pattern_bounds(pattern.drop_last(), (k - 1) as nat);
        lemma_pow2_unfold(k);
    }
}

/// Tests whether `number` has a set bit wherever `pattern` holds `1` and a
/// clear bit wherever it holds `0`; the last character of the pattern stands
/// for bit 0, and `x` admits either.
pub fn does_bit_pattern_match(pattern: &str, number: u32) -> (matched: bool)
    requires
        is_bit_pattern(pattern@),
    ensures
        matched == pattern_matches(pattern@, number),
        matched == matches_bitwise(pattern@, number),
{
    proof {
        lemma_matches_bitwise(pattern@, number);
    }
    let len = pattern.unicode_len();
    let mut mask: u64 = 0;
    let mut target: u64 = 0;
    let mut i: usize = 0;
    while i < len
        invariant
            i <= len,
            len == pattern@.len(),
            is_bit_pattern(pattern@),
            mask == fixed_bits(pattern@.take(i as int)),
            target == one_bits(pattern@.take(i as int)),
            target <= mask < 0x1_0000_0000,
        decreases len - i,
    {
        let c = pattern.get_char(i);
        proof {
            let before = pattern@.take(i as int);
            let after = pattern@.take(i + 1);
            let k = if i + 1 + 32 >= len {
                (i + 1 + 32 - len) as nat
            } else {
                0
            };
            assert(after.drop_last() =~= before);
            assert(after.last() == c);
            assert(fixed_within(after, k));
            lemma_pattern_bounds(after, k);
            lemma2_to64();
            if k < 32 {
                lemma_pow2_strictly_increases(k, 32);
            }
        }
        mask = 2 * mask + (if c == 'x' {
            0
        } else {
            1
        });
        target = 2 * target + (if c == '1' {
            1
        } else {
            0
        });
        i += 1;
    }
    proof {
        assert(pattern@.take(len as int) =~= pattern@);
    }
    (number & (mask as u32)) == (target as u32)
}

/// Comparing under a mask one bit longer: the lowest bit is compared by
/// itself, the others as before.
proof fn lemma_mask_step(number: u32, m: u32, t: u32, f: u32, b: u32)
    by (bit_vector)
    requires
        m < 0x8000_0000,
        t < 0x8000_0000,
        f <= 1,
        b <= f,
    ensures
        (number & ((2 * m + f) as u32) == (2 * t + b) as u32) <==> ((number >> 1) & m == t && (number
            & 1) & f == b),
{
}

/// Bit `i` of a number shifted right by one is bit `i + 1` of the number.
proof fn lemma_shifted_bit(number: u32, i: u32)
    by (bit_vector)
    requires
        i < 31,
    ensures
        ((number >> 1) >> i) & 1 == (number >> ((i + 1) as u32)) & 1,
{
}

/// How the lowest bit is compared, for each of the three characters.
proof fn lemma_lowest_bit(number: u32)
    by (bit_vector)
    ensures
        (number & 1) & 0 == 0,
        ((number & 1) & 1 == 1) <==> ((number >> 0) & 1 == 1),
        ((number & 1) & 1 == 0) <==> !((number >> 0) & 1 == 1),
        number & 0 == 0,
{
}

/// Comparing under the mask is comparing bit by bit, for a pattern that
/// fixes bits among its last `k` positions only.
proof fn lemma_matches_bitwise_within(pattern: Seq<char>, number: u32, k: nat)
    requires
        is_pattern_text(pattern),
        fixed_within(pattern, k),
        k <= 32,
    ensures
        pattern_matches(pattern, number) == matches_bitwise(pattern, number),
    decreases pattern.len(),
{
    lemma_lowest_bit(number);
    if pattern.len() == 0 {
    } else if k == 0 {
        lemma_wildcards_match_all(pattern, number);
    } else {
        let rest = pattern.drop_last();
        let c = pattern.last();
        let half = number >> 1;
        let len = pattern.len() as int;
        lemma_matches_bitwise_within(rest, half, (k - 1) as nat);
        lemma_pattern_bounds(rest, (k - 1) as nat);
        lemma_pattern_bounds(pattern, k);
        lemma2_to64();
        if k - 1 < 31 {
            lemma_pow2_strictly_increases((k - 1) as nat, 31);
        }
        if k < 32 {
            lemma_pow2_strictly_increases(k, 32);
        }
        let m = fixed_bits(rest) as u32;
        let t = one_bits(rest) as u32;
        let f = fixes(c) as u32;
        let b = asks_one(c) as u32;
        lemma_mask_step(number, m, t, f, b);
        assert(fixed_bits(pattern) as u32 == (2 * m + f) as u32);
        assert(one_bits(pattern) as u32 == (2 * t + b) as u32);
        assert(pattern_matches(pattern, number) == (pattern_matches(rest, half) && (number & 1) & f
            == b));
        assert(((number & 1) & f == b) == agrees(c, bit_is_set(number, 0)));
        if matches_bitwise(pattern, number) {
            assert(agrees(pattern[len - 1 - 0], bit_is_set(number, 0)));
            assert forall|i: int| 0 <= i < rest.len() && i < 32 implies agrees(
                #[trigger] rest[rest.len() - 1 - i],
                bit_is_set(half, i as u32),
            ) by {
                if i < 31 {
                    lemma_shifted_bit(number, i as u32);
                    assert(rest[rest.len() - 1 - i] == pattern[len - 1 - (i + 1)]);
                } else {
                    assert(rest[rest.len() - 1 - i] == 'x');
                }
            }
        }
        if matches_bitwise(rest, half) && agrees(c, bit_is_set(number, 0)) {
            assert forall|i: int| 0 <= i < len && i < 32 implies agrees(
                #[trigger] pattern[len - 1 - i],
                bit_is_set(number, i as u32),
            ) by {
                if i > 0 {
                    lemma_shifted_bit(number, (i - 1) as u32);
                    assert(pattern[len - 1 - i] == rest[rest.len() - 1 - (i - 1)]);
                }
            }
        }
    }
}

/// Comparing under the mask is comparing bit by bit: a number matches a
/// pattern exactly when each of its bits agrees with the pattern's character
/// at that position.
pub proof fn lemma_matches_bitwise(pattern: Seq<char>, number: u32)
    requires
        is_bit_pattern(pattern),
    ensures
        pattern_matches(pattern, number) == matches_bitwise(pattern, number),
{
    lemma_matches_bitwise_within(pattern, number, 32);
}

/// A pattern of wildcards alone fixes no bit, so every number matches it.
pub proof fn lemma_wildcards_match_all(pattern: Seq<char>, number: u32)
    requires
        forall|i: int| 0 <= i < pattern.len() ==> pattern[i] == 'x',
    ensures
        fixed_bits(pattern) == 0,
        one_bits(pattern) == 0,
        pattern_matches(pattern, number),
    decreases pattern.len(),
{
    if pattern.len() > 0 {
        lemma_wildcards_match_all(pattern.drop_last(), number);
    }
    assert(number & 0u32 == 0u32) by (bit_vector);
}

/// Mask and target of a pattern of four characters.
pub proof fn lemma_pattern_of_four(pattern: Seq<char>)
    requires
        pattern.len() == 4,
    ensures
        fixed_bits(pattern) == 8 * fixes(pattern[0]) + 4 * fixes(pattern[1]) + 2 * fixes(
            pattern[2],
        ) + fixes(pattern[3]),
        one_bits(pattern) == 8 * asks_one(pattern[0]) + 4 * asks_one(pattern[1]) + 2 * asks_one(
            pattern[2],
        ) + asks_one(pattern[3]),
{
    let three = pattern.drop_last();
    let two = three.drop_last();
    let one = two.drop_last();
    let empty = one.drop_last();
    assert(empty.len() == 0);
    assert(fixed_bits(empty) == 0 && one_bits(empty) == 0);
    assert(fixed_bits(one) == fixes(pattern[0]) && one_bits(one) == asks_one(pattern[0]));
    assert(fixed_bits(two) == 2 * fixed_bits(one) + fixes(pattern[1]));
    assert(one_bits(two) == 2 * one_bits(one) + asks_one(pattern[1]));
    assert(fixed_bits(three) == 2 * fixed_bits(two) + fixes(pattern[2]));
    assert(one_bits(three) == 2 * one_bits(two) + asks_one(pattern[2]));
}

/// Mask and target of a pattern whose characters after the first are all
/// wildcards: only the top position can be fixed.
pub proof fn lemma_pattern_of_leading(pattern: Seq<char>)
    requires
        pattern.len() >= 1,
        forall|i: int| 1 <= i < pattern.len() ==> pattern[i] == 'x',
    ensures
        fixed_bits(pattern) == if pattern[0] == 'x' {
            0
        } else {
            pow2((pattern.len() - 1) as nat)
        },
        one_bits(pattern) == if pattern[0] == '1' {
            pow2((pattern.len() - 1) as nat)
        } else {
            0
        },
    decreases pattern.len(),
{
    if pattern.len() == 1 {
        assert(pattern.drop_last().len() == 0);
        assert(fixed_bits(pattern.drop_last()) == 0 && one_bits(pattern.drop_last()) == 0);
        lemma2_to64();
    } else {
        lemma_pattern_of_leading(pattern.drop_last());
        lemma_pow2_unfold((pattern.len() - 1) as nat);
    }
}

} // verus!

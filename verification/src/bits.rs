//! The bitmask of pressed keys and its three primitives.

use vstd::prelude::*;

verus! {

/// Number of key positions that a bitmask holds.
pub const WIDTH: u8 = 32;

/// Whether position `n` of `bits` is marked. A position at or beyond the width
/// is never marked.
pub open spec fn bit_is_set(bits: u32, n: u8) -> bool {
    n < WIDTH && bits & (1u32 << n) != 0
}

/// `bits` with position `n` marked; `bits` itself where `n` is beyond the width.
pub open spec fn with_bit_set(bits: u32, n: u8) -> u32 {
    if n < WIDTH {
        bits | (1u32 << n)
    } else {
        bits
    }
}

/// `bits` with position `n` unmarked; `bits` itself where `n` is beyond the width.
pub open spec fn with_bit_cleared(bits: u32, n: u8) -> u32 {
    if n < WIDTH {
        bits & !(1u32 << n)
    } else {
        bits
    }
}

/// Reads position `n`.
pub fn get_bit_at(input: u32, n: u8) -> (set: bool)
    ensures
        set == bit_is_set(input, n),
{
    if n < WIDTH {
        input & (1u32 << n) != 0
    } else {
        false
    }
}

/// Marks position `n` and leaves every other position as it was.
pub fn set_bit_at(output: &mut u32, n: u8)
    ensures
        *final(output) == with_bit_set(*old(output), n),
        forall|m: u8|
            bit_is_set(*final(output), m) == (bit_is_set(*old(output), m) || (m == n && n < WIDTH)),
{
    if n < WIDTH {
        proof {
            lemma_set_bit(*output, n);
        }
        *output |= 1u32 << n;
    }
}

/// Unmarks position `n` and leaves every other position as it was.
pub fn clear_bit_at(output: &mut u32, n: u8)
    ensures
        *final(output) == with_bit_cleared(*old(output), n),
        forall|m: u8|
            bit_is_set(*final(output), m) == (bit_is_set(*old(output), m) && m != n),
{
    if n < WIDTH {
        proof {
            lemma_clear_bit(*output, n);
        }
        *output &= !(1u32 << n);
    }
}

/// Marking a position inside the width marks it and changes no other position.
pub proof fn lemma_set_bit(bits: u32, n: u8)
    requires
        n < WIDTH,
    ensures
        bit_is_set(with_bit_set(bits, n), n),
        forall|m: u8| m != n ==> bit_is_set(with_bit_set(bits, n), m) == bit_is_set(bits, m),
{
    assert((bits | (1u32 << n)) & (1u32 << n) != 0) by (bit_vector)
        requires
            n < 32,
    ;
    assert forall|m: u8| m != n implies bit_is_set(with_bit_set(bits, n), m) == bit_is_set(
        bits,
        m,
    ) by {
        if m < 32 {
            assert(((bits | (1u32 << n)) & (1u32 << m) != 0) == (bits & (1u32 << m) != 0))
                by (bit_vector)
                requires
                    n < 32,
                    m < 32,
                    m != n,
            ;
        }
    }
}

/// Unmarking a position inside the width unmarks it and changes no other position.
pub proof fn lemma_clear_bit(bits: u32, n: u8)
    requires
        n < WIDTH,
    ensures
        !bit_is_set(with_bit_cleared(bits, n), n),
        forall|m: u8| m != n ==> bit_is_set(with_bit_cleared(bits, n), m) == bit_is_set(bits, m),
{
    assert((bits & !(1u32 << n)) & (1u32 << n) == 0) by (bit_vector)
        requires
            n < 32,
    ;
    assert forall|m: u8| m != n implies bit_is_set(with_bit_cleared(bits, n), m) == bit_is_set(
        bits,
        m,
    ) by {
        if m < 32 {
            assert(((bits & !(1u32 << n)) & (1u32 << m) != 0) == (bits & (1u32 << m) != 0))
                by (bit_vector)
                requires
                    n < 32,
                    m < 32,
                    m != n,
            ;
        }
    }
}

/// A position at or beyond the width reads as unmarked, and marking or
/// unmarking it changes nothing.
pub proof fn lemma_beyond_width(bits: u32, n: u8)
    requires
        n >= WIDTH,
    ensures
        !bit_is_set(bits, n),
        with_bit_set(bits, n) == bits,
        with_bit_cleared(bits, n) == bits,
        !bit_is_set(with_bit_set(bits, n), n),
{
}

/// The empty bitmask marks no position.
pub proof fn lemma_zero_marks_nothing(n: u8)
    ensures
        !bit_is_set(0, n),
{
    if n < WIDTH {
        assert(0u32 & (1u32 << n) == 0) by (bit_vector);
    }
}

/// Whether `a` and `b` mark position `n` alike.
pub open spec fn agree_at(a: u32, b: u32, n: u8) -> bool {
    bit_is_set(a, n) == bit_is_set(b, n)
}

/// A bitmask is determined by the positions it marks.
pub proof fn lemma_same_marks_same_bits(a: u32, b: u32)
    requires
        forall|n: u8| n < WIDTH ==> #[trigger] agree_at(a, b, n),
    ensures
        a == b,
{
    assert(a == b) by (bit_vector)
        requires
            agree_at(a, b, 0),
            agree_at(a, b, 1),
            agree_at(a, b, 2),
            agree_at(a, b, 3),
            agree_at(a, b, 4),
            agree_at(a, b, 5),
            agree_at(a, b, 6),
            agree_at(a, b, 7),
            agree_at(a, b, 8),
            agree_at(a, b, 9),
            agree_at(a, b, 10),
            agree_at(a, b, 11),
            agree_at(a, b, 12),
            agree_at(a, b, 13),
            agree_at(a, b, 14),
            agree_at(a, b, 15),
            agree_at(a, b, 16),
            agree_at(a, b, 17),
            agree_at(a, b, 18),
            agree_at(a, b, 19),
            agree_at(a, b, 20),
            agree_at(a, b, 21),
            agree_at(a, b, 22),
            agree_at(a, b, 23),
            agree_at(a, b, 24),
            agree_at(a, b, 25),
            agree_at(a, b, 26),
            agree_at(a, b, 27),
            agree_at(a, b, 28),
            agree_at(a, b, 29),
            agree_at(a, b, 30),
            agree_at(a, b, 31),
    ;
}

} // verus!

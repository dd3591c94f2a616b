//! Rounding of addresses and sizes up to a multiple of an alignment.

use vstd::arithmetic::div_mod::{
    lemma_add_mod_noop, lemma_fundamental_div_mod, lemma_mod_multiples_basic, lemma_small_mod,
    lemma_sub_mod_noop,
};
use vstd::arithmetic::mul::lemma_mul_is_associative;
use vstd::arithmetic::power2::is_pow2;
use vstd::prelude::*;

verus! {

/// The least multiple of `alignment` that is not below `value`.
pub open spec fn align_up(value: int, alignment: int) -> int {
    ((value + alignment - 1) / alignment) * alignment
}

/// How `align_up` treats a value, by its remainder: a multiple of the
/// alignment stays, any other value moves to the next multiple.
pub proof fn lemma_align_up_by_remainder(value: int, alignment: int)
    requires
        0 <= value,
        0 < alignment,
    ensures
        value % alignment == 0 ==> align_up(value, alignment) == value,
        value % alignment != 0 ==> align_up(value, alignment) == value + alignment - value
            % alignment,
{
    let q = value / alignment;
    let r = value % alignment;
    assert(value == q * alignment + r && 0 <= r < alignment) by (nonlinear_arith)
        requires
            q == value / alignment,
            r == value % alignment,
            0 < alignment,
    ;
    if r == 0 {
        assert((q * alignment + alignment - 1) / alignment == q) by (nonlinear_arith)
            requires
                0 < alignment,
        ;
    } else {
        assert((q * alignment + r + alignment - 1) / alignment == q + 1) by (nonlinear_arith)
            requires
                0 < r < alignment,
        ;
        assert((q + 1) * alignment == q * alignment + alignment) by (nonlinear_arith);
    }
}

/// `align_up` adds less than one alignment of padding and lands on a
/// multiple of the alignment.
pub proof fn lemma_align_up_bounds(value: int, alignment: int)
    requires
        0 <= value,
        0 < alignment,
    ensures
        value <= align_up(value, alignment) < value + alignment,
        align_up(value, alignment) % alignment == 0,
{
    lemma_align_up_by_remainder(value, alignment);
    let r = value % alignment;
    assert(0 <= r < alignment) by (nonlinear_arith)
        requires
            r == value % alignment,
            0 < alignment,
    ;
    let q = (value + alignment - 1) / alignment;
    assert((q * alignment) % alignment == 0) by (nonlinear_arith)
        requires
            0 < alignment,
    ;
}

/// No multiple of the alignment lies between `value` and `align_up(value, ..)`:
/// the padding that `align_up` adds is the least that reaches a multiple.
pub proof fn lemma_align_up_is_least(value: int, alignment: int, multiple: int)
    requires
        0 <= value,
        0 < alignment,
        value <= multiple,
        multiple % alignment == 0,
    ensures
        align_up(value, alignment) <= multiple,
{
    lemma_align_up_bounds(value, alignment);
    let up = align_up(value, alignment);
    if multiple < up {
        assert(up - multiple >= alignment) by (nonlinear_arith)
            requires
                0 < alignment,
                up % alignment == 0,
                multiple % alignment == 0,
                multiple < up,
        ;
    }
}

/// Divisibility is transitive: a multiple of a multiple of `divisor` is a
/// multiple of `divisor`.
pub proof fn lemma_multiple_of_multiple(value: int, middle: int, divisor: int)
    requires
        0 < divisor,
        0 < middle,
        middle % divisor == 0,
        value % middle == 0,
    ensures
        value % divisor == 0,
{
    let a = value / middle;
    let b = middle / divisor;
    lemma_fundamental_div_mod(value, middle);
    lemma_fundamental_div_mod(middle, divisor);
    assert(value == middle * a);
    assert(middle == divisor * b);
    lemma_mul_is_associative(divisor, b, a);
    assert(value == divisor * (b * a));
    assert(divisor * (b * a) == (b * a) * divisor) by (nonlinear_arith);
    lemma_mod_multiples_basic(b * a, divisor);
}

/// Rounding up to an alignment also rounds up to every alignment that
/// divides it, and the coarser alignment never yields the smaller result.
pub proof fn lemma_align_up_coarser(value: int, fine: int, coarse: int)
    requires
        0 <= value,
        0 < fine,
        0 < coarse,
        coarse % fine == 0,
    ensures
        align_up(value, coarse) % fine == 0,
        align_up(value, fine) <= align_up(value, coarse),
{
    lemma_align_up_bounds(value, coarse);
    let up = align_up(value, coarse);
    lemma_multiple_of_multiple(up, coarse, fine);
    lemma_align_up_is_least(value, fine, up);
}

/// Rounding up commutes with a shift by a multiple of the alignment: where
/// a block starts at an aligned address, the padding inside it is the same
/// as at address zero.
pub proof fn lemma_align_up_shift(base: int, value: int, alignment: int)
    requires
        0 <= base,
        0 <= value,
        0 < alignment,
        base % alignment == 0,
    ensures
        align_up(base + value, alignment) == base + align_up(value, alignment),
{
    let inner = align_up(value, alignment);
    let outer = align_up(base + value, alignment);
    lemma_align_up_bounds(value, alignment);
    lemma_align_up_bounds(base + value, alignment);
    lemma_small_mod(0, alignment as nat);
    assert((base + inner) % alignment == 0) by {
        lemma_add_mod_noop(base, inner, alignment);
    }
    lemma_align_up_is_least(base + value, alignment, base + inner);
    assert((outer - base) % alignment == 0) by {
        lemma_sub_mod_noop(outer, base, alignment);
    }
    lemma_align_up_is_least(value, alignment, outer - base);
}

/// A power of two is at least one.
pub proof fn lemma_pow2_positive(value: int)
    requires
        is_pow2(value),
    ensures
        1 <= value,
{
    reveal(is_pow2);
}

/// Of two powers of two, the smaller divides the larger.
pub proof fn lemma_pow2_divides(small: int, large: int)
    requires
        is_pow2(small),
        is_pow2(large),
        small <= large,
    ensures
        0 < small,
        large % small == 0,
    decreases small,
{
    reveal(is_pow2);
    if small == 1 {
        assert(large % 1 == 0);
    } else {
        lemma_pow2_divides(small / 2, large / 2);
        let half = small / 2;
        let k = (large / 2) / half;
        lemma_fundamental_div_mod(large / 2, half);
        assert(large == k * small) by (nonlinear_arith)
            requires
                large == 2 * (large / 2),
                small == 2 * half,
                large / 2 == half * k,
        ;
        lemma_mod_multiples_basic(k, small);
    }
}

/// Whether `value` is a power of two. Zero is not.
pub fn is_power_of_two(value: usize) -> (yes: bool)
    ensures
        yes == is_pow2(value as int),
{
    if value == 0 {
        proof {
            reveal(is_pow2);
        }
        return false;
    }
    let mut rest: usize = value;
    while rest % 2 == 0
        invariant
            rest > 0,
            is_pow2(rest as int) == is_pow2(value as int),
        decreases rest,
    {
        proof {
            reveal(is_pow2);
        }
        rest = rest / 2;
    }
    proof {
        reveal(is_pow2);
    }
    rest == 1
}

/// Rounds `value` up to the next multiple of `alignment`, or returns `None`
/// when that multiple does not fit in a `usize`.
pub fn checked_align(value: usize, alignment: usize) -> (aligned: Option<usize>)
    requires
        alignment > 0,
    ensures
        aligned is Some <==> align_up(value as int, alignment as int) <= usize::MAX,
        aligned is Some ==> aligned->Some_0 == align_up(value as int, alignment as int),
{
    proof {
        lemma_align_up_by_remainder(value as int, alignment as int);
    }
    let remainder: usize = value % alignment;
    if remainder == 0 {
        Some(value)
    } else {
        value.checked_add(alignment - remainder)
    }
}

/// Rounds `value` up to the next multiple of `alignment`.
pub fn align(value: usize, alignment: usize) -> (aligned: usize)
    requires
        alignment > 0,
        align_up(value as int, alignment as int) <= usize::MAX,
    ensures
        aligned == align_up(value as int, alignment as int),
{
    proof {
        lemma_align_up_by_remainder(value as int, alignment as int);
    }
    let remainder: usize = value % alignment;
    if remainder == 0 {
        value
    } else {
        value + (alignment - remainder)
    }
}

} // verus!

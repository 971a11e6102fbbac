//! Arithmetic on conditions: the building blocks that replace a branch on a
//! secret value. A condition is carried as a flag, the number 1 when it holds
//! and 0 when it does not, and flags are combined and used by arithmetic
//! alone. Every function here executes the same operations whatever its
//! arguments hold.

use vstd::prelude::*;

verus! {

/// The 0/1 value of a condition.
pub open spec fn indicator(condition: bool) -> int {
    if condition {
        1
    } else {
        0
    }
}

/// The flag of `condition`.
pub fn flag(condition: bool) -> (bit: u8)
    ensures
        bit == indicator(condition),
{
    condition as u8
}

/// The flag that holds when `bit` does not: `1 - bit`.
pub fn negate(bit: u8) -> (flipped: u8)
    requires
        bit <= 1,
    ensures
        flipped == indicator(bit == 0),
{
    1 - bit
}

/// The flag that holds when `left` and `right` both hold: their product.
pub fn both(left: u8, right: u8) -> (met: u8)
    requires
        left <= 1,
        right <= 1,
    ensures
        met == indicator(left == 1 && right == 1),
{
    assert(left * right == indicator(left == 1 && right == 1)) by (nonlinear_arith)
        requires
            left <= 1,
            right <= 1,
    ;
    left * right
}

/// The flag that holds when `left` or `right` holds: their sum less their
/// product.
pub fn either(left: u8, right: u8) -> (met: u8)
    requires
        left <= 1,
        right <= 1,
    ensures
        met == indicator(left == 1 || right == 1),
{
    let overlap: u8 = both(left, right);
    left + right - overlap
}

/// `on_true` when `bit` holds and `on_false` when it does not, computed as
/// `bit * on_true + (1 - bit) * on_false`.
pub fn select_u8(bit: u8, on_true: u8, on_false: u8) -> (chosen: u8)
    requires
        bit <= 1,
    ensures
        chosen == if bit == 1 { on_true } else { on_false },
{
    assert(bit * on_true == if bit == 1 { on_true as int } else { 0 }) by (nonlinear_arith)
        requires
            bit <= 1,
    ;
    assert((1 - bit) * on_false == if bit == 1 { 0 } else { on_false as int })
        by (nonlinear_arith)
        requires
            bit <= 1,
    ;
    bit * on_true + (1 - bit) * on_false
}

/// `on_true` when `bit` holds and `on_false` when it does not, computed as
/// `bit * on_true + (1 - bit) * on_false`.
pub fn select_u64(bit: u8, on_true: u64, on_false: u64) -> (chosen: u64)
    requires
        bit <= 1,
    ensures
        chosen == if bit == 1 { on_true } else { on_false },
{
    let wide: u64 = bit as u64;
    assert(wide * on_true == if bit == 1 { on_true as int } else { 0 }) by (nonlinear_arith)
        requires
            wide == bit,
            bit <= 1,
    ;
    assert((1 - wide) * on_false == if bit == 1 { 0 } else { on_false as int })
        by (nonlinear_arith)
        requires
            wide == bit,
            bit <= 1,
    ;
    wide * on_true + (1 - wide) * on_false
}

} // verus!

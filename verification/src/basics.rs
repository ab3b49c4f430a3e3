//! Small arithmetic helpers with exact contracts.

use vstd::prelude::*;

verus! {

/// Subtracts five from inputs above five and adds five otherwise. Neither
/// branch can overflow an `i32`: the subtracting branch only runs above
/// five, and the adding branch only runs at or below five.
pub fn plus_or_minus(x: i32) -> (r: i32)
    ensures
        r == if x > 5 { x - 5 } else { x + 5 },
{
    if x > 5 {
        return x - 5;
    }
    x + 5
}

/// Adds two numbers.
pub fn add(a: i32, b: i32) -> (r: i32)
    requires
        i32::MIN <= a + b <= i32::MAX,
    ensures
        r == a + b,
{
    a + b
}

/// Adds two numbers after bumping the first by one and the second by five.
pub fn add_with_extra(x: i32, y: i32) -> (r: i32)
    requires
        i32::MIN <= x + y + 6 <= i32::MAX,
        x + 1 <= i32::MAX,
        y + 5 <= i32::MAX,
    ensures
        r == x + y + 6,
{
    let x: i32 = x + 1;
    let y: i32 = y + 5;
    x + y
}

/// Classifies one as odd through an `if` expression and returns unit.
pub fn ret_unit_type() {
    let x: i32 = 1;
    let _parity: &str = if x % 2 == 1 {
        "odd"
    } else {
        "even"
    };
    let _parity_one_line: &str = if x % 2 == 1 { "odd" } else { "even" };
}

} // verus!

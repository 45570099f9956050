use vstd::prelude::*;

verus! {

/// Whether the checkerboard cell in grid column `column` and grid row `row`
/// takes the light color: cells alternate with the parity of
/// `column + row`, odd cells being light.
pub fn checker_is_white(column: i64, row: i64) -> (r: bool)
    requires
        i64::MIN <= column + row <= i64::MAX,
    ensures
        r == ((column + row) % 2 == 1),
{
    let s: i64 = column + row;
    s % 2 != 0
}

} // verus!

//! The wiring of the strand: which LED lights a given logical position.
//!
//! The LEDs of a square panel of `side` by `side` pixels form one chain.
//! The chain starts in the bottom row of the picture and climbs row by row;
//! every second row runs the other way, so that the end of one row lies next
//! to the start of the row above it. Counting rows from the bottom and from
//! zero, the rows with an even number run from right to left and those with
//! an odd number from left to right.

use vstd::prelude::*;
use vstd::arithmetic::div_mod::{
    lemma_fundamental_div_mod,
    lemma_fundamental_div_mod_converse,
    lemma_mod_bound,
};
use vstd::arithmetic::mul::lemma_mul_is_commutative;
use crate::geometry::Point;

verus! {

/// Why a pixel could not be drawn.
#[derive(Clone, Copy, Debug, PartialEq, Eq, Structural, Hash)]
pub enum DrawError {
    /// The position lies outside the surface.
    OutOfBounds,
}

/// Whether `(x, y)` lies on a panel of `side` by `side` pixels.
pub open spec fn in_bounds(side: nat, x: int, y: int) -> bool {
    0 <= x < side && 0 <= y < side
}

/// The row of the strand, counted from its start, that shows the logical
/// row `y`: the strand starts at the bottom of the picture.
pub open spec fn strand_row(side: nat, y: int) -> int {
    side - 1 - y
}

/// The position within its strand row of the pixel in logical column `x`.
pub open spec fn strand_column(side: nat, row: int, x: int) -> int {
    if row % 2 == 1 {
        x
    } else {
        side - 1 - x
    }
}

/// The position on the strand of the LED that shows `(x, y)`.
pub open spec fn strand_index(side: nat, x: int, y: int) -> int {
    let row = strand_row(side, y);
    row * side + strand_column(side, row, x)
}

/// The logical position, as `(x, y)`, that the LED at `index` shows.
pub open spec fn strand_point(side: nat, index: int) -> (int, int) {
    let row = index / (side as int);
    (strand_column(side, row, index % (side as int)), side - 1 - row)
}

/// The position on the strand of the LED that shows `point` on a panel of
/// `side` by `side` pixels. A point outside the panel is rejected, never
/// wrapped or clamped.
pub fn strand_index_of(side: usize, point: Point) -> (result: Result<usize, DrawError>)
    requires
        side * side <= usize::MAX,
    ensures
        match result {
            Ok(index) => in_bounds(side as nat, point.x as int, point.y as int)
                && index == strand_index(side as nat, point.x as int, point.y as int),
            Err(error) => !in_bounds(side as nat, point.x as int, point.y as int)
                && error == DrawError::OutOfBounds,
        },
{
    if point.x < 0 || point.y < 0 {
        return Err(DrawError::OutOfBounds);
    }
    let x: usize = point.x as usize;
    let y: usize = point.y as usize;
    if x >= side || y >= side {
        return Err(DrawError::OutOfBounds);
    }
    let row: usize = side - 1 - y;
    let column: usize = if row % 2 == 1 {
        x
    } else {
        side - 1 - x
    };
    proof {
        lemma_index_in_range(side as nat, x as int, y as int);
    }
    Ok(row * side + column)
}

/// Every position on the panel has its LED on the strand: the index lies
/// between zero and the number of pixels.
pub proof fn lemma_index_in_range(side: nat, x: int, y: int)
    requires
        in_bounds(side, x, y),
    ensures
        0 <= strand_index(side, x, y) < side * side,
{
    let row = strand_row(side, y);
    let column = strand_column(side, row, x);
    assert(0 <= row * side && row * side + side <= side * side) by (nonlinear_arith)
        requires
            0 <= row < side,
    ;
}

/// The LED of a position on the panel shows that position and no other:
/// `strand_point` undoes `strand_index`.
pub proof fn lemma_point_of_index(side: nat, x: int, y: int)
    requires
        in_bounds(side, x, y),
    ensures
        strand_point(side, strand_index(side, x, y)) == (x, y),
{
    let row = strand_row(side, y);
    let column = strand_column(side, row, x);
    lemma_fundamental_div_mod_converse(strand_index(side, x, y), side as int, row, column);
}

/// Every LED of the strand shows a position on the panel, and is the LED of
/// that position: `strand_index` undoes `strand_point`.
pub proof fn lemma_index_of_point(side: nat, index: int)
    requires
        0 <= index < side * side,
    ensures
        in_bounds(side, strand_point(side, index).0, strand_point(side, index).1),
        strand_index(side, strand_point(side, index).0, strand_point(side, index).1) == index,
{
    assert(side > 0) by (nonlinear_arith)
        requires
            0 <= index < side * side,
    ;
    let row = index / (side as int);
    let column = index % (side as int);
    lemma_fundamental_div_mod(index, side as int);
    lemma_mod_bound(index, side as int);
    lemma_mul_is_commutative(side as int, row);
    assert(0 <= row < side) by (nonlinear_arith)
        requires
            side > 0,
            0 <= index < side * side,
            index == row * side + column,
            0 <= column < side,
    ;
}

/// No two positions on the panel share an LED.
pub proof fn lemma_index_is_injective(side: nat, x1: int, y1: int, x2: int, y2: int)
    requires
        in_bounds(side, x1, y1),
        in_bounds(side, x2, y2),
        strand_index(side, x1, y1) == strand_index(side, x2, y2),
    ensures
        x1 == x2,
        y1 == y2,
{
    lemma_point_of_index(side, x1, y1);
    lemma_point_of_index(side, x2, y2);
}

/// Every LED of the strand is the LED of exactly one position on the panel:
/// of `strand_point(side, index)`, and of nothing else.
pub proof fn lemma_index_is_surjective(side: nat, index: int)
    requires
        0 <= index < side * side,
    ensures
        exists|x: int, y: int| in_bounds(side, x, y) && #[trigger] strand_index(side, x, y) == index,
        forall|x: int, y: int|
            in_bounds(side, x, y) && #[trigger] strand_index(side, x, y) == index ==> (x, y)
                == strand_point(side, index),
{
    lemma_index_of_point(side, index);
    let (px, py) = strand_point(side, index);
    assert(in_bounds(side, px, py) && strand_index(side, px, py) == index);
    assert forall|x: int, y: int|
        in_bounds(side, x, y) && #[trigger] strand_index(side, x, y) == index implies (x, y)
        == strand_point(side, index) by {
        lemma_point_of_index(side, x, y);
    }
}

/// The strand is one unbroken path across the panel: each LED lies beside
/// the LED before it, in the same row or in the same column.
pub proof fn lemma_strand_is_connected(side: nat, index: int)
    requires
        0 <= index,
        index + 1 < side * side,
    ensures
        ({
            let (x, y) = strand_point(side, index);
            let (next_x, next_y) = strand_point(side, index + 1);
            ||| next_y == y && (next_x == x + 1 || next_x == x - 1)
            ||| next_x == x && next_y == y - 1
        }),
{
    let n = side as int;
    let row = index / n;
    let column = index % n;
    lemma_index_of_point(side, index);
    lemma_fundamental_div_mod(index, n);
    lemma_mod_bound(index, n);
    lemma_mul_is_commutative(n, row);
    if column + 1 < n {
        lemma_fundamental_div_mod_converse(index + 1, n, row, column + 1);
    } else {
        assert((row + 1) * n == row * n + n) by (nonlinear_arith);
        lemma_fundamental_div_mod_converse(index + 1, n, row + 1, 0);
    }
}

} // verus!

//! Screen coordinates from projected positions.
//!
//! The projection itself works on floating-point degrees and is done before
//! a position reaches this crate. The projected vertical axis grows to the
//! south, as the screen's does.

use vstd::prelude::*;
use crate::extent::Point;

verus! {

/// Why a position has no screen coordinates.
#[derive(Clone, Copy, Debug, PartialEq, Eq, Structural)]
pub enum NormalizeError {
    /// The two corners share a horizontal or a vertical position.
    DegenerateExtent,
    /// The position lies outside the box that the corners span.
    OutsideExtent,
}

pub open spec fn lesser(a: int, b: int) -> int {
    if a <= b {
        a
    } else {
        b
    }
}

pub open spec fn greater(a: int, b: int) -> int {
    if a >= b {
        a
    } else {
        b
    }
}

/// The screen coordinates of a projected position inside the box that two
/// projected corners span, on a screen `scale.0` wide and `scale.1` high.
///
/// The horizontal coordinate is the position's share of the box's width,
/// times the screen's width. The vertical coordinate is the screen's height
/// less the share of the box's height that lies south of the position,
/// times the screen's height. Both products are rounded down.
pub open spec fn normalized(point: Point, corner_a: Point, corner_b: Point, scale: (u32, u32))
    -> Result<(u32, u32), NormalizeError> {
    let min_x = lesser(corner_a.x as int, corner_b.x as int);
    let max_x = greater(corner_a.x as int, corner_b.x as int);
    let min_y = lesser(corner_a.y as int, corner_b.y as int);
    let max_y = greater(corner_a.y as int, corner_b.y as int);
    if min_x == max_x || min_y == max_y {
        Err(NormalizeError::DegenerateExtent)
    } else if !(min_x <= point.x <= max_x && min_y <= point.y <= max_y) {
        Err(NormalizeError::OutsideExtent)
    } else {
        Ok(
            (
                (((point.x - min_x) * scale.0) / (max_x - min_x)) as u32,
                (scale.1 - ((max_y - point.y) * scale.1) / (max_y - min_y)) as u32,
            ),
        )
    }
}

/// A share of a whole, times a scale, rounded down, is at most the scale.
proof fn lemma_share_bound(part: int, whole: int, scale: int)
    requires
        0 <= part <= whole,
        0 < whole,
        0 <= scale,
    ensures
        0 <= (part * scale) / whole <= scale,
        part == 0 ==> (part * scale) / whole == 0,
        part == whole ==> (part * scale) / whole == scale,
{
    assert(0 <= part * scale <= whole * scale) by (nonlinear_arith)
        requires
            0 <= part <= whole,
            0 <= scale,
    ;
    assert((whole * scale) / whole == scale) by (nonlinear_arith)
        requires
            0 < whole,
    ;
    assert((part * scale) / whole <= (whole * scale) / whole) by (nonlinear_arith)
        requires
            0 <= part * scale <= whole * scale,
            0 < whole,
    ;
    assert(0 <= (part * scale) / whole) by (nonlinear_arith)
        requires
            0 <= part * scale,
            0 < whole,
    ;
    if part == 0 {
        assert(part * scale == 0) by (nonlinear_arith)
            requires
                part == 0,
        ;
    }
}

/// Maps a projected position into the screen.
///
/// The two corners may be given in either order. The box must have a width
/// and a height, and the position must lie in it, edges included; the
/// screen coordinates then lie between 0 and the screen's width and height.
pub fn normalize(point: Point, corner_a: Point, corner_b: Point, scale: (u32, u32)) -> (out: Result<
    (u32, u32),
    NormalizeError,
>)
    ensures
        out == normalized(point, corner_a, corner_b, scale),
        out matches Ok(at) ==> at.0 <= scale.0 && at.1 <= scale.1,
{
    let min_x = if corner_a.x <= corner_b.x {
        corner_a.x
    } else {
        corner_b.x
    };
    let max_x = if corner_a.x >= corner_b.x {
        corner_a.x
    } else {
        corner_b.x
    };
    let min_y = if corner_a.y <= corner_b.y {
        corner_a.y
    } else {
        corner_b.y
    };
    let max_y = if corner_a.y >= corner_b.y {
        corner_a.y
    } else {
        corner_b.y
    };
    if min_x == max_x || min_y == max_y {
        return Err(NormalizeError::DegenerateExtent);
    }
    if point.x < min_x || point.x > max_x || point.y < min_y || point.y > max_y {
        return Err(NormalizeError::OutsideExtent);
    }
    let width: u128 = (max_x as i128 - min_x as i128) as u128;
    let height: u128 = (max_y as i128 - min_y as i128) as u128;
    let east: u128 = (point.x as i128 - min_x as i128) as u128;
    let south: u128 = (max_y as i128 - point.y as i128) as u128;
    proof {
        lemma_share_bound(east as int, width as int, scale.0 as int);
        lemma_share_bound(south as int, height as int, scale.1 as int);
        assert(east * scale.0 <= 0x1_0000_0000_0000_0000 * 0x1_0000_0000) by (nonlinear_arith)
            requires
                east <= 0x1_0000_0000_0000_0000,
                scale.0 <= 0x1_0000_0000,
        ;
        assert(south * scale.1 <= 0x1_0000_0000_0000_0000 * 0x1_0000_0000) by (nonlinear_arith)
            requires
                south <= 0x1_0000_0000_0000_0000,
                scale.1 <= 0x1_0000_0000,
        ;
    }
    let x: u128 = east * (scale.0 as u128) / width;
    let below: u128 = south * (scale.1 as u128) / height;
    Ok((x as u32, (scale.1 as u128 - below) as u32))
}

/// The box's north-west corner maps to the screen's origin, and its
/// south-east corner to the screen's far corner.
pub proof fn lemma_corners_map_to_corners(top_left: Point, bottom_right: Point, scale: (u32, u32))
    requires
        top_left.x < bottom_right.x,
        top_left.y < bottom_right.y,
    ensures
        normalized(top_left, top_left, bottom_right, scale) == Ok::<_, NormalizeError>((0u32, 0u32)),
        normalized(bottom_right, top_left, bottom_right, scale) == Ok::<_, NormalizeError>(scale),
{
    let width = bottom_right.x - top_left.x;
    let height = bottom_right.y - top_left.y;
    lemma_share_bound(0, width, scale.0 as int);
    lemma_share_bound(width, width, scale.0 as int);
    lemma_share_bound(0, height, scale.1 as int);
    lemma_share_bound(height, height, scale.1 as int);
}

/// A position in the box maps into the screen, and the order of the two
/// corners does not matter.
pub proof fn lemma_normalized_in_screen(point: Point, corner_a: Point, corner_b: Point, scale: (
    u32,
    u32,
))
    ensures
        normalized(point, corner_a, corner_b, scale) == normalized(point, corner_b, corner_a, scale),
        normalized(point, corner_a, corner_b, scale) matches Ok(at) ==> at.0 <= scale.0 && at.1
            <= scale.1,
{
    let min_x = lesser(corner_a.x as int, corner_b.x as int);
    let max_x = greater(corner_a.x as int, corner_b.x as int);
    let min_y = lesser(corner_a.y as int, corner_b.y as int);
    let max_y = greater(corner_a.y as int, corner_b.y as int);
    if normalized(point, corner_a, corner_b, scale) is Ok {
        lemma_share_bound(point.x - min_x, max_x - min_x, scale.0 as int);
        lemma_share_bound(max_y - point.y, max_y - min_y, scale.1 as int);
    }
}

} // verus!

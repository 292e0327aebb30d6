//! Cursor positions: the arithmetic that maps screen pixels to the
//! absolute coordinates of mouse input, which run from 0 to 65536 across
//! the primary screen.
use vstd::prelude::*;

verus! {

/// The size of a screen in pixels.
#[derive(Debug, Clone, Copy)]
pub struct ScreenSize {
    pub w: i32,
    pub h: i32,
}

/// A position in pixels or in absolute input coordinates.
#[derive(Debug, Clone, Copy)]
pub struct Point {
    pub x: i32,
    pub y: i32,
}

/// Rust's integer division, which rounds towards zero.
pub open spec fn div_toward_zero(a: int, b: int) -> int
    recommends
        b != 0,
{
    let q = (if a < 0 {
        -a
    } else {
        a
    }) / (if b < 0 {
        -b
    } else {
        b
    });
    if (a < 0) != (b < 0) {
        -q
    } else {
        q
    }
}

/// `p * 65536 / (extent - 1)` computed in `i32` does not overflow and does
/// not divide by zero.
pub open spec fn scalable(p: i32, extent: i32) -> bool {
    &&& i32::MIN <= p * 65536 <= i32::MAX
    &&& extent != i32::MIN
    &&& extent - 1 != 0
    &&& !(p * 65536 == i32::MIN && extent - 1 == -1)
}

/// The absolute coordinate for pixel `p` on a screen `extent` pixels wide.
pub open spec fn absolute(p: int, extent: int) -> int {
    div_toward_zero(p * 65536, extent - 1)
}

fn scale(p: i32, extent: i32) -> (r: i32)
    requires
        scalable(p, extent),
    ensures
        r == absolute(p as int, extent as int),
{
    let a: i64 = p as i64 * 65536;
    let b: i64 = extent as i64 - 1;
    let ua: u64 = if a < 0 { (0 - a) as u64 } else { a as u64 };
    let ub: u64 = if b < 0 { (0 - b) as u64 } else { b as u64 };
    let q: u64 = ua / ub;
    assert(q <= ua) by (nonlinear_arith)
        requires
            ub >= 1,
            q == ua / ub,
    ;
    let r: i64 = if (a < 0) != (b < 0) { 0 - (q as i64) } else { q as i64 };
    proof {
        if (a < 0) == (b < 0) && a == i32::MIN {
            assert(ub == 1 ==> false);
            assert(q <= ua / 2) by (nonlinear_arith)
                requires
                    ub >= 2,
                    q == ua / ub,
            ;
        }
    }
    r as i32
}

/// Whether pixel `p` of a screen `extent` pixels wide can be scaled to an
/// absolute coordinate (`scalable`).
pub fn can_scale(p: i32, extent: i32) -> (b: bool)
    ensures
        b == scalable(p, extent),
{
    let n: i64 = p as i64 * 65536;
    if n < -2147483648i64 || n > 2147483647i64 {
        return false;
    }
    if extent == i32::MIN || extent == 1 {
        return false;
    }
    !(n == -2147483648i64 && extent == 0)
}

/// The absolute input coordinates at which moving the cursor to pixel
/// `(x, y)` of the screen `screen` aims.
pub fn move_cursor(x: i32, y: i32, screen: &ScreenSize) -> (r: Point)
    requires
        scalable(x, screen.w),
        scalable(y, screen.h),
    ensures
        r.x == absolute(x as int, screen.w as int),
        r.y == absolute(y as int, screen.h as int),
{
    Point { x: scale(x, screen.w), y: scale(y, screen.h) }
}

/// Law: on a screen wider than one pixel, a pixel on the screen maps to
/// the absolute coordinate `p * 65536 / (extent - 1)`, rounded down, from 0
/// at the first pixel to 65536 at the last.
pub proof fn law_absolute_on_screen(p: int, extent: int)
    requires
        extent > 1,
        0 <= p < extent,
    ensures
        absolute(p, extent) == (p * 65536) / (extent - 1),
        absolute(0, extent) == 0,
        absolute(extent - 1, extent) == 65536,
        0 <= absolute(p, extent) <= 65536,
{
    assert(0 <= p * 65536) by (nonlinear_arith)
        requires
            p >= 0,
    ;
    assert(((extent - 1) * 65536) / (extent - 1) == 65536) by (nonlinear_arith)
        requires
            extent > 1,
    ;
    assert((p * 65536) / (extent - 1) <= 65536) by (nonlinear_arith)
        requires
            extent > 1,
            0 <= p < extent,
    ;
    assert(0 <= (p * 65536) / (extent - 1)) by (nonlinear_arith)
        requires
            extent > 1,
            0 <= p,
    ;
}

} // verus!

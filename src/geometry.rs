use vstd::prelude::*;
use crate::components::Point;

verus! {

/// Window size, in sub-units.
#[derive(Clone, Copy, Debug, PartialEq, Eq, Structural)]
pub struct WinSize {
    pub w: i64,
    pub h: i64,
}

impl WinSize {
    pub open spec fn wf(&self) -> bool {
        0 < self.w <= crate::units::WIN_LIMIT && 0 < self.h <= crate::units::WIN_LIMIT
    }
}

pub open spec fn abs(v: int) -> int {
    if v < 0 { -v } else { v }
}

/// Two axis-aligned boxes, given by centre and full size, overlap on an
/// axis when twice the distance of their centres is below the sum of sizes.
pub open spec fn overlaps(a: Point, a_w: int, a_h: int, b: Point, b_w: int, b_h: int) -> bool {
    2 * abs(a.x - b.x) < a_w + b_w && 2 * abs(a.y - b.y) < a_h + b_h
}

/// Axis-aligned bounding-box test: the two boxes share interior points.
pub fn collide(a: Point, a_w: i64, a_h: i64, b: Point, b_w: i64, b_h: i64) -> (r: bool)
    requires
        -crate::units::COORD_LIMIT <= a.x <= crate::units::COORD_LIMIT,
        -crate::units::COORD_LIMIT <= a.y <= crate::units::COORD_LIMIT,
        -crate::units::COORD_LIMIT <= b.x <= crate::units::COORD_LIMIT,
        -crate::units::COORD_LIMIT <= b.y <= crate::units::COORD_LIMIT,
        0 <= a_w <= crate::units::COORD_LIMIT,
        0 <= a_h <= crate::units::COORD_LIMIT,
        0 <= b_w <= crate::units::COORD_LIMIT,
        0 <= b_h <= crate::units::COORD_LIMIT,
    ensures
        r == overlaps(a, a_w as int, a_h as int, b, b_w as int, b_h as int),
{
    let dx: i64 = if a.x < b.x { b.x - a.x } else { a.x - b.x };
    let dy: i64 = if a.y < b.y { b.y - a.y } else { a.y - b.y };
    2 * dx < a_w + b_w && 2 * dy < a_h + b_h
}

/// The rectangle of the window widened by the margin on every side.
pub open spec fn inside_margin(win: WinSize, p: Point) -> bool {
    let hw = win.w / 2 + crate::units::MARGIN;
    let hh = win.h / 2 + crate::units::MARGIN;
    -hw <= p.x <= hw && -hh <= p.y <= hh
}

/// A coordinate held within the range the simulation works in.
pub open spec fn spec_clamp(v: int) -> i64 {
    if v < -crate::units::COORD_LIMIT {
        (-crate::units::COORD_LIMIT) as i64
    } else if v > crate::units::COORD_LIMIT {
        crate::units::COORD_LIMIT
    } else {
        v as i64
    }
}

pub open spec fn spec_pin(x: int, y: int) -> Point {
    Point { x: spec_clamp(x), y: spec_clamp(y) }
}

/// A coordinate held within `[-MOVE_LIMIT, MOVE_LIMIT]`.
pub open spec fn spec_clamp_move(v: int) -> i64 {
    if v < -crate::units::MOVE_LIMIT {
        (-crate::units::MOVE_LIMIT) as i64
    } else if v > crate::units::MOVE_LIMIT {
        crate::units::MOVE_LIMIT
    } else {
        v as i64
    }
}

/// `p` lies within the range that movement reaches.
pub open spec fn move_ok(p: Point) -> bool {
    -crate::units::MOVE_LIMIT <= p.x <= crate::units::MOVE_LIMIT
        && -crate::units::MOVE_LIMIT <= p.y <= crate::units::MOVE_LIMIT
}

/// Holds a moved point within the range that movement reaches.
pub fn pin_move(x: i64, y: i64) -> (r: Point)
    ensures
        r == (Point { x: spec_clamp_move(x as int), y: spec_clamp_move(y as int) }),
        move_ok(r),
        coord_ok(r),
{
    let lim = crate::units::MOVE_LIMIT;
    let cx: i64 = if x < -lim { -lim } else if x > lim { lim } else { x };
    let cy: i64 = if y < -lim { -lim } else if y > lim { lim } else { y };
    Point { x: cx, y: cy }
}

pub open spec fn coord_ok(p: Point) -> bool {
    -crate::units::COORD_LIMIT <= p.x <= crate::units::COORD_LIMIT
        && -crate::units::COORD_LIMIT <= p.y <= crate::units::COORD_LIMIT
}

/// Holds a point within the range the simulation works in; points far out
/// stop at its edge instead of overflowing.
pub fn pin(x: i64, y: i64) -> (r: Point)
    ensures
        r == spec_pin(x as int, y as int),
        coord_ok(r),
{
    let lim = crate::units::COORD_LIMIT;
    let cx: i64 = if x < -lim { -lim } else if x > lim { lim } else { x };
    let cy: i64 = if y < -lim { -lim } else if y > lim { lim } else { y };
    Point { x: cx, y: cy }
}

} // verus!

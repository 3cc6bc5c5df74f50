use vstd::prelude::*;
use crate::components::{Movable, Point, Velocity};
use crate::geometry::{coord_ok, inside_margin, move_ok, pin_move, spec_clamp_move, WinSize};
use crate::units::{MARGIN, STEP};

verus! {

/// Position after one tick of travel at the given velocity (travel stops
/// at the edge of the range that movement reaches).
pub open spec fn advanced(p: Point, v: Velocity) -> Point {
    Point { x: spec_clamp_move(p.x + v.x * STEP), y: spec_clamp_move(p.y + v.y * STEP) }
}

/// Whether a body at `p` is removed: it despawns automatically and lies
/// beyond the margin.
pub open spec fn despawns(win: WinSize, m: Movable, p: Point) -> bool {
    m.auto_despawn && !inside_margin(win, p)
}

/// Moves a body by one tick and says whether it is to be despawned.
pub fn move_body(win: &WinSize, v: &Velocity, m: &Movable, p: Point) -> (r: (Point, bool))
    requires
        win.wf(),
        v.wf(),
        coord_ok(p),
    ensures
        r.0 == advanced(p, *v),
        r.1 == despawns(*win, *m, r.0),
        coord_ok(r.0),
        move_ok(r.0),
{
    let np = pin_move(p.x + v.x * STEP, p.y + v.y * STEP);
    let hw: i64 = win.w / 2 + MARGIN;
    let hh: i64 = win.h / 2 + MARGIN;
    let out = np.y > hh || np.y < -hh || np.x > hw || np.x < -hw;
    (np, m.auto_despawn && out)
}

} // verus!

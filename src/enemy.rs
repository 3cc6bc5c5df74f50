use vstd::prelude::*;
use crate::components::Point;
use crate::formation::{Formation, TURN_MICRO};
use crate::geometry::{abs, coord_ok, pin, spec_pin};
use crate::units::{COORD_LIMIT, ENEMY_FIRE_DROP, ENEMY_FIRE_ODDS, ENEMY_MAX, TICKS_PER_SECOND, UNIT};

verus! {

/// Pi, in micro-radians.
pub const PI_MICRO: i64 = 3_141_593;

/// Micro-radians turned per tick, times pi and the smaller radius, per unit
/// of speed: two sub-units per world unit per second over the tick rate,
/// scaled to millionths twice (once for the angle, once for pi).
pub const ANGLE_GAIN: i64 = 12_800_000_000_000;

/// Largest product of a formation speed and `ANGLE_GAIN`.
pub const SPEED_PRODUCT_LIMIT: i64 = 1_280_000_000_000_000_000;

/// Sense of rotation on the orbit: enemies that enter from the left turn
/// one way (+1), those from the right the other (-1).
pub open spec fn spec_turn_dir(f: Formation) -> int {
    if f.start.x < 0 { 1 } else { -1 }
}

pub fn turn_dir(f: &Formation) -> (r: i64)
    ensures
        r == spec_turn_dir(*f),
{
    if f.start.x < 0 { 1 } else { -1 }
}

/// Enemies of a template that enters from the left turn with +1, those of
/// one that enters from the right with -1.
pub proof fn lemma_turn_by_entry_side(win: crate::geometry::WinSize, d: crate::formation::FormationDraws, angle: i64)
    requires
        win.wf(),
    ensures
        spec_turn_dir(crate::formation::spec_template(win, d, angle)) == if d.from_right { -1int } else { 1int },
{
}

pub open spec fn min_radius(f: Formation) -> int {
    if f.radius.x < f.radius.y { f.radius.x as int } else { f.radius.y as int }
}

/// Angle covered in one tick at the formation's speed on a quarter arc of
/// the smaller radius: `speed * dt / (min(rx, ry) * pi / 2)`, in micro-radians.
pub open spec fn angle_step(f: Formation) -> int {
    f.speed * ANGLE_GAIN / (PI_MICRO * min_radius(f))
}

/// Brings an angle within one turn of the range back into it.
pub open spec fn wrap_turn(a: int) -> int {
    if a < 0 { a + TURN_MICRO } else if a >= TURN_MICRO { a - TURN_MICRO } else { a }
}

/// The angle the enemy aims at on this tick, within one turn.
pub open spec fn spec_next_angle(f: Formation) -> int {
    wrap_turn(f.angle + spec_turn_dir(f) * (angle_step(f) % (TURN_MICRO as int)))
}

pub proof fn lemma_next_angle_in_turn(f: Formation)
    requires
        f.wf(),
    ensures
        0 <= spec_next_angle(f) < TURN_MICRO,
{
}

pub fn next_angle(f: &Formation) -> (r: i64)
    requires
        f.wf(),
    ensures
        r == spec_next_angle(*f),
        0 <= r < TURN_MICRO,
{
    let min_r: i64 = if f.radius.x < f.radius.y { f.radius.x } else { f.radius.y };
    assert(0 <= f.speed * ANGLE_GAIN <= SPEED_PRODUCT_LIMIT) by (nonlinear_arith)
        requires 0 <= f.speed <= crate::formation::SPEED_LIMIT;
    assert(0 < PI_MICRO * min_r <= PI_MICRO * crate::units::WIN_LIMIT) by (nonlinear_arith)
        requires 0 < min_r <= crate::units::WIN_LIMIT;
    let step: i64 = f.speed * ANGLE_GAIN / (PI_MICRO * min_r);
    let turn: i64 = step % TURN_MICRO;
    let a: i64 = if f.start.x < 0 { f.angle + turn } else { f.angle - turn };
    if a < 0 { a + TURN_MICRO } else if a >= TURN_MICRO { a - TURN_MICRO } else { a }
}

/// `r` is the integer square root of `n`, rounded down.
pub open spec fn is_floor_sqrt(n: int, r: int) -> bool {
    0 <= r && r * r <= n < (r + 1) * (r + 1)
}

pub open spec fn floor_sqrt(n: int) -> int {
    choose|r: int| is_floor_sqrt(n, r)
}

proof fn lemma_floor_sqrt_unique(n: int, a: int, b: int)
    requires
        is_floor_sqrt(n, a),
        is_floor_sqrt(n, b),
    ensures
        a == b,
{
    if a < b {
        assert((a + 1) * (a + 1) <= b * b) by (nonlinear_arith)
            requires 0 <= a, a + 1 <= b;
    } else if b < a {
        assert((b + 1) * (b + 1) <= a * a) by (nonlinear_arith)
            requires 0 <= b, b + 1 <= a;
    }
}

/// Integer square root, rounded down.
pub fn isqrt(n: u64) -> (r: u64)
    ensures
        r == floor_sqrt(n as int),
        is_floor_sqrt(n as int, r as int),
        r < 4_294_967_296,
{
    let mut lo: u64 = 0;
    let mut hi: u64 = 4_294_967_296;
    assert(n < hi * hi);
    while hi - lo > 1
        invariant
            lo < hi <= 4_294_967_296,
            lo * lo <= n,
            n < hi * hi,
        decreases hi - lo,
    {
        let mid: u64 = lo + (hi - lo) / 2;
        assert(mid * mid <= 4_294_967_296 * 4_294_967_296) by (nonlinear_arith)
            requires mid <= 4_294_967_296;
        let sq: u128 = mid as u128 * mid as u128;
        if sq <= n as u128 {
            lo = mid;
        } else {
            hi = mid;
        }
    }
    assert(hi == lo + 1);
    proof {
        assert(is_floor_sqrt(n as int, lo as int));
        let c = floor_sqrt(n as int);
        assert(is_floor_sqrt(n as int, c));
        lemma_floor_sqrt_unique(n as int, lo as int, c);
    }
    lo
}

/// Longest move of one tick, in sub-units.
pub open spec fn max_step(f: Formation) -> int {
    f.speed * UNIT / (TICKS_PER_SECOND as int)
}

/// Whether a distance `dist` (in sub-units) is below the lock distance
/// `dt * speed * speed / 20` (in world units), compared without rounding.
pub open spec fn within_lock(f: Formation, dist: int) -> bool {
    20 * TICKS_PER_SECOND * dist < f.speed * f.speed * UNIT
}

/// Squared distance from `p` to `t`.
pub open spec fn dist_sq(p: Point, t: Point) -> int {
    (p.x - t.x) * (p.x - t.x) + (p.y - t.y) * (p.y - t.y)
}

/// Move along one axis from `c` towards `t`: the share `d / dist` of the
/// longest step, never beyond `t`.
pub open spec fn axis_move(c: int, t: int, dist: int, step: int) -> int {
    let d = abs(c - t);
    let m = if dist <= 0 { 0 } else { d * step / dist };
    if c - t > 0 {
        if c - m > t { c - m } else { t }
    } else {
        if c + m < t { c + m } else { t }
    }
}

/// Position after one tick of flight towards the target `t`.
pub open spec fn spec_step(p: Point, f: Formation, t: Point) -> Point {
    let dist = floor_sqrt(dist_sq(p, t));
    Point {
        x: axis_move(p.x as int, t.x as int, dist, max_step(f)) as i64,
        y: axis_move(p.y as int, t.y as int, dist, max_step(f)) as i64,
    }
}

/// Whether the enemy at `p` is close enough to `t` to follow its orbit.
pub open spec fn spec_locked(p: Point, f: Formation, t: Point) -> bool {
    within_lock(f, floor_sqrt(dist_sq(p, t)))
}

/// The formation after one tick: the angle moves on only once locked.
pub open spec fn spec_after(p: Point, f: Formation, t: Point) -> Formation {
    if spec_locked(p, f, t) {
        Formation { angle: spec_next_angle(f) as i64, ..f }
    } else {
        f
    }
}

fn axis_step(c: i64, t: i64, dist: u64, step: i64) -> (r: i64)
    requires
        -COORD_LIMIT <= c <= COORD_LIMIT,
        -COORD_LIMIT <= t <= COORD_LIMIT,
        0 <= step <= 1_000_000,
        dist < 4_294_967_296,
    ensures
        r == axis_move(c as int, t as int, dist as int, step as int),
{
    let d: i64 = if c > t { c - t } else { t - c };
    let m: i64 = if dist == 0 {
        0
    } else {
        assert(0 <= d * step <= 2 * COORD_LIMIT * 1_000_000) by (nonlinear_arith)
            requires 0 <= d <= 2 * COORD_LIMIT, 0 <= step <= 1_000_000;
        let p: i64 = d * step;
        assert((p as int) / (dist as int) <= p) by (nonlinear_arith)
            requires 0 <= p, dist >= 1;
        p / (dist as i64)
    };
    if c - t > 0 {
        if c - m > t { c - m } else { t }
    } else {
        if c + m < t { c + m } else { t }
    }
}

/// One tick of an enemy's flight: from `p` towards the target `t`, the point
/// of its orbit at the angle `spec_next_angle(f)`, computed by the caller.
/// Returns the new position and the formation, whose angle is committed only
/// when the enemy was within the lock distance of `t`.
pub fn advance(p: Point, f: &Formation, t: Point) -> (r: (Point, Formation))
    requires
        f.wf(),
        coord_ok(p),
        coord_ok(t),
    ensures
        r.0 == spec_step(p, *f, t),
        r.1 == spec_after(p, *f, t),
        r.1.wf(),
        coord_ok(r.0),
{
    let dx: u64 = if p.x > t.x { (p.x - t.x) as u64 } else { (t.x - p.x) as u64 };
    let dy: u64 = if p.y > t.y { (p.y - t.y) as u64 } else { (t.y - p.y) as u64 };
    assert(dx * dx <= 4 * COORD_LIMIT * COORD_LIMIT) by (nonlinear_arith)
        requires dx <= 2 * COORD_LIMIT;
    assert(dy * dy <= 4 * COORD_LIMIT * COORD_LIMIT) by (nonlinear_arith)
        requires dy <= 2 * COORD_LIMIT;
    let n: u64 = dx * dx + dy * dy;
    assert(n == dist_sq(p, t)) by (nonlinear_arith)
        requires
            dx == abs(p.x - t.x),
            dy == abs(p.y - t.y),
            n == dx * dx + dy * dy;
    let dist = isqrt(n);
    assert(0 <= f.speed * UNIT <= crate::formation::SPEED_LIMIT * UNIT) by (nonlinear_arith)
        requires 0 <= f.speed <= crate::formation::SPEED_LIMIT;
    let step: i64 = f.speed * UNIT / TICKS_PER_SECOND;
    assert(0 <= f.speed * f.speed * UNIT <= crate::formation::SPEED_LIMIT * crate::formation::SPEED_LIMIT * UNIT) by (nonlinear_arith)
        requires 0 <= f.speed <= crate::formation::SPEED_LIMIT;
    let x = axis_step(p.x, t.x, dist, step);
    let y = axis_step(p.y, t.y, dist, step);
    let lock: i64 = f.speed * f.speed * UNIT;
    let mut nf = *f;
    if 20 * TICKS_PER_SECOND * (dist as i64) < lock {
        nf.angle = next_angle(f);
    }
    (Point { x, y }, nf)
}

/// An enemy that stands on its target, at any positive speed, stays there
/// and locks on: its angle moves on to the one it aimed at.
pub proof fn lemma_on_target_locks(p: Point, f: Formation)
    requires
        f.wf(),
        f.speed > 0,
        coord_ok(p),
    ensures
        spec_step(p, f, p) == p,
        spec_locked(p, f, p),
{
    assert(dist_sq(p, p) == 0);
    assert(is_floor_sqrt(0, 0));
    let c = floor_sqrt(0);
    lemma_floor_sqrt_unique(0, 0, c);
    assert(f.speed * f.speed * UNIT > 0) by (nonlinear_arith) requires f.speed > 0;
}

/// A step never takes an enemy farther from this tick's target on either
/// axis, so its distance to that point of the orbit never grows.
pub proof fn lemma_step_never_recedes(p: Point, f: Formation, t: Point)
    requires
        f.wf(),
        coord_ok(p),
        coord_ok(t),
    ensures
        abs(spec_step(p, f, t).x - t.x) <= abs(p.x - t.x),
        abs(spec_step(p, f, t).y - t.y) <= abs(p.y - t.y),
        dist_sq(spec_step(p, f, t), t) <= dist_sq(p, t),
{
    let dist = floor_sqrt(dist_sq(p, t));
    let s = max_step(f);
    assert(s >= 0) by (nonlinear_arith) requires f.speed >= 0, s == f.speed * UNIT / (TICKS_PER_SECOND as int);
    lemma_axis_move(p.x as int, t.x as int, dist, s);
    lemma_axis_move(p.y as int, t.y as int, dist, s);
    let q = spec_step(p, f, t);
    let ax = abs(q.x - t.x);
    let bx = abs(p.x - t.x);
    let ay = abs(q.y - t.y);
    let by_ = abs(p.y - t.y);
    assert(ax * ax <= bx * bx) by (nonlinear_arith) requires 0 <= ax <= bx;
    assert(ay * ay <= by_ * by_) by (nonlinear_arith) requires 0 <= ay <= by_;
    assert((q.x - t.x) * (q.x - t.x) == ax * ax) by (nonlinear_arith) requires ax == abs(q.x - t.x);
    assert((p.x - t.x) * (p.x - t.x) == bx * bx) by (nonlinear_arith) requires bx == abs(p.x - t.x);
    assert((q.y - t.y) * (q.y - t.y) == ay * ay) by (nonlinear_arith) requires ay == abs(q.y - t.y);
    assert((p.y - t.y) * (p.y - t.y) == by_ * by_) by (nonlinear_arith) requires by_ == abs(p.y - t.y);
}

proof fn lemma_axis_move(c: int, t: int, dist: int, step: int)
    requires
        step >= 0,
    ensures
        abs(axis_move(c, t, dist, step) - t) <= abs(c - t),
{
    let d = abs(c - t);
    if dist > 0 {
        assert(d * step / dist >= 0) by (nonlinear_arith) requires d >= 0, step >= 0, dist > 0;
    }
}

/// An enemy is spawned on a spawn tick while fewer than the most are alive.
pub fn spawn_allowed(enemy_count: u32) -> (r: bool)
    ensures
        r == (enemy_count < ENEMY_MAX),
{
    enemy_count < ENEMY_MAX
}

/// Whether the enemies fire on this tick: a one-in-sixty gate, drawn once
/// for all enemies together.
pub fn fire_gate() -> bool {
    crate::random::chance(1, ENEMY_FIRE_ODDS)
}

/// Where an enemy at `p` releases its laser: just below itself (held
/// within the coordinate range, as every position is).
pub open spec fn spec_fire_point(p: Point) -> Point {
    spec_pin(p.x as int, p.y - ENEMY_FIRE_DROP)
}

pub fn fire_point(p: Point) -> (r: Point)
    requires
        coord_ok(p),
    ensures
        r == spec_fire_point(p),
        coord_ok(r),
{
    pin(p.x, p.y - ENEMY_FIRE_DROP)
}

} // verus!

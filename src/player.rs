use vstd::prelude::*;
use crate::components::{Point, Velocity};
use crate::geometry::{coord_ok, pin, spec_pin, WinSize};
use crate::units::{COORD_LIMIT, FIRE_X_OFFSET, FIRE_Y_OFFSET, PLAYER_RESPAWN_DELAY_MS, PLAYER_SPAWN_LIFT};

verus! {

/// Whether the player lives, and when it was last shot (in milliseconds;
/// minus one second when it has not been shot since it last spawned).
#[derive(Clone, Copy, Debug, PartialEq, Eq, Structural)]
pub struct PlayerState {
    pub alive: bool,
    pub last_shot_ms: i64,
}

/// Value of `last_shot_ms` for a player that has not been shot.
pub const NEVER_SHOT_MS: i64 = -1000;

impl PlayerState {
    /// The state before the first spawn: no player, shot long ago.
    pub fn new() -> (r: PlayerState)
        ensures
            !r.alive,
            r.last_shot_ms == NEVER_SHOT_MS,
    {
        PlayerState { alive: false, last_shot_ms: NEVER_SHOT_MS }
    }

    /// Records the player's death at `now_ms`.
    pub fn shot(&mut self, now_ms: i64)
        ensures
            !final(self).alive,
            final(self).last_shot_ms == now_ms,
    {
        self.alive = false;
        self.last_shot_ms = now_ms;
    }

    /// Records a fresh spawn of the player.
    pub fn spawned(&mut self)
        ensures
            final(self).alive,
            final(self).last_shot_ms == NEVER_SHOT_MS,
    {
        self.alive = true;
        self.last_shot_ms = NEVER_SHOT_MS;
    }

    pub open spec fn spec_respawn_due(&self, now_ms: int) -> bool {
        !self.alive && now_ms - self.last_shot_ms >= PLAYER_RESPAWN_DELAY_MS
    }

    /// Whether a dead player is to be respawned at `now_ms`.
    pub fn respawn_due(&self, now_ms: i64) -> (r: bool)
        ensures
            r == self.spec_respawn_due(now_ms as int),
    {
        !self.alive && now_ms as i128 - self.last_shot_ms as i128 >= PLAYER_RESPAWN_DELAY_MS as i128
    }
}

/// Horizontal direction from the arrow keys: left wins over right.
pub open spec fn spec_keyboard_x(left: bool, right: bool) -> int {
    if left { -1 } else if right { 1 } else { 0 }
}

/// Velocity of the player for the keys held; it never moves vertically.
pub fn keyboard_velocity(left: bool, right: bool) -> (r: Velocity)
    ensures
        r.x == spec_keyboard_x(left, right),
        r.y == 0,
        r.wf(),
{
    let x: i64 = if left { -1 } else if right { 1 } else { 0 };
    Velocity { x, y: 0 }
}

/// Where the player (re)spawns: centred, just above the bottom edge.
pub open spec fn spec_spawn_point(win: WinSize) -> Point {
    Point { x: 0, y: (-(win.h / 2) + PLAYER_SPAWN_LIFT) as i64 }
}

pub fn spawn_point(win: &WinSize) -> (r: Point)
    requires
        win.wf(),
    ensures
        r == spec_spawn_point(*win),
{
    Point { x: 0, y: -(win.h / 2) + PLAYER_SPAWN_LIFT }
}

/// The two lasers of one shot, right then left of a ship at `p`.
/// (Held within the coordinate range, as every position is.)
pub open spec fn spec_fire_points(p: Point) -> (Point, Point) {
    (
        spec_pin(p.x + FIRE_X_OFFSET, p.y + FIRE_Y_OFFSET),
        spec_pin(p.x - FIRE_X_OFFSET, p.y + FIRE_Y_OFFSET),
    )
}

/// Within the coordinate range the two lasers stand exactly ten world units
/// right and left of the ship, and the offset above it.
pub proof fn lemma_fire_points_exact(p: Point)
    requires
        -COORD_LIMIT + FIRE_X_OFFSET <= p.x <= COORD_LIMIT - FIRE_X_OFFSET,
        -COORD_LIMIT <= p.y <= COORD_LIMIT - FIRE_Y_OFFSET,
    ensures
        spec_fire_points(p).0 == (Point { x: (p.x + FIRE_X_OFFSET) as i64, y: (p.y + FIRE_Y_OFFSET) as i64 }),
        spec_fire_points(p).1 == (Point { x: (p.x - FIRE_X_OFFSET) as i64, y: (p.y + FIRE_Y_OFFSET) as i64 }),
{
}

pub fn fire_points(p: Point) -> (r: (Point, Point))
    requires
        -COORD_LIMIT <= p.x <= COORD_LIMIT,
        -COORD_LIMIT <= p.y <= COORD_LIMIT,
    ensures
        r == spec_fire_points(p),
        coord_ok(r.0),
        coord_ok(r.1),
{
    (
        pin(p.x + FIRE_X_OFFSET, p.y + FIRE_Y_OFFSET),
        pin(p.x - FIRE_X_OFFSET, p.y + FIRE_Y_OFFSET),
    )
}

} // verus!

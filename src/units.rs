use vstd::prelude::*;

verus! {

/// Sub-units per world unit.
pub const UNIT: i64 = 384;

/// Simulation ticks per second (the fixed timestep is a sixtieth of a second).
pub const TICKS_PER_SECOND: i64 = 60;

/// Global speed gain, in world units per second.
pub const BASE_SPEED: i64 = 500;

/// Distance covered in one tick at unit velocity and base speed, in sub-units.
pub const STEP: i64 = 3200;

/// Off-screen margin beyond which auto-despawn bodies are removed.
pub const MARGIN: i64 = 200 * UNIT;

/// Largest coordinate magnitude a body may reach; keeps every sum in range.
pub const COORD_LIMIT: i64 = 1_000_000_000;

/// Largest coordinate magnitude that movement reaches: a hundred world units
/// inside `COORD_LIMIT`, so that what a moving ship spawns stays in range.
pub const MOVE_LIMIT: i64 = 999_961_600;

/// Largest window extent accepted, in sub-units.
pub const WIN_LIMIT: i64 = 100_000_000;

/// Full size of a player laser's hit box (sprite size times sprite scale).
pub const PLAYER_LASER_HIT_W: i64 = 1728;
pub const PLAYER_LASER_HIT_H: i64 = 10368;

/// Full size of an enemy laser's hit box.
pub const ENEMY_LASER_HIT_W: i64 = 1728;
pub const ENEMY_LASER_HIT_H: i64 = 10368;

/// Full size of an enemy's hit box: sprite size, times the enemy scale of a
/// quarter, times the factor of one hundred that collisions apply to targets.
pub const ENEMY_HIT_W: i64 = 14400;
pub const ENEMY_HIT_H: i64 = 7500;

/// Full size of the player's hit box: sprite size, times the player scale of
/// a half, times the same target factor of one hundred.
pub const PLAYER_HIT_W: i64 = 28800;
pub const PLAYER_HIT_H: i64 = 15000;

/// Height of the player's spawn point above the bottom edge: half the scaled
/// sprite height plus fifty world units.
pub const PLAYER_SPAWN_LIFT: i64 = 75 + 50 * UNIT;

/// Offsets of the two player lasers from the ship.
pub const FIRE_X_OFFSET: i64 = 10 * UNIT;
pub const FIRE_Y_OFFSET: i64 = 288 + 75 * UNIT;

/// Drop of an enemy laser below the enemy that fires it.
pub const ENEMY_FIRE_DROP: i64 = 15 * UNIT;

/// Depth of drawn layers.
pub const SHIP_Z: i64 = 10 * UNIT;

/// Most enemies alive at once.
pub const ENEMY_MAX: u32 = 2;

/// Enemies that share one formation template.
pub const FORMATION_MEMBERS_MAX: u32 = 2;

/// Delay between the player's death and its respawn, in milliseconds.
pub const PLAYER_RESPAWN_DELAY_MS: i64 = 2000;

/// Frames of the explosion animation and the period of one frame.
pub const EXPLOSION_LEN: u32 = 16;
pub const EXPLOSION_PERIOD_MS: i64 = 50;

/// Milliseconds between two enemy spawns.
pub const ENEMY_SPAWN_PERIOD_MS: i64 = 1000;

/// Odds of the enemy fire gate opening on one tick: one in sixty.
pub const ENEMY_FIRE_ODDS: u32 = 60;

} // verus!

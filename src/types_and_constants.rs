use vstd::prelude::*;

verus! {

// World lengths are measured in micro-pixels and time in milliseconds, so that
// a velocity is in micro-pixels per millisecond (thousandths of a pixel per
// second) and an acceleration in micro-pixels per square millisecond. With
// these units the integrator needs no division.

/// Length units in one pixel.
pub const UNITS_PER_PIXEL: i64 = 1_000_000;

/// Screen size in world units: width, height.
pub type Screen2 = (i64, i64);

pub const SCREEN: Screen2 = (1_800_000_000, 1_200_000_000);

pub const SCREEN_HALF_WIDTH: i64 = 900_000_000;

pub const GROUND_Y_COORD: i64 = -500_000_000;

pub const JUMP_VELOCITY: i64 = 1_150_000;

pub const DINO_GRAVITY: i64 = -3_800;

pub const START_SCROLL_SPEED: i64 = 700_000;

pub const MAX_SCROLL_SPEED: i64 = 2_100_000;

/// Minimal delay between two obstacle spawns, in milliseconds.
pub const CACTUS_MIN_DELAY: u64 = 700;

/// Exclusive upper bound of the random delay added to each spawn, in milliseconds.
pub const SPAWN_JITTER: u32 = 1_300;

pub const PTERO_SPEED: i64 = 100_000;

/// Increase of the scroll speed per second of game time.
pub const SCROLL_ACCEL: i64 = 5_500;

pub const NUM_OF_COLLIDERS: usize = 2;

pub const SHOW_COLLIDERS: bool = false;

pub const PAUSE_ENABLED: bool = true;

pub const DESIRED_FPS: u32 = 60;

pub const RNG_DEFAULT_SEED: u64 = 69420;

/// Times (in milliseconds) below this bound leave room for every delay that is added to them.
pub const TIME_LIMIT: u64 = 0x1000_0000_0000_0000;

/// Bound on the coordinates of collider extents and offsets, so that their sums fit in `i64`.
pub const EXTENT_LIMIT: i64 = 0x3fff_ffff_ffff_ffff;

} // verus!

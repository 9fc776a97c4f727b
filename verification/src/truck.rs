//! Truck controller: turns the keys held during one tick into a heading
//! change, a displacement, and the backup-alarm state transitions.

use vstd::prelude::*;

verus! {

/// Forward speed of the truck, in world units per second.
pub const TRUCK_SPEED: i64 = 200;

/// Turning rate of the truck, in radians per second.
pub const ROTATION_SPEED: i64 = 3;

/// Fixed-point scale: heading units per radian.
pub const ANGLE_SCALE: i64 = 1_000_000;

/// Fixed-point scale of a unit direction vector: a component of
/// `(sin heading, cos heading)` is handed in multiplied by this.
pub const DIR_SCALE: i64 = 1_000_000;

pub const MILLIS_PER_SECOND: i64 = 1000;

/// Largest time step accepted for one tick, in milliseconds (one hour).
pub const MAX_TICK_MILLIS: u32 = 3_600_000;

/// Largest coordinate magnitude the simulation accepts for the truck and
/// the camera; keeps every position computation inside `i64`.
pub const POS_CAP: i64 = 1_099_511_627_776;

/// Bound on the heading magnitude under which one tick's turn cannot
/// overflow. The heading itself is never normalized.
pub const HEADING_CAP: i64 = 1_152_921_504_606_846_976;

/// The player's truck: a position in world units and a heading in
/// fixed-point angle units (`ANGLE_SCALE` per radian), where 0 points up
/// and the angle grows clockwise.
pub struct Truck {
    pub x: i64,
    pub y: i64,
    pub direction: i64,
}

/// The keys held (and, for `quit`, freshly pressed) during one tick.
pub struct TruckInput {
    pub left: bool,
    pub right: bool,
    pub forward: bool,
    pub reverse: bool,
    pub quit: bool,
}

/// Turn direction selected by the keys: +1 clockwise, -1 counterclockwise.
pub open spec fn turn_input(input: TruckInput) -> int {
    (if input.right { 1int } else { 0int }) - (if input.left { 1int } else { 0int })
}

/// Acceleration selected by the keys, in halves of `TRUCK_SPEED`:
/// forward drives at full speed (+2 halves), reverse at half speed
/// backwards (-1 half); both keys together add up.
pub open spec fn accel_halves(input: TruckInput) -> int {
    (if input.forward { 2int } else { 0int }) + (if input.reverse { -1int } else { 0int })
}

/// Truncating division (rounds toward zero), matching the executable `/`.
pub open spec fn div_trunc(a: int, b: int) -> int
    recommends
        b > 0,
{
    if a >= 0 {
        a / b
    } else {
        -((-a) / b)
    }
}

/// Displacement on one axis for one tick: the fixed-point direction
/// component times the selected acceleration times `TRUCK_SPEED`, scaled
/// by the elapsed milliseconds and rounded toward zero.
pub open spec fn displacement(dir: int, halves: int, dt_ms: int) -> int {
    div_trunc(dir * halves * TRUCK_SPEED * dt_ms, 2 * DIR_SCALE * MILLIS_PER_SECOND)
}

impl Truck {
    /// Update the heading from the turn keys. The heading is a plain sum:
    /// it grows or shrinks without ever being reduced modulo a full turn.
    pub fn steer(&mut self, input: &TruckInput, dt_ms: u32)
        requires
            dt_ms <= MAX_TICK_MILLIS,
            -HEADING_CAP <= old(self).direction <= HEADING_CAP,
        ensures
            final(self).direction == old(self).direction + ROTATION_SPEED * turn_input(*input)
                * (ANGLE_SCALE / MILLIS_PER_SECOND) * dt_ms,
            final(self).x == old(self).x,
            final(self).y == old(self).y,
    {
        let turn: i64 = (if input.right { 1i64 } else { 0i64 }) - (if input.left {
            1i64
        } else {
            0i64
        });
        let step: i64 = ROTATION_SPEED * (ANGLE_SCALE / MILLIS_PER_SECOND) * (dt_ms as i64);
        let delta: i64 = if turn == 1 {
            step
        } else if turn == -1 {
            -step
        } else {
            0
        };
        proof {
            let t = turn_input(*input);
            assert(t == turn as int);
            assert(delta == ROTATION_SPEED * t * (ANGLE_SCALE / MILLIS_PER_SECOND) * dt_ms)
                by (nonlinear_arith)
                requires
                    -1 <= t <= 1,
                    delta == (if t == 1 {
                        step as int
                    } else if t == -1 {
                        -(step as int)
                    } else {
                        0int
                    }),
                    step == ROTATION_SPEED * (ANGLE_SCALE / MILLIS_PER_SECOND) * dt_ms,
                    ROTATION_SPEED == 3,
                    ANGLE_SCALE == 1_000_000,
                    MILLIS_PER_SECOND == 1000,
            ;
        }
        self.direction = self.direction + delta;
    }

    /// Move the truck along the supplied fixed-point forward vector
    /// (`DIR_SCALE`-scaled components of `(sin heading, cos heading)`),
    /// scaled by the acceleration the keys select and the elapsed time.
    pub fn drive(&mut self, input: &TruckInput, dir_x: i64, dir_y: i64, dt_ms: u32)
        requires
            dt_ms <= MAX_TICK_MILLIS,
            -DIR_SCALE <= dir_x <= DIR_SCALE,
            -DIR_SCALE <= dir_y <= DIR_SCALE,
            -POS_CAP <= old(self).x <= POS_CAP,
            -POS_CAP <= old(self).y <= POS_CAP,
        ensures
            final(self).x == old(self).x + displacement(
                dir_x as int,
                accel_halves(*input),
                dt_ms as int,
            ),
            final(self).y == old(self).y + displacement(
                dir_y as int,
                accel_halves(*input),
                dt_ms as int,
            ),
            final(self).direction == old(self).direction,
    {
        let halves: i64 = (if input.forward { 2i64 } else { 0i64 }) + (if input.reverse {
            -1i64
        } else {
            0i64
        });
        let dx = scaled_step(dir_x, halves, dt_ms);
        let dy = scaled_step(dir_y, halves, dt_ms);
        proof {
            lemma_displacement_bound(dir_x as int, accel_halves(*input), dt_ms as int);
            lemma_displacement_bound(dir_y as int, accel_halves(*input), dt_ms as int);
        }
        self.x = self.x + dx;
        self.y = self.y + dy;
    }
}

/// One axis of the movement product, divided back to world units.
fn scaled_step(dir: i64, halves: i64, dt_ms: u32) -> (d: i64)
    requires
        dt_ms <= MAX_TICK_MILLIS,
        -DIR_SCALE <= dir <= DIR_SCALE,
        -1 <= halves <= 2,
    ensures
        d == displacement(dir as int, halves as int, dt_ms as int),
{
    proof {
        lemma_movement_product_bound(dir as int, halves as int, dt_ms as int);
    }
    let num: i64 = dir * halves * TRUCK_SPEED * (dt_ms as i64);
    let denom: u64 = (2 * DIR_SCALE * MILLIS_PER_SECOND) as u64;
    if num >= 0 {
        ((num as u64) / denom) as i64
    } else {
        -((((-num) as u64) / denom) as i64)
    }
}

/// The movement product of one axis stays well inside `i64`.
proof fn lemma_movement_product_bound(dir: int, halves: int, dt_ms: int)
    by (nonlinear_arith)
    requires
        -DIR_SCALE <= dir <= DIR_SCALE,
        -1 <= halves <= 2,
        0 <= dt_ms <= MAX_TICK_MILLIS,
        DIR_SCALE == 1_000_000,
        TRUCK_SPEED == 200,
        MAX_TICK_MILLIS == 3_600_000,
    ensures
        -2_000_000 <= dir * halves <= 2_000_000,
        -400_000_000 <= dir * halves * TRUCK_SPEED <= 400_000_000,
        -1_440_000_000_000_000 <= dir * halves * TRUCK_SPEED * dt_ms <= 1_440_000_000_000_000,
{
}

/// Farthest the truck can travel on one axis in one tick, in world units.
pub const MAX_TICK_DISTANCE: i64 = 720_000;

/// A tick's displacement is at most the distance covered at full speed.
pub proof fn lemma_displacement_bound(dir: int, halves: int, dt_ms: int)
    requires
        -DIR_SCALE <= dir <= DIR_SCALE,
        -1 <= halves <= 2,
        0 <= dt_ms <= MAX_TICK_MILLIS,
    ensures
        -MAX_TICK_DISTANCE <= displacement(dir, halves, dt_ms) <= MAX_TICK_DISTANCE,
{
    lemma_movement_product_bound(dir, halves, dt_ms);
    let num = dir * halves * TRUCK_SPEED * dt_ms;
    let denom = 2 * DIR_SCALE * MILLIS_PER_SECOND;
    assert(denom == 2_000_000_000);
    if num >= 0 {
        assert(num / denom <= 720_000) by (nonlinear_arith)
            requires
                0 <= num <= 1_440_000_000_000_000,
                denom == 2_000_000_000,
        ;
    } else {
        assert((-num) / denom <= 720_000) by (nonlinear_arith)
            requires
                0 <= -num <= 1_440_000_000_000_000,
                denom == 2_000_000_000,
        ;
    }
}

/// Keeps the looping backup alarm: exactly one alarm plays while the truck
/// reverses, and the loop is started and stopped only on the transitions.
pub struct BackupAudioController {
    pub active: bool,
}

impl BackupAudioController {
    /// Advance the alarm state for one tick. Returns whether an alarm
    /// loop must start and whether the playing one must stop.
    pub fn update(&mut self, reversing: bool) -> (r: (bool, bool))
        ensures
            final(self).active == reversing,
            r.0 == (reversing && !old(self).active),
            r.1 == (!reversing && old(self).active),
    {
        let started = reversing && !self.active;
        let stopped = !reversing && self.active;
        self.active = reversing;
        (started, stopped)
    }
}

} // verus!

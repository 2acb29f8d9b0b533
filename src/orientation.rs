//! The orientation controller: turning an attacker about the vertical axis
//! toward its target. Bearings are in milliradians, in `0..FULL_TURN`.
use vstd::prelude::*;

verus! {

/// A full turn, in milliradians.
pub const FULL_TURN: i64 = 6283;

/// Below this difference the attacker snaps straight to the target bearing.
pub const SNAP_THRESHOLD: i64 = 150;

/// Turning rate, in milliradians per millisecond (eight radians a second).
pub const ROTATION_RATE: i64 = 8;

pub open spec fn bearing_ok(b: i64) -> bool {
    0 <= b < FULL_TURN
}

/// The shortest signed turn from bearing `from` to bearing `to`, in
/// `(-FULL_TURN / 2, FULL_TURN / 2]`.
pub open spec fn signed_diff(from: int, to: int) -> int {
    let d = (to - from) % (FULL_TURN as int);
    if d > FULL_TURN / 2 {
        d - FULL_TURN
    } else {
        d
    }
}

pub open spec fn abs_int(x: int) -> int {
    if x >= 0 { x } else { -x }
}

/// The bearing after a tick of `dt` milliseconds: the target bearing if it is
/// within the snap threshold, else `facing` turned toward it by the rate times
/// `dt`, never past it.
pub open spec fn turned(facing: i64, target: i64, dt: u32) -> int {
    let d = signed_diff(facing as int, target as int);
    let step = ROTATION_RATE * dt;
    if abs_int(d) < SNAP_THRESHOLD || abs_int(d) <= step {
        target as int
    } else if d > 0 {
        (facing + step) % (FULL_TURN as int)
    } else {
        (facing - step) % (FULL_TURN as int)
    }
}

/// Turns an attacker's bearing toward the bearing of its target. Unless it
/// lands on the target bearing, the shortest turn still left shrinks by
/// exactly the rate times `dt`.
pub fn tower_rotation(facing: i64, target: i64, dt: u32) -> (r: i64)
    requires
        bearing_ok(facing),
        bearing_ok(target),
    ensures
        r == turned(facing, target, dt),
        bearing_ok(r),
        r == target || signed_diff(r as int, target as int) == signed_diff(facing as int, target as int) - (
        if signed_diff(facing as int, target as int) > 0 {
            ROTATION_RATE * dt
        } else {
            -ROTATION_RATE * dt
        }),
{
    let mut d: i64 = target - facing;
    if d < 0 {
        d = d + FULL_TURN;
    }
    assert(d == (target - facing) % (FULL_TURN as int));
    if d > FULL_TURN / 2 {
        d = d - FULL_TURN;
    }
    let mag: i64 = if d >= 0 { d } else { -d };
    let step: i64 = ROTATION_RATE * dt as i64;
    if mag < SNAP_THRESHOLD || mag <= step {
        return target;
    }
    if d > 0 {
        let mut r: i64 = facing + step;
        if r >= FULL_TURN {
            r = r - FULL_TURN;
        }
        assert(r == (facing + step) % (FULL_TURN as int));
        r
    } else {
        let mut r: i64 = facing - step;
        if r < 0 {
            r = r + FULL_TURN;
        }
        assert(r == (facing - step) % (FULL_TURN as int));
        r
    }
}

} // verus!

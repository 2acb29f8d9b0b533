//! The firing controller: cooldown, the facing gate, and the projectile an
//! attacker launches at its target.
use vstd::prelude::*;
use crate::acquisition::Tower;
use crate::geometry::{
    Vec3i, WORLD_LIMIT, aligned_spec, bounded, diff_spec, is_facing, is_isqrt, isqrt, isqrt_spec,
    norm_sq_spec, raise_spec, scale_div, scaled_spec,
};
use crate::projectile::{MAX_SPEED, POSITION_CAP, PROJECTILE_LIFETIME, Projectile};

verus! {

/// Height above an attacker's origin where projectiles leave, in centimetres.
pub const MUZZLE_RISE: i64 = 50;

/// Height above an agent's origin that attackers aim at, in centimetres.
pub const AIM_RISE: i64 = 50;

/// The visual a projectile is shown with.
#[derive(Clone, Copy, Debug, PartialEq, Eq, Structural)]
pub enum ProjectileModel {
    Popcorn,
    RoastedCorn,
}

#[derive(Clone, Copy, Debug, PartialEq, Eq, Structural)]
pub enum FireError {
    /// The attacker's prefab has no projectile visual: missing content.
    UnknownArchetype,
}

/// The projectile visual for an attacker's prefab name.
pub open spec fn model_of(prefab: Seq<char>) -> Option<ProjectileModel> {
    if prefab == "gun_tower"@ {
        Some(ProjectileModel::Popcorn)
    } else if prefab == "cannon_tower"@ {
        Some(ProjectileModel::RoastedCorn)
    } else {
        None
    }
}

/// Maps an attacker's prefab name to the visual of its projectiles.
pub fn projectile_model(prefab: &String) -> (r: Result<ProjectileModel, FireError>)
    ensures
        r == (match model_of(prefab@) {
            Some(m) => Ok(m),
            None => Err(FireError::UnknownArchetype),
        }),
{
    if *prefab == "gun_tower".to_owned() {
        Ok(ProjectileModel::Popcorn)
    } else if *prefab == "cannon_tower".to_owned() {
        Ok(ProjectileModel::RoastedCorn)
    } else {
        Err(FireError::UnknownArchetype)
    }
}

/// The cooldown after a tick of `dt` milliseconds: it runs down while above
/// zero and then stays where it stopped.
pub open spec fn ticked(remaining: i64, dt: u32) -> int {
    if remaining > 0 {
        remaining - dt
    } else {
        remaining as int
    }
}

pub fn tick_cooldown(remaining: i64, dt: u32) -> (r: i64)
    ensures
        r == ticked(remaining, dt),
{
    if remaining > 0 {
        remaining - dt as i64
    } else {
        remaining
    }
}

/// The cooldown never falls further below zero than the longest tick: if it
/// is no lower than `-max_dt` and the tick lasts at most `max_dt`, the same
/// holds after the tick, and after a reset to the attacker's reload time.
pub proof fn lemma_cooldown_floor(remaining: i64, dt: u32, max_dt: u32, reload: u32)
    requires
        remaining >= -(max_dt as int),
        dt <= max_dt,
    ensures
        ticked(remaining, dt) >= -(max_dt as int),
        remaining > 0 ==> ticked(remaining, dt) > -(dt as int),
        reload as int >= -(max_dt as int),
{
}

/// Velocity of a projectile sent along `d` at `speed`: the direction scaled
/// to that length, each component rounded toward zero. A zero direction,
/// where the muzzle sits on the aim point, gives a projectile at rest.
pub open spec fn shot_velocity(d: Vec3i, speed: u32) -> Vec3i {
    let n = isqrt_spec(norm_sq_spec(d));
    if norm_sq_spec(d) == 0 {
        Vec3i { x: 0, y: 0, z: 0 }
    } else {
        Vec3i {
        x: scaled_spec(d.x as int, speed as int, n) as i64,
        y: scaled_spec(d.y as int, speed as int, n) as i64,
        z: scaled_spec(d.z as int, speed as int, n) as i64,
        }
    }
}

/// The projectile an attacker at `tower_pos` fires at an agent at `target_pos`.
pub open spec fn fired_projectile(tower: Tower, tower_pos: Vec3i, target_pos: Vec3i) -> Projectile {
    let muzzle = raise_spec(tower_pos, MUZZLE_RISE as int);
    let aim = raise_spec(target_pos, AIM_RISE as int);
    Projectile {
        position: muzzle,
        velocity: shot_velocity(diff_spec(muzzle, aim), tower.projectile_speed),
        damage: tower.damage,
        lifetime: PROJECTILE_LIFETIME,
    }
}

/// The attacker may fire: reloaded, with a known target, and facing it.
pub open spec fn ready_to_fire(cooldown: i64, tower_pos: Vec3i, forward: Vec3i, target_pos: Option<Vec3i>) -> bool {
    &&& cooldown <= 0
    &&& target_pos is Some
    &&& aligned_spec(forward, diff_spec(tower_pos, raise_spec(target_pos->0, AIM_RISE as int)))
}

proof fn lemma_component_le_norm(c: int, n2: int, r: int)
    requires
        c * c <= n2,
        is_isqrt(n2, r),
    ensures
        -r <= c <= r,
{
    if c > r {
        assert((r + 1) * (r + 1) <= c * c) by (nonlinear_arith)
            requires c >= r + 1, r >= 0;
    } else if c < -r {
        assert((r + 1) * (r + 1) <= c * c) by (nonlinear_arith)
            requires -c >= r + 1, r >= 0;
    }
}

proof fn lemma_scaled_le_speed(c: int, speed: int, r: int)
    requires
        -r <= c <= r,
        0 < r,
        0 <= speed,
    ensures
        -speed <= scaled_spec(c, speed, r) <= speed,
{
    let a = if c >= 0 { c } else { -c };
    assert(a * speed <= r * speed) by (nonlinear_arith)
        requires 0 <= a <= r, 0 <= speed;
    assert(a * speed >= 0) by (nonlinear_arith)
        requires 0 <= a, 0 <= speed;
    assert((r * speed) / r == speed) by (nonlinear_arith)
        requires 0 < r;
    assert((a * speed) / r <= (r * speed) / r) by (nonlinear_arith)
        requires a * speed <= r * speed, 0 < r;
    assert(a * speed / r >= 0) by (nonlinear_arith)
        requires a * speed >= 0, 0 < r;
    if c < 0 {
        assert((-c) * speed == a * speed);
    }
}

/// The velocity of a shot along a nonzero direction of the playing field.
fn launch_velocity(d: &Vec3i, speed: u32) -> (r: Vec3i)
    requires
        bounded(*d, 4 * WORLD_LIMIT),
    ensures
        r == shot_velocity(*d, speed),
        bounded(r, speed as int),
{
    proof {
        assert(0 <= d.x * d.x <= 17592186044416) by (nonlinear_arith)
            requires -4194304 <= d.x <= 4194304;
        assert(0 <= d.y * d.y <= 17592186044416) by (nonlinear_arith)
            requires -4194304 <= d.y <= 4194304;
        assert(0 <= d.z * d.z <= 17592186044416) by (nonlinear_arith)
            requires -4194304 <= d.z <= 4194304;
    }
    let n2: u64 = (d.x * d.x + d.y * d.y + d.z * d.z) as u64;
    if n2 == 0 {
        return Vec3i { x: 0, y: 0, z: 0 };
    }
    let n = isqrt(n2);
    proof {
        lemma_component_le_norm(d.x as int, n2 as int, n as int);
        lemma_component_le_norm(d.y as int, n2 as int, n as int);
        lemma_component_le_norm(d.z as int, n2 as int, n as int);
        if n == 0 {
            assert(n2 < 1);
        }
        lemma_scaled_le_speed(d.x as int, speed as int, n as int);
        lemma_scaled_le_speed(d.y as int, speed as int, n as int);
        lemma_scaled_le_speed(d.z as int, speed as int, n as int);
    }
    let vx = scale_div(d.x, speed, n);
    let vy = scale_div(d.y, speed, n);
    let vz = scale_div(d.z, speed, n);
    Vec3i { x: vx, y: vy, z: vz }
}

/// One attacker's firing decision. With the cooldown above zero, no known
/// target position, or a facing outside the firing cone, it holds fire and
/// nothing changes. Otherwise an unknown prefab is a content error; a known
/// one yields the projectile and its visual, and the cooldown restarts at the
/// attacker's reload time.
pub fn tower_shooting(
    tower: &Tower,
    cooldown: &mut i64,
    prefab: &String,
    tower_pos: Vec3i,
    forward: Vec3i,
    target_pos: Option<Vec3i>,
) -> (r: Result<Option<(Projectile, ProjectileModel)>, FireError>)
    requires
        tower_pos.wf(),
        target_pos matches Some(t) ==> t.wf(),
        bounded(forward, WORLD_LIMIT as int),
    ensures
        !ready_to_fire(*old(cooldown), tower_pos, forward, target_pos) ==> r == Ok::<
            Option<(Projectile, ProjectileModel)>,
            FireError,
        >(None) && *final(cooldown) == *old(cooldown),
        ready_to_fire(*old(cooldown), tower_pos, forward, target_pos) ==> match model_of(prefab@) {
            None => r == Err::<Option<(Projectile, ProjectileModel)>, FireError>(FireError::UnknownArchetype)
                && *final(cooldown) == *old(cooldown),
            Some(m) => r == Ok::<Option<(Projectile, ProjectileModel)>, FireError>(
                Some((fired_projectile(*tower, tower_pos, target_pos->0), m)),
            ) && *final(cooldown) == tower.attack_cooldown,
        },
        r matches Ok(Some((p, _))) ==> p.wf(),
{
    if *cooldown > 0 {
        return Ok(None);
    }
    let target = match target_pos {
        Some(t) => t,
        None => {
            return Ok(None);
        },
    };
    let aim = target.raised(AIM_RISE);
    let to_target = tower_pos.to(&aim);
    if !is_facing(&forward, &to_target) {
        return Ok(None);
    }
    let model = match projectile_model(prefab) {
        Ok(m) => m,
        Err(e) => {
            return Err(e);
        },
    };
    let muzzle = tower_pos.raised(MUZZLE_RISE);
    let d = muzzle.to(&aim);
    let velocity = launch_velocity(&d, tower.projectile_speed);
    let p = Projectile {
        position: muzzle,
        velocity,
        damage: tower.damage,
        lifetime: PROJECTILE_LIFETIME,
    };
    assert(p.wf()) by {
        assert(MAX_SPEED * 3000 + (WORLD_LIMIT + 50) * 1000 <= POSITION_CAP * 1000);
        assert forall|c: i64, v: i64| -(WORLD_LIMIT + 50) <= c <= WORLD_LIMIT + 50 && -MAX_SPEED <= v
            <= MAX_SPEED implies crate::projectile::reach_ok(c, v, 3000) by {}
    }
    *cooldown = tower.attack_cooldown as i64;
    Ok(Some((p, model)))
}

} // verus!

//! Projectiles in flight: time-based expiry, kinematic integration, and the
//! resolution of collision-start notifications into damage.
use vstd::prelude::*;
use crate::geometry::{Vec3i, bounded, scale_div, scaled_spec};

verus! {

/// How long a fired projectile flies before it expires, in milliseconds.
pub const PROJECTILE_LIFETIME: i64 = 3000;

/// Largest speed of a projectile along one axis, in centimetres per second.
pub const MAX_SPEED: i64 = 4_294_967_295;

/// No coordinate of a projectile may pass this value before it expires.
pub const POSITION_CAP: i64 = 1_152_921_504_606_846_976;

/// Remaining health of an entity; it may fall below zero.
#[derive(Clone, Copy, Debug, PartialEq, Eq, Structural)]
pub struct Health(pub i64);

/// Health an entity is created with.
#[derive(Clone, Copy, Debug, PartialEq, Eq, Structural)]
pub struct MaxHealth(pub u32);

impl MaxHealth {
    /// The health a new entity starts with: its maximum.
    pub fn initial_health(&self) -> (r: Health)
        ensures
            r.0 == self.0,
    {
        Health(self.0 as i64)
    }
}

#[derive(Clone, Copy, Debug, PartialEq, Eq, Structural)]
pub struct Projectile {
    /// Centimetres.
    pub position: Vec3i,
    /// Centimetres per second.
    pub velocity: Vec3i,
    pub damage: u32,
    /// Milliseconds left before expiry.
    pub lifetime: i64,
}

pub open spec fn abs(x: int) -> int {
    if x >= 0 { x } else { -x }
}

/// Along one axis, the coordinate cannot pass the cap in the time left.
pub open spec fn reach_ok(p: i64, v: i64, life: int) -> bool {
    abs(p as int) * 1000 + abs(v as int) * life <= POSITION_CAP * 1000
}

/// The coordinate after `dt` milliseconds at speed `v`.
pub open spec fn moved_coord(p: i64, v: i64, dt: u32) -> int {
    p + scaled_spec(v as int, dt as int, 1000)
}

impl Projectile {
    /// A projectile still in flight: time left, a bounded velocity, and a
    /// position that stays representable until it expires.
    pub open spec fn wf(self) -> bool {
        &&& 0 < self.lifetime
        &&& bounded(self.velocity, MAX_SPEED as int)
        &&& reach_ok(self.position.x, self.velocity.x, self.lifetime as int)
        &&& reach_ok(self.position.y, self.velocity.y, self.lifetime as int)
        &&& reach_ok(self.position.z, self.velocity.z, self.lifetime as int)
    }
}

/// The projectile after a tick of `dt` milliseconds: `None` once its lifetime
/// has run out, else moved by its velocity.
pub open spec fn step_spec(p: Projectile, dt: u32) -> Option<Projectile> {
    let life = p.lifetime - dt;
    if life <= 0 {
        None
    } else {
        Some(
            Projectile {
                position: Vec3i {
                    x: moved_coord(p.position.x, p.velocity.x, dt) as i64,
                    y: moved_coord(p.position.y, p.velocity.y, dt) as i64,
                    z: moved_coord(p.position.z, p.velocity.z, dt) as i64,
                },
                lifetime: life as i64,
                ..p
            },
        )
    }
}

proof fn lemma_scaled_bound(v: int, dt: int)
    requires
        0 <= dt,
    ensures
        abs(scaled_spec(v, dt, 1000)) * 1000 <= abs(v) * dt,
{
    let m = abs(v) * dt;
    let a = abs(v);
    assert(a * dt >= 0) by (nonlinear_arith)
        requires dt >= 0, a >= 0;
    assert(abs(scaled_spec(v, dt, 1000)) == m / 1000) by {
        if v < 0 {
            assert((-v) * dt == m);
        }
    }
}

proof fn lemma_step_coord(p: i64, v: i64, dt: u32, life: int)
    requires
        reach_ok(p, v, life),
        dt < life,
        abs(v as int) <= MAX_SPEED,
    ensures
        i64::MIN <= moved_coord(p, v, dt) <= i64::MAX,
        abs(moved_coord(p, v, dt)) * 1000 + abs(v as int) * (life - dt) <= POSITION_CAP * 1000,
{
    lemma_scaled_bound(v as int, dt as int);
    let s = scaled_spec(v as int, dt as int, 1000);
    assert(abs(v as int) * life == abs(v as int) * dt + abs(v as int) * (life - dt)) by (nonlinear_arith);
    assert(abs(v as int) * (life - dt) >= 0) by (nonlinear_arith)
        requires abs(v as int) >= 0, life - dt > 0;
    assert(abs(p + s) <= abs(p as int) + abs(s));
}

/// Advances one projectile by a tick of `dt` milliseconds.
pub fn advance(p: &Projectile, dt: u32) -> (r: Option<Projectile>)
    requires
        p.wf(),
    ensures
        r == step_spec(*p, dt),
        r matches Some(q) ==> q.wf(),
{
    let life = p.lifetime - dt as i64;
    if life <= 0 {
        return None;
    }
    proof {
        lemma_step_coord(p.position.x, p.velocity.x, dt, p.lifetime as int);
        lemma_step_coord(p.position.y, p.velocity.y, dt, p.lifetime as int);
        lemma_step_coord(p.position.z, p.velocity.z, dt, p.lifetime as int);
    }
    let dx = scale_div(p.velocity.x, dt, 1000);
    let dy = scale_div(p.velocity.y, dt, 1000);
    let dz = scale_div(p.velocity.z, dt, 1000);
    Some(
        Projectile {
            position: Vec3i {
                x: p.position.x + dx,
                y: p.position.y + dy,
                z: p.position.z + dz,
            },
            velocity: p.velocity,
            damage: p.damage,
            lifetime: life,
        },
    )
}

/// Largest damage one projectile can carry.
pub const MAX_DAMAGE: i64 = 4_294_967_295;

/// What has become of a fired projectile. It leaves `Flying` once, either by
/// running out of lifetime or by hitting the agent it names.
#[derive(Clone, Copy, Debug, PartialEq, Eq, Structural)]
pub enum Fate {
    Flying,
    Expired,
    Hit(usize),
}

#[derive(Clone, Copy, Debug, PartialEq, Eq, Structural)]
pub struct Shot {
    pub projectile: Projectile,
    pub fate: Fate,
}

/// One side of a collision-start notification, resolved to what it belongs to.
#[derive(Clone, Copy, Debug, PartialEq, Eq, Structural)]
pub enum Body {
    Projectile(usize),
    Agent(usize),
    Other,
}

/// Two bodies that started touching.
#[derive(Clone, Copy, Debug, PartialEq, Eq, Structural)]
pub struct CollisionStarted(pub Body, pub Body);

/// The projectile and the agent of a notification, whichever side each is on;
/// `None` for any other pair.
pub open spec fn match_pair(e: CollisionStarted) -> Option<(usize, usize)> {
    match (e.0, e.1) {
        (Body::Projectile(p), Body::Agent(g)) => Some((p, g)),
        (Body::Agent(g), Body::Projectile(p)) => Some((p, g)),
        _ => None,
    }
}

/// The shot after a tick of `dt` milliseconds.
pub open spec fn moved_shot(s: Shot, dt: u32) -> Shot {
    match s.fate {
        Fate::Flying => match step_spec(s.projectile, dt) {
            None => Shot { fate: Fate::Expired, ..s },
            Some(q) => Shot { projectile: q, fate: Fate::Flying },
        },
        _ => s,
    }
}

/// The effect of one notification: a projectile still flying that touches an
/// agent is consumed, and the agent, if it has health, loses the damage.
pub open spec fn resolve_one(shots: Seq<Shot>, health: Seq<Health>, e: CollisionStarted) -> (Seq<Shot>, Seq<Health>) {
    match match_pair(e) {
        Some((p, g)) => if p < shots.len() && shots[p as int].fate == Fate::Flying {
            (
                shots.update(p as int, Shot { fate: Fate::Hit(g), ..shots[p as int] }),
                if g < health.len() {
                    health.update(g as int, Health((health[g as int].0 - shots[p as int].projectile.damage) as i64))
                } else {
                    health
                },
            )
        } else {
            (shots, health)
        },
        None => (shots, health),
    }
}

/// The effect of a list of notifications, taken in order.
pub open spec fn resolve_all(shots: Seq<Shot>, health: Seq<Health>, events: Seq<CollisionStarted>) -> (Seq<Shot>, Seq<Health>)
    decreases events.len(),
{
    if events.len() == 0 {
        (shots, health)
    } else {
        let r = resolve_all(shots, health, events.drop_last());
        resolve_one(r.0, r.1, events.last())
    }
}

/// Total damage of the projectiles, among the first `n`, that were flying in
/// `before` and have hit agent `g` in `after`.
pub open spec fn hit_damage(before: Seq<Shot>, after: Seq<Shot>, g: usize, n: int) -> int
    decreases n,
{
    if n <= 0 {
        0
    } else {
        hit_damage(before, after, g, n - 1) + if before[n - 1].fate == Fate::Flying && after[n - 1].fate
            == Fate::Hit(g) {
            before[n - 1].projectile.damage as int
        } else {
            0
        }
    }
}

/// Every agent's health is far enough above the smallest `i64` to take `k`
/// hits of the largest damage.
pub open spec fn health_room(health: Seq<Health>, k: int) -> bool {
    forall|g: int| 0 <= g < health.len() ==> (#[trigger] health[g]).0 >= i64::MIN + MAX_DAMAGE * k
}

proof fn lemma_hit_damage_update(before: Seq<Shot>, after: Seq<Shot>, g: usize, n: int, p: int, x: Shot)
    requires
        0 <= p < after.len(),
        n <= after.len(),
        n <= before.len(),
        before[p].fate == Fate::Flying,
        after[p].fate == Fate::Flying,
    ensures
        hit_damage(before, after.update(p, x), g, n) == hit_damage(before, after, g, n) + if p < n
            && x.fate == Fate::Hit(g) {
            before[p].projectile.damage as int
        } else {
            0
        },
    decreases n,
{
    if n > 0 {
        lemma_hit_damage_update(before, after, g, n - 1, p, x);
    }
}

/// Damage is conserved: after a list of notifications, each agent's health is
/// its health before less the damage of exactly those projectiles that were
/// flying and have now hit it; notifications that name a projectile already
/// consumed change nothing. Fates only ever leave `Flying`, and only for `Hit`.
pub proof fn lemma_damage_conservation(shots: Seq<Shot>, health: Seq<Health>, events: Seq<CollisionStarted>)
    requires
        health_room(health, events.len() as int),
    ensures
        resolve_all(shots, health, events).0.len() == shots.len(),
        resolve_all(shots, health, events).1.len() == health.len(),
        forall|i: int| 0 <= i < shots.len() ==> (#[trigger] resolve_all(shots, health, events).0[i]).projectile
            == shots[i].projectile,
        forall|i: int| 0 <= i < shots.len() && shots[i].fate != Fate::Flying ==> (#[trigger] resolve_all(
            shots,
            health,
            events,
        ).0[i]) == shots[i],
        forall|i: int| 0 <= i < shots.len() && shots[i].fate == Fate::Flying ==> (#[trigger] resolve_all(
            shots,
            health,
            events,
        ).0[i]).fate is Flying || resolve_all(shots, health, events).0[i].fate is Hit,
        forall|g: usize| g < health.len() ==> (#[trigger] resolve_all(shots, health, events).1[g as int]).0
            == health[g as int].0 - hit_damage(shots, resolve_all(shots, health, events).0, g, shots.len() as int),
        forall|g: usize| g < health.len() ==> (#[trigger] resolve_all(shots, health, events).1[g as int]).0
            >= health[g as int].0 - MAX_DAMAGE * events.len(),
    decreases events.len(),
{
    if events.len() == 0 {
        assert forall|g: usize| g < health.len() implies #[trigger] hit_damage(shots, shots, g, shots.len() as int) == 0 by {
            lemma_hit_damage_none(shots, g, shots.len() as int);
        }
    } else {
        let prev = events.drop_last();
        assert(health_room(health, prev.len() as int)) by {
            assert forall|g: int| 0 <= g < health.len() implies (#[trigger] health[g]).0 >= i64::MIN + MAX_DAMAGE * prev.len() by {
                assert(MAX_DAMAGE * prev.len() <= MAX_DAMAGE * events.len()) by (nonlinear_arith)
                    requires prev.len() <= events.len();
            }
        }
        lemma_damage_conservation(shots, health, prev);
        let r = resolve_all(shots, health, prev);
        let e = events.last();
        let out = resolve_one(r.0, r.1, e);
        assert(resolve_all(shots, health, events) == out);
        assert(MAX_DAMAGE * events.len() == MAX_DAMAGE * prev.len() + MAX_DAMAGE) by (nonlinear_arith)
            requires events.len() == prev.len() + 1;
        match match_pair(e) {
            Some((p, g)) => {
                if p < r.0.len() && r.0[p as int].fate == Fate::Flying {
                    let x = Shot { fate: Fate::Hit(g), ..r.0[p as int] };
                    assert(shots[p as int].fate == Fate::Flying);
                    assert forall|h: usize| h < health.len() implies (#[trigger] out.1[h as int]).0
                        == health[h as int].0 - hit_damage(shots, out.0, h, shots.len() as int)
                        && out.1[h as int].0 >= health[h as int].0 - MAX_DAMAGE * events.len() by {
                        lemma_hit_damage_update(shots, r.0, h, shots.len() as int, p as int, x);
                        assert(health[h as int].0 >= i64::MIN + MAX_DAMAGE * events.len());
                        assert(r.1[h as int].0 >= i64::MIN + MAX_DAMAGE);
                    }
                }
            },
            None => {},
        }
    }
}

proof fn lemma_hit_damage_none(s: Seq<Shot>, g: usize, n: int)
    requires
        n <= s.len(),
    ensures
        hit_damage(s, s, g, n) == 0,
    decreases n,
{
    if n > 0 {
        lemma_hit_damage_none(s, g, n - 1);
    }
}

/// Every projectile ever fired, in firing order, with its fate.
pub struct ProjectilePool {
    shots: Vec<Shot>,
}

impl View for ProjectilePool {
    type V = Seq<Shot>;

    closed spec fn view(&self) -> Seq<Shot> {
        self.shots@
    }
}

impl ProjectilePool {
    /// Every projectile still flying is well formed.
    pub open spec fn wf(&self) -> bool {
        forall|i: int| 0 <= i < self@.len() && (#[trigger] self@[i]).fate == Fate::Flying ==> self@[i].projectile.wf()
    }

    pub fn new() -> (r: ProjectilePool)
        ensures
            r.wf(),
            r@.len() == 0,
    {
        ProjectilePool { shots: Vec::new() }
    }

    pub fn len(&self) -> (r: usize)
        ensures
            r == self@.len(),
    {
        self.shots.len()
    }

    pub fn shot(&self, i: usize) -> (r: Shot)
        requires
            i < self@.len(),
        ensures
            r == self@[i as int],
    {
        self.shots[i]
    }

    /// Adds a projectile in flight; its index is the former length.
    pub fn spawn(&mut self, p: Projectile) -> (r: usize)
        requires
            old(self).wf(),
            p.wf(),
        ensures
            final(self).wf(),
            r == old(self)@.len(),
            final(self)@ == old(self)@.push(Shot { projectile: p, fate: Fate::Flying }),
    {
        let r = self.shots.len();
        self.shots.push(Shot { projectile: p, fate: Fate::Flying });
        r
    }

    /// One tick of `dt` milliseconds: each flying projectile loses `dt` of its
    /// lifetime and expires when none is left, without moving; otherwise it
    /// moves by its velocity. Projectiles no longer flying are left alone.
    pub fn projectile_movement(&mut self, dt: u32)
        requires
            old(self).wf(),
        ensures
            final(self).wf(),
            final(self)@.len() == old(self)@.len(),
            forall|i: int| 0 <= i < old(self)@.len() ==> (#[trigger] final(self)@[i]) == moved_shot(old(self)@[i], dt),
    {
        let ghost start = self@;
        let n = self.shots.len();
        let mut i: usize = 0;
        while i < n
            invariant
                self.wf(),
                n == self@.len(),
                start.len() == n,
                i <= n,
                forall|k: int| 0 <= k < i ==> (#[trigger] self@[k]) == moved_shot(start[k], dt),
                forall|k: int| i <= k < n ==> (#[trigger] self@[k]) == start[k],
            decreases n - i,
        {
            let s = self.shots[i];
            match s.fate {
                Fate::Flying => {
                    match advance(&s.projectile, dt) {
                        None => {
                            self.shots.set(i, Shot { projectile: s.projectile, fate: Fate::Expired });
                        },
                        Some(q) => {
                            self.shots.set(i, Shot { projectile: q, fate: Fate::Flying });
                        },
                    }
                },
                _ => {},
            }
            i = i + 1;
        }
    }

    /// Resolves collision-start notifications in order. A projectile still
    /// flying that touches an agent is consumed on that first contact, and the
    /// agent loses the projectile's damage if it has a health entry; every
    /// other pair, and every later notification naming a consumed projectile,
    /// changes nothing.
    pub fn handle_projectile_collisions(&mut self, healths: &mut Vec<Health>, events: &Vec<CollisionStarted>)
        requires
            old(self).wf(),
            health_room(old(healths)@, events@.len() as int),
        ensures
            final(self).wf(),
            (final(self)@, final(healths)@) == resolve_all(old(self)@, old(healths)@, events@),
    {
        let ghost s0 = self@;
        let ghost h0 = healths@;
        let n = events.len();
        let mut i: usize = 0;
        while i < n
            invariant
                self.wf(),
                n == events@.len(),
                health_room(h0, n as int),
                i <= n,
                (self@, healths@) == resolve_all(s0, h0, events@.subrange(0, i as int)),
                forall|k: int| 0 <= k < s0.len() ==> (#[trigger] self@[k]).projectile == s0[k].projectile,
            decreases n - i,
        {
            proof {
                let pre = events@.subrange(0, i as int);
                assert(events@.subrange(0, i + 1).drop_last() =~= pre);
                assert(health_room(h0, pre.len() as int)) by {
                    assert forall|g: int| 0 <= g < h0.len() implies (#[trigger] h0[g]).0 >= i64::MIN + MAX_DAMAGE
                        * pre.len() by {
                        assert(MAX_DAMAGE * pre.len() <= MAX_DAMAGE * n) by (nonlinear_arith)
                            requires pre.len() <= n;
                    }
                }
                lemma_damage_conservation(s0, h0, pre);
                assert forall|g: usize| g < healths@.len() implies (#[trigger] healths@[g as int]).0
                    >= i64::MIN + MAX_DAMAGE by {
                    assert(h0[g as int].0 >= i64::MIN + MAX_DAMAGE * n);
                    assert(MAX_DAMAGE * n >= MAX_DAMAGE * i + MAX_DAMAGE) by (nonlinear_arith)
                        requires i < n;
                }
            }
            let e = events[i];
            let pair: Option<(usize, usize)> = match (e.0, e.1) {
                (Body::Projectile(p), Body::Agent(g)) => Some((p, g)),
                (Body::Agent(g), Body::Projectile(p)) => Some((p, g)),
                _ => None,
            };
            if let Some((p, g)) = pair {
                if p < self.shots.len() {
                    let s = self.shots[p];
                    if let Fate::Flying = s.fate {
                        self.shots.set(p, Shot { projectile: s.projectile, fate: Fate::Hit(g) });
                        if g < healths.len() {
                            let h = healths[g].0;
                            healths.set(g, Health(h - s.projectile.damage as i64));
                        }
                    }
                }
            }
            i = i + 1;
        }
        assert(events@.subrange(0, n as int) =~= events@);
    }
}

/// Sum of a list of tick durations.
pub open spec fn total_time(dts: Seq<u32>) -> int
    decreases dts.len(),
{
    if dts.len() == 0 {
        0
    } else {
        total_time(dts.drop_last()) + dts.last()
    }
}

/// The shot after a list of ticks with no collision.
pub open spec fn fly(s: Shot, dts: Seq<u32>) -> Shot
    decreases dts.len(),
{
    if dts.len() == 0 {
        s
    } else {
        moved_shot(fly(s, dts.drop_last()), dts.last())
    }
}

/// A tick keeps a flying projectile well formed.
pub proof fn lemma_step_wf(p: Projectile, dt: u32)
    requires
        p.wf(),
    ensures
        step_spec(p, dt) matches Some(q) ==> q.wf(),
{
    if p.lifetime - dt > 0 {
        lemma_step_coord(p.position.x, p.velocity.x, dt, p.lifetime as int);
        lemma_step_coord(p.position.y, p.velocity.y, dt, p.lifetime as int);
        lemma_step_coord(p.position.z, p.velocity.z, dt, p.lifetime as int);
    }
}

/// A projectile that was consumed or has expired is never touched again: no
/// tick and no notification changes it.
pub proof fn lemma_settled_shot_stays(
    s: Shot,
    dt: u32,
    shots: Seq<Shot>,
    health: Seq<Health>,
    events: Seq<CollisionStarted>,
    i: int,
)
    requires
        s.fate != Fate::Flying,
        health_room(health, events.len() as int),
        0 <= i < shots.len(),
        shots[i].fate != Fate::Flying,
    ensures
        moved_shot(s, dt) == s,
        resolve_all(shots, health, events).0[i] == shots[i],
{
    lemma_damage_conservation(shots, health, events);
}

/// Without a collision, a projectile expires in the tick where the elapsed
/// time reaches its lifetime, and not before; until then it keeps flying with
/// the lifetime less the elapsed time. With the collision resolver unable to
/// touch an expired or consumed projectile, each one is destroyed once.
pub proof fn lemma_lifetime_expiry(s: Shot, dts: Seq<u32>)
    requires
        s.fate == Fate::Flying,
        s.projectile.wf(),
    ensures
        total_time(dts) < s.projectile.lifetime ==> fly(s, dts).fate == Fate::Flying
            && fly(s, dts).projectile.lifetime == s.projectile.lifetime - total_time(dts)
            && fly(s, dts).projectile.wf(),
        total_time(dts) >= s.projectile.lifetime ==> fly(s, dts).fate == Fate::Expired,
    decreases dts.len(),
{
    if dts.len() > 0 {
        let prev = dts.drop_last();
        lemma_lifetime_expiry(s, prev);
        let mid = fly(s, prev);
        if total_time(prev) < s.projectile.lifetime {
            lemma_step_wf(mid.projectile, dts.last());
        }
    }
}

} // verus!

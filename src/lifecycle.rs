//! The death pass: entities whose health ran out are despawned, and a fallen
//! mobile agent leaves a reward in the active scene.
use vstd::prelude::*;
use crate::geometry::{Vec3i, raise_spec};
use crate::projectile::Health;

verus! {

/// Height above a fallen agent where its reward appears, in centimetres.
pub const REWARD_RISE: i64 = 150;

/// What the death pass reads of one entity whose health changed.
#[derive(Clone, Copy, Debug, PartialEq, Eq, Structural)]
pub struct Vitals {
    pub entity: u64,
    pub health: Health,
    pub is_agent: bool,
    pub position: Vec3i,
}

/// A change the death pass asks the world to make.
#[derive(Clone, Copy, Debug, PartialEq, Eq, Structural)]
pub enum DeathEffect {
    Despawn(u64),
    /// A reward pickup at `position`, parented to the scene `parent`.
    SpawnReward { position: Vec3i, parent: u64 },
}

/// The effects for one entity: none while its health is above zero; else its
/// despawn, followed, for an agent while a scene is active, by its reward.
pub open spec fn effects_of(v: Vitals, scene: Option<u64>) -> Seq<DeathEffect> {
    if v.health.0 > 0 {
        seq![]
    } else if v.is_agent && scene is Some {
        seq![
            DeathEffect::Despawn(v.entity),
            DeathEffect::SpawnReward {
                position: raise_spec(v.position, REWARD_RISE as int),
                parent: scene->0,
            },
        ]
    } else {
        seq![DeathEffect::Despawn(v.entity)]
    }
}

/// The effects for a list of entities, in their order.
pub open spec fn death_effects(vs: Seq<Vitals>, scene: Option<u64>) -> Seq<DeathEffect>
    decreases vs.len(),
{
    if vs.len() == 0 {
        seq![]
    } else {
        death_effects(vs.drop_last(), scene) + effects_of(vs.last(), scene)
    }
}

/// Lists what must happen to the given entities after their health changed.
/// Without an active scene the despawns still happen; only rewards are left out.
pub fn despawn_on_death(vs: &Vec<Vitals>, scene: Option<u64>) -> (r: Vec<DeathEffect>)
    requires
        forall|i: int| 0 <= i < vs@.len() ==> (#[trigger] vs@[i]).position.wf(),
    ensures
        r@ == death_effects(vs@, scene),
{
    let mut out: Vec<DeathEffect> = Vec::new();
    let mut i: usize = 0;
    while i < vs.len()
        invariant
            i <= vs@.len(),
            forall|k: int| 0 <= k < vs@.len() ==> (#[trigger] vs@[k]).position.wf(),
            out@ == death_effects(vs@.subrange(0, i as int), scene),
        decreases vs@.len() - i,
    {
        let v = vs[i];
        assert(vs@.subrange(0, i + 1).drop_last() =~= vs@.subrange(0, i as int));
        let ghost before = out@;
        if v.health.0 <= 0 {
            out.push(DeathEffect::Despawn(v.entity));
            if v.is_agent {
                if let Some(parent) = scene {
                    out.push(DeathEffect::SpawnReward { position: v.position.raised(REWARD_RISE), parent });
                }
            }
        }
        assert(out@ =~= before + effects_of(v, scene));
        i = i + 1;
    }
    assert(vs@.subrange(0, vs@.len() as int) =~= vs@);
    out
}

} // verus!

//! Target acquisition and validation: dropping edges that went out of range,
//! and giving each free attacker the candidate closest to the objective.
use vstd::prelude::*;
use crate::geometry::{Vec3i, in_range, in_range_spec};
use crate::relation::TargetStore;

verus! {

/// A stationary attacker's fixed stats.
#[derive(Clone, Copy, Debug, PartialEq, Eq, Structural)]
pub struct Tower {
    /// Engagement radius, in centimetres.
    pub range: u32,
    /// Health points taken by each projectile.
    pub damage: u32,
    /// Reload time, in milliseconds.
    pub attack_cooldown: u32,
    /// Projectile speed, in centimetres per second.
    pub projectile_speed: u32,
}

/// A body found by the spatial query that resolved to a live mobile agent.
#[derive(Clone, Copy, Debug, PartialEq, Eq, Structural)]
pub struct Candidate {
    pub agent: usize,
    /// Path still to walk to the objective; lower is more urgent.
    pub progress_remaining: u64,
}

/// No query hit resolved to a live agent.
pub open spec fn no_candidate(c: Seq<Option<Candidate>>) -> bool {
    forall|j: int| 0 <= j < c.len() ==> (#[trigger] c[j]) is None
}

/// Entry `i` has the least remaining progress of all live candidates, and it
/// is the first entry with that value.
pub open spec fn is_best(c: Seq<Option<Candidate>>, i: int) -> bool {
    &&& 0 <= i < c.len()
    &&& c[i] is Some
    &&& forall|j: int|
        0 <= j < c.len() && (#[trigger] c[j]) is Some ==> c[i]->0.progress_remaining
            <= c[j]->0.progress_remaining
    &&& forall|j: int|
        0 <= j < i && (#[trigger] c[j]) is Some ==> c[i]->0.progress_remaining
            < c[j]->0.progress_remaining
}

/// Index of the candidate to engage: the first of those with the least
/// remaining progress; `None` when no hit is a live agent.
pub fn best_candidate(c: &Vec<Option<Candidate>>) -> (r: Option<usize>)
    ensures
        r is None <==> no_candidate(c@),
        r matches Some(i) ==> is_best(c@, i as int),
{
    let mut best: Option<usize> = None;
    let mut i: usize = 0;
    while i < c.len()
        invariant
            i <= c@.len(),
            best is None <==> no_candidate(c@.subrange(0, i as int)),
            best matches Some(b) ==> is_best(c@.subrange(0, i as int), b as int),
        decreases c@.len() - i,
    {
        let ghost pre = c@.subrange(0, i as int);
        let ghost post = c@.subrange(0, i + 1);
        assert(forall|j: int| 0 <= j < i ==> post[j] == #[trigger] pre[j]);
        match c[i] {
            None => {
                assert(post[i as int] is None);
            },
            Some(cand) => {
                match best {
                    None => {
                        best = Some(i);
                    },
                    Some(b) => {
                        let cur = c[b].unwrap();
                        if cand.progress_remaining < cur.progress_remaining {
                            best = Some(i);
                        }
                    },
                }
            },
        }
        i = i + 1;
    }
    assert(c@.subrange(0, c@.len() as int) =~= c@);
    best
}

/// Only one entry can be the chosen one: the same list always yields the same
/// pick, the first among equals.
pub proof fn lemma_best_unique(c: Seq<Option<Candidate>>, i: int, k: int)
    requires
        is_best(c, i),
        is_best(c, k),
    ensures
        i == k,
{
    if i < k {
        assert(c[i] is Some);
    } else if k < i {
        assert(c[k] is Some);
    }
}

/// The edge from attacker `a` to agent `g` still holds: both positions are
/// known and the agent is within the attacker's range.
pub open spec fn edge_valid(
    towers: Seq<Tower>,
    tower_pos: Seq<Option<Vec3i>>,
    agent_pos: Seq<Option<Vec3i>>,
    a: int,
    g: int,
) -> bool {
    &&& tower_pos[a] is Some
    &&& agent_pos[g] is Some
    &&& in_range_spec(tower_pos[a]->0, agent_pos[g]->0, towers[a].range)
}

/// The forward edge of attacker `a` after validation.
pub open spec fn validated(
    e: Option<usize>,
    towers: Seq<Tower>,
    tower_pos: Seq<Option<Vec3i>>,
    agent_pos: Seq<Option<Vec3i>>,
    a: int,
) -> Option<usize> {
    match e {
        Some(g) => if edge_valid(towers, tower_pos, agent_pos, a, g as int) {
            Some(g)
        } else {
            None
        },
        None => None,
    }
}

pub open spec fn positions_ok(p: Seq<Option<Vec3i>>) -> bool {
    forall|i: int| 0 <= i < p.len() && (#[trigger] p[i]) is Some ==> p[i]->0.wf()
}

/// Removes every edge whose agent is out of its attacker's range. An edge
/// whose attacker or agent has no known position is stale and goes too.
pub fn check_target_range(
    store: &mut TargetStore,
    towers: &Vec<Tower>,
    tower_pos: &Vec<Option<Vec3i>>,
    agent_pos: &Vec<Option<Vec3i>>,
)
    requires
        old(store).wf(),
        towers@.len() == old(store).num_attackers(),
        tower_pos@.len() == old(store).num_attackers(),
        agent_pos@.len() == old(store).num_agents(),
        positions_ok(tower_pos@),
        positions_ok(agent_pos@),
    ensures
        final(store).wf(),
        final(store).num_attackers() == old(store).num_attackers(),
        final(store).num_agents() == old(store).num_agents(),
        forall|a: int| 0 <= a < old(store).num_attackers() ==> (#[trigger] final(store).forward()[a])
            == validated(old(store).forward()[a], towers@, tower_pos@, agent_pos@, a),
        forall|a: usize, g: usize| #[trigger] final(store).engages(a, g) ==> edge_valid(
            towers@,
            tower_pos@,
            agent_pos@,
            a as int,
            g as int,
        ),
{
    let ghost start = store.forward();
    let n = store.num_attackers_exec();
    let mut a: usize = 0;
    while a < n
        invariant
            store.wf(),
            n == store.num_attackers(),
            start.len() == n,
            towers@.len() == n,
            tower_pos@.len() == n,
            agent_pos@.len() == store.num_agents(),
            positions_ok(tower_pos@),
            positions_ok(agent_pos@),
            a <= n,
            forall|k: int| 0 <= k < a ==> (#[trigger] store.forward()[k])
                == validated(start[k], towers@, tower_pos@, agent_pos@, k),
            forall|k: int| a <= k < n ==> (#[trigger] store.forward()[k]) == start[k],
        decreases n - a,
    {
        if let Some(g) = store.target_of(a) {
            assert(store.forward()[a as int] is Some ==> store.forward()[a as int]->0 < store.num_agents());
            let keep = match (tower_pos[a], agent_pos[g]) {
                (Some(tp), Some(gp)) => in_range(&tp, &gp, towers[a].range),
                _ => false,
            };
            if !keep {
                store.remove_target(a);
            }
        }
        a = a + 1;
    }
    assert forall|x: usize, g: usize| #[trigger] store.engages(x, g) implies edge_valid(
        towers@,
        tower_pos@,
        agent_pos@,
        x as int,
        g as int,
    ) by {
        assert(store.forward()[x as int] == validated(start[x as int], towers@, tower_pos@, agent_pos@, x as int));
    }
}

/// What a free attacker engages after acquisition: the agent of the best
/// candidate, or nothing when no candidate is live.
pub open spec fn acquired(e: Option<usize>, c: Seq<Option<Candidate>>) -> bool {
    &&& e is None <==> no_candidate(c)
    &&& e matches Some(g) ==> exists|i: int| is_best(c, i) && c[i]->0.agent == g
}

pub open spec fn candidates_ok(c: Seq<Option<Candidate>>, num_agents: nat) -> bool {
    forall|j: int| 0 <= j < c.len() && (#[trigger] c[j]) is Some ==> c[j]->0.agent < num_agents
}

/// Gives every attacker without an edge the best of its query hits; entry `a`
/// of `candidates` lists what the query around attacker `a` returned, in the
/// order it returned them. Attackers that already have an edge keep it.
pub fn find_target(store: &mut TargetStore, candidates: &Vec<Vec<Option<Candidate>>>)
    requires
        old(store).wf(),
        candidates@.len() == old(store).num_attackers(),
        forall|a: int| 0 <= a < candidates@.len() ==> candidates_ok(
            (#[trigger] candidates@[a])@,
            old(store).num_agents(),
        ),
    ensures
        final(store).wf(),
        final(store).num_attackers() == old(store).num_attackers(),
        final(store).num_agents() == old(store).num_agents(),
        forall|a: int| 0 <= a < old(store).num_attackers() && (#[trigger] old(store).forward()[a]) is Some
            ==> final(store).forward()[a] == old(store).forward()[a],
        forall|a: int| 0 <= a < old(store).num_attackers() && (#[trigger] old(store).forward()[a]) is None
            ==> acquired(final(store).forward()[a], candidates@[a]@),
{
    let ghost start = store.forward();
    let ghost agents = store.num_agents();
    let n = store.num_attackers_exec();
    let mut a: usize = 0;
    while a < n
        invariant
            store.wf(),
            n == store.num_attackers(),
            agents == store.num_agents(),
            start.len() == n,
            candidates@.len() == n,
            forall|k: int| 0 <= k < candidates@.len() ==> candidates_ok(
                (#[trigger] candidates@[k])@,
                store.num_agents(),
            ),
            a <= n,
            forall|k: int| 0 <= k < a && (#[trigger] start[k]) is Some ==> store.forward()[k] == start[k],
            forall|k: int| 0 <= k < a && (#[trigger] start[k]) is None ==> acquired(
                store.forward()[k],
                candidates@[k]@,
            ),
            forall|k: int| a <= k < n ==> (#[trigger] store.forward()[k]) == start[k],
        decreases n - a,
    {
        if store.target_of(a).is_none() {
            let c = &candidates[a];
            match best_candidate(c) {
                Some(i) => {
                    let g = c[i].unwrap().agent;
                    store.set_target(a, g);
                    assert(is_best(candidates@[a as int]@, i as int));
                },
                None => {},
            }
        }
        a = a + 1;
    }
}

} // verus!

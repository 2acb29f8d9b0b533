//! The Target relation: at most one outgoing edge per attacker, with a reverse
//! index per mobile agent that always lists exactly the attackers aiming at it.
use vstd::prelude::*;

verus! {

/// Attackers and mobile agents are numbered from zero; the store keeps, for
/// each attacker, the agent it engages, and for each agent, who engages it.
pub struct TargetStore {
    target: Vec<Option<usize>>,
    targeted_by: Vec<Vec<usize>>,
}

impl TargetStore {
    /// The forward edges: entry `a` is the agent that attacker `a` engages.
    pub closed spec fn forward(&self) -> Seq<Option<usize>> {
        self.target@
    }

    /// The reverse index: entry `g` lists the attackers engaging agent `g`,
    /// in the order the edges were made.
    pub closed spec fn reverse(&self) -> Seq<Seq<usize>> {
        self.targeted_by@.map_values(|v: Vec<usize>| v@)
    }

    pub open spec fn num_attackers(&self) -> nat {
        self.forward().len()
    }

    pub open spec fn num_agents(&self) -> nat {
        self.reverse().len()
    }

    /// Attacker `a` engages agent `g`.
    pub open spec fn engages(&self, a: usize, g: usize) -> bool {
        a < self.num_attackers() && self.forward()[a as int] == Some(g)
    }

    /// Attacker `a` is listed in the reverse index of agent `g`.
    pub open spec fn listed(&self, a: usize, g: usize) -> bool {
        g < self.num_agents() && self.reverse()[g as int].contains(a)
    }

    /// Well-formedness: every edge names an existing agent, the reverse index
    /// holds no repeats, and the two sides describe the same edges.
    pub open spec fn wf(&self) -> bool {
        &&& forall|a: int|
            0 <= a < self.num_attackers() && (#[trigger] self.forward()[a]) is Some
                ==> self.forward()[a]->0 < self.num_agents()
        &&& forall|g: int| 0 <= g < self.num_agents() ==> (#[trigger] self.reverse()[g]).no_duplicates()
        &&& forall|a: usize, g: usize| #[trigger] self.listed(a, g) ==> self.engages(a, g)
        &&& forall|a: usize, g: usize| #[trigger] self.engages(a, g) ==> self.listed(a, g)
    }

    /// A store with no edges.
    pub fn new(num_attackers: usize, num_agents: usize) -> (r: TargetStore)
        ensures
            r.wf(),
            r.num_attackers() == num_attackers,
            r.num_agents() == num_agents,
            forall|a: int| 0 <= a < num_attackers ==> (#[trigger] r.forward()[a]) is None,
            forall|g: int| 0 <= g < num_agents ==> (#[trigger] r.reverse()[g]).len() == 0,
    {
        let mut target: Vec<Option<usize>> = Vec::new();
        let mut i: usize = 0;
        while i < num_attackers
            invariant
                i <= num_attackers,
                target@.len() == i,
                forall|a: int| 0 <= a < i ==> (#[trigger] target@[a]) is None,
            decreases num_attackers - i,
        {
            target.push(None);
            i = i + 1;
        }
        let mut targeted_by: Vec<Vec<usize>> = Vec::new();
        let mut j: usize = 0;
        while j < num_agents
            invariant
                j <= num_agents,
                targeted_by@.len() == j,
                forall|g: int| 0 <= g < j ==> (#[trigger] targeted_by@[g])@.len() == 0,
            decreases num_agents - j,
        {
            targeted_by.push(Vec::new());
            j = j + 1;
        }
        let r = TargetStore { target, targeted_by };
        assert forall|a: usize, g: usize| #[trigger] r.listed(a, g) implies r.engages(a, g) by {
            assert(r.reverse()[g as int].len() == 0);
        }
        r
    }

    pub fn num_attackers_exec(&self) -> (r: usize)
        ensures
            r == self.num_attackers(),
    {
        self.target.len()
    }

    pub fn num_agents_exec(&self) -> (r: usize)
        ensures
            r == self.num_agents(),
    {
        self.targeted_by.len()
    }

    /// The agent that attacker `a` engages, if any.
    pub fn target_of(&self, a: usize) -> (r: Option<usize>)
        requires
            a < self.num_attackers(),
        ensures
            r == self.forward()[a as int],
    {
        self.target[a]
    }

    /// The attackers engaging agent `g`.
    pub fn targets_of(&self, g: usize) -> (r: &Vec<usize>)
        requires
            g < self.num_agents(),
        ensures
            r@ == self.reverse()[g as int],
    {
        &self.targeted_by[g]
    }

    /// Removes the edge of attacker `a`, if it has one, from both sides.
    pub fn remove_target(&mut self, a: usize)
        requires
            old(self).wf(),
            a < old(self).num_attackers(),
        ensures
            final(self).wf(),
            final(self).forward() == old(self).forward().update(a as int, None),
            final(self).num_agents() == old(self).num_agents(),
    {
        match self.target[a] {
            None => {
                assert(self.forward().update(a as int, None) =~= self.forward());
            },
            Some(g) => {
                let ghost old_self = *self;
                assert(self.engages(a, g));
                assert(self.listed(a, g));
                let ghost list = self.reverse()[g as int];
                let n = self.targeted_by[g].len();
                let mut j: usize = 0;
                while self.targeted_by[g][j] != a
                    invariant
                        old_self == *self,
                        g < self.targeted_by@.len(),
                        list == self.targeted_by@[g as int]@,
                        list.contains(a),
                        list.len() == n,
                        j < list.len(),
                        forall|k: int| 0 <= k < j ==> list[k] != a,
                    decreases list.len() - j,
                {
                    assert(j + 1 < list.len()) by {
                        let w = choose|w: int| 0 <= w < list.len() && list[w] == a;
                        assert(w > j);
                    }
                    j = j + 1;
                }
                self.targeted_by[g].remove(j);
                self.target.set(a, None);
                let ghost new_list = list.remove(j as int);
                assert(self.reverse()[g as int] == new_list);
                assert forall|g2: int| 0 <= g2 < self.num_agents() && g2 != g implies
                    self.reverse()[g2] == old_self.reverse()[g2] by {}
                assert forall|x: int| 0 <= x < new_list.len() implies (#[trigger] new_list[x]) != a
                    && old_self.reverse()[g as int].contains(new_list[x]) by {
                    if x < j {
                        assert(new_list[x] == list[x]);
                    } else {
                        assert(new_list[x] == list[x + 1]);
                    }
                }
                assert(new_list.no_duplicates()) by {
                    assert forall|x: int, y: int| 0 <= x < y < new_list.len() implies
                        new_list[x] != new_list[y] by {
                        let ox = if x < j { x } else { x + 1 };
                        let oy = if y < j { y } else { y + 1 };
                        assert(new_list[x] == list[ox]);
                        assert(new_list[y] == list[oy]);
                    }
                }
                assert forall|a2: int| 0 <= a2 < self.num_attackers() && (#[trigger] self.forward()[a2]) is Some
                    implies self.forward()[a2]->0 < self.num_agents() by {
                    assert(old_self.forward()[a2] == self.forward()[a2]);
                }
                assert forall|g2: int| 0 <= g2 < self.num_agents() implies
                    (#[trigger] self.reverse()[g2]).no_duplicates() by {
                    if g2 != g {
                        assert(self.reverse()[g2] == old_self.reverse()[g2]);
                    }
                }
                assert forall|a2: usize, g2: usize| #[trigger] self.listed(a2, g2) implies self.engages(a2, g2) by {
                    if g2 == g {
                        let x = choose|x: int| 0 <= x < new_list.len() && new_list[x] == a2;
                        assert(old_self.listed(a2, g2));
                    } else {
                        assert(old_self.listed(a2, g2));
                        assert(a2 != a);
                    }
                }
                assert forall|a2: usize, g2: usize| #[trigger] self.engages(a2, g2) implies self.listed(a2, g2) by {
                    assert(a2 != a);
                    assert(old_self.engages(a2, g2));
                    assert(old_self.listed(a2, g2));
                    if g2 == g {
                        let x = choose|x: int| 0 <= x < list.len() && list[x] == a2;
                        assert(x != j);
                        if x < j {
                            assert(new_list[x] == a2);
                        } else {
                            assert(new_list[x - 1] == a2);
                        }
                    }
                }
            },
        }
    }

    /// Makes agent `g` the target of attacker `a`, replacing any edge `a` had.
    pub fn set_target(&mut self, a: usize, g: usize)
        requires
            old(self).wf(),
            a < old(self).num_attackers(),
            g < old(self).num_agents(),
        ensures
            final(self).wf(),
            final(self).forward() == old(self).forward().update(a as int, Some(g)),
            final(self).num_agents() == old(self).num_agents(),
    {
        self.remove_target(a);
        let ghost mid = *self;
        assert(!self.listed(a, g));
        self.targeted_by[g].push(a);
        self.target.set(a, Some(g));
        let ghost list = mid.reverse()[g as int];
        assert(self.reverse()[g as int] == list.push(a));
        assert forall|g2: int| 0 <= g2 < self.num_agents() && g2 != g implies
            self.reverse()[g2] == mid.reverse()[g2] by {}
        assert(list.push(a).no_duplicates()) by {
            assert forall|x: int, y: int| 0 <= x < y < list.push(a).len() implies
                list.push(a)[x] != list.push(a)[y] by {
                if y == list.len() {
                    assert(list.contains(list[x]));
                }
            }
        }
        assert forall|a2: int| 0 <= a2 < self.num_attackers() && (#[trigger] self.forward()[a2]) is Some
            implies self.forward()[a2]->0 < self.num_agents() by {
            if a2 != a {
                assert(mid.forward()[a2] == self.forward()[a2]);
            }
        }
        assert forall|g2: int| 0 <= g2 < self.num_agents() implies
            (#[trigger] self.reverse()[g2]).no_duplicates() by {
            if g2 != g {
                assert(self.reverse()[g2] == mid.reverse()[g2]);
            }
        }
        assert forall|a2: usize, g2: usize| #[trigger] self.listed(a2, g2) implies self.engages(a2, g2) by {
            if g2 == g && a2 == a {
            } else if g2 == g {
                let x = choose|x: int| 0 <= x < list.push(a).len() && list.push(a)[x] == a2;
                assert(x < list.len());
                assert(mid.listed(a2, g2));
            } else {
                assert(mid.listed(a2, g2));
                assert(mid.engages(a2, g2));
            }
        }
        assert forall|a2: usize, g2: usize| #[trigger] self.engages(a2, g2) implies self.listed(a2, g2) by {
            if a2 == a {
                assert(list.push(a)[list.len() as int] == a);
            } else {
                assert(mid.engages(a2, g2));
                assert(mid.listed(a2, g2));
                if g2 == g {
                    let x = choose|x: int| 0 <= x < list.len() && list[x] == a2;
                    assert(list.push(a)[x] == a2);
                }
            }
        }
    }
}

/// Every attacker engages at most one agent: the reverse index never lists an
/// attacker under two different agents.
pub proof fn lemma_at_most_one_target(s: &TargetStore, a: usize, g1: usize, g2: usize)
    requires
        s.wf(),
        s.listed(a, g1),
        s.listed(a, g2),
    ensures
        g1 == g2,
{
    assert(s.engages(a, g1));
    assert(s.engages(a, g2));
}

/// The attackers listed under an agent are exactly those whose edge points to it.
pub proof fn lemma_reverse_index_consistent(s: &TargetStore, g: usize)
    requires
        s.wf(),
        g < s.num_agents(),
    ensures
        s.reverse()[g as int].to_set() == Set::new(|a: usize| s.engages(a, g)),
{
    let lhs = s.reverse()[g as int].to_set();
    let rhs = Set::new(|a: usize| s.engages(a, g));
    assert forall|a: usize| lhs.contains(a) <==> rhs.contains(a) by {
        if lhs.contains(a) {
            assert(s.listed(a, g));
            assert(s.engages(a, g));
        }
        if rhs.contains(a) {
            assert(s.engages(a, g));
            assert(s.listed(a, g));
        }
    }
    assert(lhs =~= rhs);
}

} // verus!

//! The traversal stepper: one breadth-first frontier expansion per call.
//!
//! The frontier is a FIFO queue of `(from, to)` pairs: the traversal
//! arrived at `from` and may continue over a connection to `to`. Popping
//! strictly from the front yields standard layer-by-layer order; within a
//! layer, connections are taken in the order they stand in the world's
//! connection list.

use vstd::prelude::*;
use crate::world::{explored_connections, Connection, World};

verus! {

/// The frontier pairs contributed by the connections incident to
/// `from_node`, in connection-list order: each appears as
/// `(from_node, other_end)`.
pub open spec fn incident_pairs(conns: Seq<Connection>, from_node: u32) -> Seq<(u32, u32)>
    decreases conns.len(),
{
    if conns.len() == 0 {
        Seq::empty()
    } else {
        let rest = incident_pairs(conns.drop_last(), from_node);
        let c = conns.last();
        if c.from_node == from_node {
            rest.push((c.from_node, c.to_node))
        } else if c.to_node == from_node {
            rest.push((c.to_node, c.from_node))
        } else {
            rest
        }
    }
}

/// The index of the first frontier pair whose arrival node is not yet
/// visited, or `-1` when every queued arrival is visited.
pub open spec fn first_unvisited(frontier: Seq<(u32, u32)>, visited: Seq<u32>) -> int
    decreases frontier.len(),
{
    if frontier.len() == 0 {
        -1
    } else if !visited.contains(frontier[0].1) {
        0
    } else {
        let r = first_unvisited(frontier.skip(1), visited);
        if r == -1 {
            -1
        } else {
            r + 1
        }
    }
}

/// `first_unvisited` is `-1` exactly when every queued arrival is
/// visited; otherwise it is the least index with an unvisited arrival.
pub proof fn lemma_first_unvisited_props(frontier: Seq<(u32, u32)>, visited: Seq<u32>)
    ensures
        -1 <= first_unvisited(frontier, visited) < frontier.len(),
        first_unvisited(frontier, visited) == -1 ==> forall|k: int|
            0 <= k < frontier.len() ==> visited.contains((#[trigger] frontier[k]).1),
        first_unvisited(frontier, visited) >= 0 ==> !visited.contains(
            frontier[first_unvisited(frontier, visited)].1,
        ) && forall|k: int|
            0 <= k < first_unvisited(frontier, visited) ==> visited.contains(
                (#[trigger] frontier[k]).1,
            ),
    decreases frontier.len(),
{
    let fu = first_unvisited(frontier, visited);
    if frontier.len() > 0 && visited.contains(frontier[0].1) {
        let rest = frontier.skip(1);
        lemma_first_unvisited_props(rest, visited);
        let r = first_unvisited(rest, visited);
        if r == -1 {
            assert forall|k: int|
                0 <= k < frontier.len() implies visited.contains((#[trigger] frontier[k]).1) by {
                if k > 0 {
                    assert(frontier[k] == rest[k - 1]);
                }
            }
        } else {
            assert(frontier[r + 1] == rest[r]);
            assert forall|k: int| 0 <= k < fu implies visited.contains(
                (#[trigger] frontier[k]).1,
            ) by {
                if k > 0 {
                    assert(frontier[k] == rest[k - 1]);
                }
            }
        }
    }
}

/// Whether `x` is among the visited node identities.
#[verifier::loop_isolation(false)]
fn visited_contains(visited: &Vec<u32>, x: u32) -> (b: bool)
    ensures
        b == visited@.contains(x),
{
    let mut i: usize = 0;
    while i < visited.len()
        invariant
            0 <= i <= visited.len(),
            forall|k: int| 0 <= k < i as int ==> visited@[k] != x,
        decreases visited.len() - i,
    {
        if visited[i] == x {
            return true;
        }
        i = i + 1;
    }
    false
}

/// The breadth-first stepper over a [`World`]: the target node, the FIFO
/// frontier, the set of node identities already claimed, and the
/// terminal flag.
#[derive(Debug)]
pub struct BFSAlgorithm {
    pub target: u32,
    pub frontier: Vec<(u32, u32)>,
    pub visited: Vec<u32>,
    pub ended: bool,
}

impl BFSAlgorithm {
    /// Visited node identities are pairwise distinct: a node enters the
    /// visited set at most once per traversal run, and never leaves it.
    pub open spec fn wf(self) -> bool {
        forall|i: int, j: int|
            0 <= i < j < self.visited@.len() ==> self.visited@[i] != self.visited@[j]
    }

    /// Seeds a traversal: `start` is visited at once and the frontier
    /// holds the pairs of every connection incident to `start`, in list
    /// order. A degenerate run with `start == target` is marked ended
    /// immediately, so the first `step` call terminates without effect.
    pub fn new(start: u32, target: u32, world: &World) -> (alg: BFSAlgorithm)
        ensures
            alg.target == target,
            alg.frontier@ == incident_pairs(world.connections@, start),
            alg.visited@ == seq![start],
            alg.ended == (start == target),
            alg.wf(),
    {
        let mut frontier: Vec<(u32, u32)> = Vec::new();
        BFSAlgorithm::add_all_siblings(start, world, &mut frontier);
        let mut visited: Vec<u32> = Vec::new();
        visited.push(start);
        proof {
            assert(visited@ =~= seq![start]);
        }
        BFSAlgorithm { target, frontier, visited, ended: start == target }
    }

    /// Pushes, for each connection incident to `from_node` in list
    /// order, the frontier pair `(from_node, other_end)`.
    #[verifier::loop_isolation(false)]
    fn add_all_siblings(from_node: u32, world: &World, frontier: &mut Vec<(u32, u32)>)
        ensures
            final(frontier)@ == old(frontier)@ + incident_pairs(world.connections@, from_node),
    {
        let ghost f0 = frontier@;
        let mut i: usize = 0;
        while i < world.connections.len()
            invariant
                0 <= i <= world.connections.len(),
                frontier@ == f0 + incident_pairs(world.connections@.take(i as int), from_node),
            decreases world.connections.len() - i,
        {
            proof {
                assert(world.connections@.take(i as int + 1).drop_last() =~= world.connections@.take(
                    i as int,
                ));
                assert(world.connections@.take(i as int + 1).last() == world.connections@[i as int]);
            }
            let c = &world.connections[i];
            if c.from_node == from_node {
                frontier.push((c.from_node, c.to_node));
            } else if c.to_node == from_node {
                frontier.push((c.to_node, c.from_node));
            }
            i = i + 1;
        }
        proof {
            assert(world.connections@.take(world.connections@.len() as int)
                =~= world.connections@);
        }
    }

    /// One breadth-first expansion.
    ///
    /// Pops frontier pairs in FIFO order until one arrives at an
    /// unvisited node. That pair's connection takes its explore
    /// transition (starting the grow animation, oriented away from the
    /// node the traversal came from). Reaching the target, or running
    /// out of frontier, sets the terminal flag and yields `false`;
    /// otherwise the arrival node is claimed, every connection incident
    /// to it is queued, and the call yields `true`: progress was made.
    ///
    /// A successful step grows the visited set by exactly the one,
    /// previously unclaimed, arrival node.
    #[verifier::loop_isolation(false)]
    pub fn step(&mut self, world: &mut World) -> (progress: bool)
        requires
            old(self).wf(),
            old(world).wf(),
        ensures
            final(self).target == old(self).target,
            final(self).wf(),
            final(world).wf(),
            final(world).nodes@ == old(world).nodes@,
            old(self).ended ==> *final(self) == *old(self) && *final(world) == *old(world)
                && !progress,
            !old(self).ended && first_unvisited(old(self).frontier@, old(self).visited@) == -1
                ==> final(self).ended && final(self).frontier@ == Seq::<(u32, u32)>::empty()
                && final(self).visited@ == old(self).visited@ && *final(world) == *old(world)
                && !progress,
            !old(self).ended && first_unvisited(old(self).frontier@, old(self).visited@) >= 0
                ==> final(world).connections@ == explored_connections(
                old(world).connections@,
                old(self).frontier@[first_unvisited(old(self).frontier@, old(self).visited@)].0,
                old(self).frontier@[first_unvisited(old(self).frontier@, old(self).visited@)].1,
            ),
            !old(self).ended && first_unvisited(old(self).frontier@, old(self).visited@) >= 0
                && old(self).frontier@[first_unvisited(old(self).frontier@, old(self).visited@)].1
                == old(self).target ==> final(self).ended && !progress && final(self).frontier@
                == old(self).frontier@.skip(
                first_unvisited(old(self).frontier@, old(self).visited@) + 1,
            ) && final(self).visited@ == old(self).visited@,
            !old(self).ended && first_unvisited(old(self).frontier@, old(self).visited@) >= 0
                && old(self).frontier@[first_unvisited(old(self).frontier@, old(self).visited@)].1
                != old(self).target ==> !final(self).ended && progress && final(self).visited@
                == old(self).visited@.push(
                old(self).frontier@[first_unvisited(old(self).frontier@, old(self).visited@)].1,
            ) && final(self).frontier@ == old(self).frontier@.skip(
                first_unvisited(old(self).frontier@, old(self).visited@) + 1,
            ) + incident_pairs(
                final(world).connections@,
                old(self).frontier@[first_unvisited(old(self).frontier@, old(self).visited@)].1,
            ),
            progress ==> final(self).visited@.len() == old(self).visited@.len() + 1 && !old(
                self,
            ).visited@.contains(final(self).visited@.last()),
            forall|v: u32|
                old(self).visited@.contains(v) ==> final(self).visited@.contains(v),
    {
        if self.ended {
            return false;
        }
        proof {
            lemma_first_unvisited_props(self.frontier@, self.visited@);
        }
        let ghost f0 = self.frontier@;
        let ghost v0 = self.visited@;
        let ghost fu = first_unvisited(f0, v0);
        let ghost mut popped: int = 0;
        while self.frontier.len() > 0
            invariant
                0 <= popped <= f0.len(),
                self.frontier@ == f0.skip(popped),
                forall|k: int| 0 <= k < popped ==> v0.contains((#[trigger] f0[k]).1),
                self.visited@ == v0,
                self.target == old(self).target,
                self.ended == false,
                *world == *old(world),
            decreases self.frontier.len(),
        {
            let pair = self.frontier.remove(0);
            proof {
                assert(pair == f0[popped]);
                assert(self.frontier@ =~= f0.skip(popped + 1));
            }
            let from = pair.0;
            let to = pair.1;
            if !visited_contains(&self.visited, to) {
                proof {
                    if fu == -1 {
                        assert(v0.contains(f0[popped].1));
                    }
                    if fu < popped {
                        assert(v0.contains(f0[fu].1));
                        assert(!v0.contains(f0[fu].1));
                    }
                    if fu > popped {
                        assert(v0.contains(f0[popped].1));
                    }
                    assert(fu == popped);
                }
                world.explore_between(from, to);
                if to == self.target {
                    self.ended = true;
                    return false;
                }
                self.visited.push(to);
                Self::add_all_siblings(to, world, &mut self.frontier);
                proof {
                    assert forall|i: int, j: int|
                        0 <= i < j < self.visited@.len() implies self.visited@[i]
                        != self.visited@[j] by {
                        if j == self.visited@.len() - 1 {
                            assert(self.visited@[j] == to);
                            assert(self.visited@[i] == v0[i]);
                        }
                    }
                    assert forall|v: u32| v0.contains(v) implies self.visited@.contains(v) by {
                        let idx = choose|idx: int| 0 <= idx < v0.len() && v0[idx] == v;
                        assert(self.visited@[idx] == v);
                    }
                }
                return true;
            }
            proof {
                popped = popped + 1;
            }
        }
        self.ended = true;
        proof {
            if fu >= 0 {
                assert(v0.contains(f0[fu].1));
            }
            assert(self.frontier@ =~= Seq::<(u32, u32)>::empty());
        }
        false
    }
}

} // verus!

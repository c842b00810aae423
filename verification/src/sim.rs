//! The per-frame update: one owned aggregate of world and stepper.
//!
//! Each rendered frame calls [`Simulation::frame`] once. The stepper is
//! advanced only when no connection anywhere holds a running animation —
//! the global single-flight gate — so algorithmic steps never outrun
//! their visualisation and at most one animation is in flight at any
//! time, system-wide.

use vstd::prelude::*;
use crate::bfs::{first_unvisited, incident_pairs, lemma_first_unvisited_props, BFSAlgorithm};
use crate::world::{
    explored_connections, first_match, lemma_first_match_props, node_color, DrawCmd, World,
};

verus! {

/// At most one connection holds a running animation, system-wide.
pub open spec fn at_most_one_active(w: World) -> bool {
    forall|i: int, j: int|
        0 <= i < w.connections@.len() && 0 <= j < w.connections@.len() && (
        #[trigger] w.connections@[i]).animation is Some && (#[trigger] w.connections@[j]).animation
            is Some ==> i == j
}

/// The owned simulation aggregate: the world under traversal and the
/// stepper walking it, advanced by one update call per rendered frame.
#[derive(Debug)]
pub struct Simulation {
    pub world: World,
    pub alg: BFSAlgorithm,
}

impl Simulation {
    /// The world's and the stepper's own invariants hold, and so does
    /// the single-flight guarantee: at most one animation runs anywhere.
    pub open spec fn wf(self) -> bool {
        self.world.wf() && self.alg.wf() && at_most_one_active(self.world)
    }

    /// Seeds a simulation over a freshly built world with no animation
    /// in flight, starting a traversal from `start` towards `target`.
    pub fn new(world: World, start: u32, target: u32) -> (s: Simulation)
        requires
            world.wf(),
            world.idle(),
        ensures
            s.wf(),
            s.world == world,
            s.alg.target == target,
            s.alg.frontier@ == incident_pairs(world.connections@, start),
            s.alg.visited@ == seq![start],
            s.alg.ended == (start == target),
    {
        let alg = BFSAlgorithm::new(start, target, &world);
        Simulation { world, alg }
    }

    /// Advances one rendered frame.
    ///
    /// When no animation is in flight the stepper expands one frontier
    /// entry; otherwise it is left alone. Then every node and every
    /// connection is drawn with `ticks` further elapsed ticks, each
    /// connection settling its own animation. The commands come back in
    /// draw order: one circle per node, then one segment or split per
    /// connection.
    #[verifier::loop_isolation(false)]
    pub fn frame(&mut self, ticks: usize) -> (cmds: Vec<DrawCmd>)
        requires
            old(self).wf(),
        ensures
            final(self).wf(),
            at_most_one_active(final(self).world),
            final(self).world.nodes@ == old(self).world.nodes@,
            final(self).world.connections@.len() == old(self).world.connections@.len(),
            final(self).alg.target == old(self).alg.target,
            !old(self).world.idle() ==> final(self).alg == old(self).alg,
            cmds@.len() == old(self).world.nodes@.len() + old(self).world.connections@.len(),
            forall|k: int|
                0 <= k < old(self).world.nodes@.len() ==> cmds@[k] == (DrawCmd::Circle {
                    center: (#[trigger] old(self).world.nodes@[k]).pos(),
                    color: node_color(old(self).world.nodes@[k].state),
                }),
    {
        let ghost wpre = self.world;
        let ghost apre = self.alg;
        if !self.world.has_active_animation() {
            self.alg.step(&mut self.world);
            proof {
                lemma_first_unvisited_props(apre.frontier@, apre.visited@);
                let fu = first_unvisited(apre.frontier@, apre.visited@);
                if !apre.ended && fu >= 0 {
                    lemma_first_match_props(
                        wpre.connections@,
                        apre.frontier@[fu].0,
                        apre.frontier@[fu].1,
                    );
                }
                assert forall|i: int, j: int|
                    0 <= i < self.world.connections@.len() && 0 <= j
                        < self.world.connections@.len() && (
                    #[trigger] self.world.connections@[i]).animation is Some && (
                    #[trigger] self.world.connections@[j]).animation is Some implies i == j by {
                    if !apre.ended && fu >= 0 {
                        let from = apre.frontier@[fu].0;
                        let to = apre.frontier@[fu].1;
                        let m = first_match(wpre.connections@, from, to);
                        assert(self.world.connections@ == explored_connections(
                            wpre.connections@,
                            from,
                            to,
                        ));
                        if m == -1 {
                            assert(self.world.connections@[i] == wpre.connections@[i]);
                            assert(wpre.connections@[i].animation is None);
                        } else {
                            if i != m {
                                assert(self.world.connections@[i] == wpre.connections@[i]);
                                assert(wpre.connections@[i].animation is None);
                            }
                            if j != m {
                                assert(self.world.connections@[j] == wpre.connections@[j]);
                                assert(wpre.connections@[j].animation is None);
                            }
                        }
                    } else {
                        assert(self.world.connections@[i] == wpre.connections@[i]);
                        assert(wpre.connections@[i].animation is None);
                    }
                }
                assert(at_most_one_active(self.world));
                assert(self.world.connections@.len() == wpre.connections@.len());
            }
        } else {
            proof {
                assert(at_most_one_active(self.world));
            }
        }
        let ghost wmid = self.world;
        let ghost amid = self.alg;
        let mut cmds: Vec<DrawCmd> = Vec::new();
        let mut i: usize = 0;
        while i < self.world.nodes.len()
            invariant
                0 <= i <= self.world.nodes.len(),
                cmds@.len() == i as int,
                forall|k: int|
                    0 <= k < i as int ==> cmds@[k] == (DrawCmd::Circle {
                        center: (#[trigger] self.world.nodes@[k]).pos(),
                        color: node_color(self.world.nodes@[k].state),
                    }),
            decreases self.world.nodes.len() - i,
        {
            let cmd = self.world.nodes[i].draw();
            cmds.push(cmd);
            i = i + 1;
        }
        let nodes_len = self.world.nodes.len();
        let mut j: usize = 0;
        while j < self.world.connections.len()
            invariant
                0 <= j <= self.world.connections.len(),
                self.world.connections@.len() == wmid.connections@.len(),
                self.world.nodes@ == wmid.nodes@,
                self.alg == amid,
                cmds@.len() == nodes_len as int + j as int,
                forall|k: int|
                    0 <= k < nodes_len as int ==> cmds@[k] == (DrawCmd::Circle {
                        center: (#[trigger] self.world.nodes@[k]).pos(),
                        color: node_color(self.world.nodes@[k].state),
                    }),
                forall|k: int|
                    j as int <= k < wmid.connections@.len() ==> self.world.connections@[k]
                        == wmid.connections@[k],
                forall|k: int|
                    0 <= k < j as int ==> ((#[trigger] self.world.connections@[k]).animation
                        is Some ==> wmid.connections@[k].animation is Some),
                forall|k: int|
                    0 <= k < j as int ==> (#[trigger] self.world.connections@[k]).wf(),
            decreases self.world.connections.len() - j,
        {
            let mut c = self.world.connections[j];
            let cmd = c.draw(ticks);
            self.world.connections.set(j, c);
            cmds.push(cmd);
            j = j + 1;
        }
        proof {
            assert forall|a: int, b: int|
                0 <= a < self.world.connections@.len() && 0 <= b < self.world.connections@.len()
                    && (#[trigger] self.world.connections@[a]).animation is Some && (
                #[trigger] self.world.connections@[b]).animation is Some implies a == b by {
                assert(wmid.connections@[a].animation is Some);
                assert(wmid.connections@[b].animation is Some);
            }
        }
        cmds
    }
}

} // verus!

//! The graph being traversed and its per-entity draw state.
//!
//! A [`World`] owns nodes and the connections (edges) between them. Each
//! connection carries a finite traversal state driving its colour, and at
//! most one running [`Linear`] animation. Drawing yields plain
//! [`DrawCmd`] values; a renderer outside the crate turns them into
//! filled shapes.

use vstd::prelude::*;
use crate::animation::{AnimationTimer, Linear, LinearConfig};
use crate::geom::{euclidean_dist, dist_spec, lerp_point_spec, Point};

verus! {

/// The palette the renderer is asked for; which colour an entity gets is
/// decided here, keyed by its state.
#[derive(Clone, Copy, Debug, PartialEq, Eq, Structural)]
pub enum DrawColor {
    Black,
    Red,
    Blue,
    Green,
    White,
}

/// The traversal tag of a node. Tags are assigned at setup (start and
/// target chosen once); the stepper itself leaves node tags alone.
#[derive(Clone, Copy, Debug, PartialEq, Eq, Structural)]
pub enum NodeState {
    New,
    Visited,
    Start,
    Target,
}

/// The traversal state of a connection. `BestPath` is a reserved
/// extension point for path highlighting: nothing in the stepper assigns
/// it.
#[derive(Clone, Copy, Debug, PartialEq, Eq, Structural)]
pub enum ConnectionState {
    Unexplored,
    Exploring,
    Explored,
    BestPath,
}

/// The colour a node of the given tag is filled with.
pub open spec fn node_color(s: NodeState) -> DrawColor {
    match s {
        NodeState::New => DrawColor::Black,
        NodeState::Visited => DrawColor::Red,
        NodeState::Start => DrawColor::Blue,
        NodeState::Target => DrawColor::Green,
    }
}

/// The colour a connection in the given state is filled with when no
/// animation is running on it.
pub open spec fn edge_color(s: ConnectionState) -> DrawColor {
    match s {
        ConnectionState::Unexplored => DrawColor::Black,
        ConnectionState::Exploring => DrawColor::Red,
        ConnectionState::Explored => DrawColor::Red,
        ConnectionState::BestPath => DrawColor::Blue,
    }
}

/// One filled shape for the renderer.
#[derive(Clone, Copy, Debug, PartialEq, Eq, Structural)]
pub enum DrawCmd {
    /// A node: a filled circle at `center`.
    Circle { center: Point, color: DrawColor },
    /// A settled connection: a thick segment from `a` to `b` in one colour.
    Segment { a: Point, b: Point, color: DrawColor },
    /// An animating connection: the grown part runs from `from` to `mid`
    /// in `grown`, the remainder from `to` back to `mid` in `rest`.
    Split { from: Point, mid: Point, to: Point, grown: DrawColor, rest: DrawColor },
}

/// A node: a position in screen units and a traversal tag.
#[derive(Clone, Copy, Debug, PartialEq, Eq, Structural)]
pub struct Node {
    pub x: i64,
    pub y: i64,
    pub state: NodeState,
}

impl Node {
    /// The node's position as a point.
    pub open spec fn pos(self) -> Point {
        Point { x: self.x, y: self.y }
    }

    /// The node's coordinates are within the geometry's bounds.
    pub open spec fn in_bounds(self) -> bool {
        self.pos().in_bounds()
    }

    /// A fresh node at the given position, not yet touched by any
    /// traversal.
    pub fn new(x: i64, y: i64) -> (n: Node)
        ensures
            n == (Node { x, y, state: NodeState::New }),
    {
        Node { x, y, state: NodeState::New }
    }

    /// The draw command for this node: a circle at its position, coloured
    /// by its tag.
    pub fn draw(&self) -> (cmd: DrawCmd)
        ensures
            cmd == (DrawCmd::Circle { center: self.pos(), color: node_color(self.state) }),
    {
        let color = match self.state {
            NodeState::New => DrawColor::Black,
            NodeState::Visited => DrawColor::Red,
            NodeState::Start => DrawColor::Blue,
            NodeState::Target => DrawColor::Green,
        };
        DrawCmd::Circle { center: Point { x: self.x, y: self.y }, color }
    }
}

/// Animation speed: a connection's grow animation lasts
/// `distance * GROW_NUM / GROW_DEN` ticks, i.e. thirty ticks per second at
/// a constant front velocity, so longer edges animate proportionally
/// longer.
pub const GROW_NUM: u64 = 25;

/// See [`GROW_NUM`].
pub const GROW_DEN: u64 = 128;

/// An edge of the graph: its endpoint node indices, denormalised endpoint
/// coordinates, traversal state, and at most one running animation.
#[derive(Clone, Copy, Debug)]
pub struct Connection {
    pub from_node: u32,
    pub to_node: u32,
    pub from_coord: Point,
    pub to_coord: Point,
    pub animation: Option<Linear>,
    pub state: ConnectionState,
}

impl Connection {
    /// Both endpoint coordinates are within the geometry's bounds.
    pub open spec fn wf(self) -> bool {
        self.from_coord.in_bounds() && self.to_coord.in_bounds()
    }

    /// How many ticks this connection's grow animation lasts.
    pub open spec fn duration_spec(self) -> int {
        dist_spec(self.from_coord, self.to_coord) * (GROW_NUM as int) / (GROW_DEN as int)
    }

    /// The segment a grow animation runs along, oriented so it visually
    /// originates at the node the traversal arrived from.
    pub open spec fn oriented_spec(self, from_node: u32) -> (Point, Point) {
        if from_node == self.from_node {
            (self.from_coord, self.to_coord)
        } else {
            (self.to_coord, self.from_coord)
        }
    }

    /// The animation `explore` starts on an unexplored connection.
    pub open spec fn animation_spec(self, from_node: u32) -> Linear {
        Linear {
            state: self.oriented_spec(from_node),
            timer: AnimationTimer { at_frame: 0, frames_count: self.duration_spec() as usize },
        }
    }

    /// The connection after its explore transition: unexplored becomes
    /// exploring with a fresh animation; any other state is left alone.
    pub open spec fn explore_spec(self, from_node: u32) -> Connection {
        if self.state is Unexplored {
            Connection {
                state: ConnectionState::Exploring,
                animation: Some(self.animation_spec(from_node)),
                ..self
            }
        } else {
            self
        }
    }

    /// Starts the grow animation, oriented away from `from_node`, over a
    /// frame budget proportional to the connection's length.
    fn animate(&mut self, from_node: u32)
        requires
            old(self).wf(),
        ensures
            *final(self) == (Connection {
                animation: Some(old(self).animation_spec(from_node)),
                ..*old(self)
            }),
    {
        let d: u64 = euclidean_dist(self.from_coord, self.to_coord);
        let frames64: u64 = d * GROW_NUM / GROW_DEN;
        let frames: usize = frames64 as usize;
        let begin: (Point, Point) = if from_node == self.from_node {
            (self.from_coord, self.to_coord)
        } else {
            (self.to_coord, self.from_coord)
        };
        let anim = LinearConfig { begin_state: begin, frame_count: frames }.start();
        proof {
            assert(frames as int == self.duration_spec());
            assert(anim == old(self).animation_spec(from_node));
        }
        self.animation = Some(anim);
    }

    /// The explore transition: an unexplored connection becomes exploring
    /// and starts its grow animation; on any other state the call leaves
    /// the connection untouched, so a second call never starts a second
    /// animation.
    pub fn explore(&mut self, from_node: u32)
        requires
            old(self).wf(),
        ensures
            *final(self) == old(self).explore_spec(from_node),
    {
        match self.state {
            ConnectionState::Unexplored => {
                self.state = ConnectionState::Exploring;
                self.animate(from_node);
            },
            ConnectionState::Exploring => {},
            ConnectionState::Explored => {},
            ConnectionState::BestPath => {},
        }
    }

    /// The explore transition is idempotent: a second transition, from
    /// whatever node, changes nothing about the connection.
    pub proof fn lemma_explore_idempotent(c: Connection, from_node: u32, again: u32)
        ensures
            c.explore_spec(from_node).explore_spec(again) == c.explore_spec(from_node),
    {
    }

    /// Draws the connection and settles its animation.
    ///
    /// While an animation runs, the command splits the segment at the
    /// animation front after `ticks` further elapsed ticks; a finished
    /// animation is dropped and the connection degrades to `Explored`.
    /// With no animation, the command is the full segment coloured by the
    /// connection's state.
    pub fn draw(&mut self, ticks: usize) -> (cmd: DrawCmd)
        ensures
            old(self).animation is None ==> *final(self) == *old(self) && cmd == (DrawCmd::Segment {
                a: old(self).from_coord,
                b: old(self).to_coord,
                color: edge_color(old(self).state),
            }),
            old(self).animation matches Some(anim) ==> {
                let frac = anim.timer.fraction(ticks as int);
                let timer1 = anim.timer.advanced(ticks as int);
                &&& cmd == (DrawCmd::Split {
                    from: anim.state.0,
                    mid: lerp_point_spec(anim.state.0, anim.state.1, frac.num as int, frac.den as int),
                    to: anim.state.1,
                    grown: DrawColor::Red,
                    rest: DrawColor::Black,
                })
                &&& timer1.ended_spec() ==> *final(self) == (Connection {
                    animation: None,
                    state: ConnectionState::Explored,
                    ..*old(self)
                })
                &&& !timer1.ended_spec() ==> *final(self) == (Connection {
                    animation: Some(Linear { timer: timer1, ..anim }),
                    ..*old(self)
                })
            },
            final(self).animation is Some ==> old(self).animation is Some,
            final(self).from_node == old(self).from_node,
            final(self).to_node == old(self).to_node,
            final(self).from_coord == old(self).from_coord,
            final(self).to_coord == old(self).to_coord,
    {
        match self.animation {
            Some(mut anim) => {
                let mid = anim.draw(ticks);
                let cmd = DrawCmd::Split {
                    from: anim.state.0,
                    mid,
                    to: anim.state.1,
                    grown: DrawColor::Red,
                    rest: DrawColor::Black,
                };
                if anim.is_ended() {
                    self.animation = None;
                    self.state = ConnectionState::Explored;
                } else {
                    self.animation = Some(anim);
                }
                cmd
            },
            None => {
                let color = match self.state {
                    ConnectionState::Unexplored => DrawColor::Black,
                    ConnectionState::Exploring => DrawColor::Red,
                    ConnectionState::Explored => DrawColor::Red,
                    ConnectionState::BestPath => DrawColor::Blue,
                };
                DrawCmd::Segment { a: self.from_coord, b: self.to_coord, color }
            },
        }
    }
}

/// Whether `c` connects `from` and `to`, in either stored orientation.
pub open spec fn pair_matches(c: Connection, from: u32, to: u32) -> bool {
    (c.from_node == from && c.to_node == to) || (c.from_node == to && c.to_node == from)
}

/// The index of the first connection joining `from` and `to`, or `-1` if
/// none does.
pub open spec fn first_match(conns: Seq<Connection>, from: u32, to: u32) -> int
    decreases conns.len(),
{
    if conns.len() == 0 {
        -1
    } else if pair_matches(conns[0], from, to) {
        0
    } else {
        let r = first_match(conns.skip(1), from, to);
        if r == -1 {
            -1
        } else {
            r + 1
        }
    }
}

/// `first_match` is `-1` exactly when nothing matches; otherwise it is
/// the least matching index.
pub proof fn lemma_first_match_props(conns: Seq<Connection>, from: u32, to: u32)
    ensures
        -1 <= first_match(conns, from, to) < conns.len(),
        first_match(conns, from, to) == -1 ==> forall|k: int|
            0 <= k < conns.len() ==> !pair_matches(#[trigger] conns[k], from, to),
        first_match(conns, from, to) >= 0 ==> pair_matches(conns[first_match(conns, from, to)], from, to)
            && forall|k: int|
            0 <= k < first_match(conns, from, to) ==> !pair_matches(#[trigger] conns[k], from, to),
    decreases conns.len(),
{
    let fm = first_match(conns, from, to);
    if conns.len() > 0 && !pair_matches(conns[0], from, to) {
        let rest = conns.skip(1);
        lemma_first_match_props(rest, from, to);
        let r = first_match(rest, from, to);
        if r == -1 {
            assert forall|k: int|
                0 <= k < conns.len() implies !pair_matches(#[trigger] conns[k], from, to) by {
                if k > 0 {
                    assert(conns[k] == rest[k - 1]);
                }
            }
        } else {
            assert(conns[r + 1] == rest[r]);
            assert forall|k: int| 0 <= k < fm implies !pair_matches(#[trigger] conns[k], from, to) by {
                if k > 0 {
                    assert(conns[k] == rest[k - 1]);
                }
            }
        }
    }
}

/// The connection sequence after the explore transition of the first
/// connection joining `from` and `to`; unchanged when none does.
pub open spec fn explored_connections(conns: Seq<Connection>, from: u32, to: u32) -> Seq<
    Connection,
> {
    let k = first_match(conns, from, to);
    if k == -1 {
        conns
    } else {
        conns.update(k, conns[k].explore_spec(from))
    }
}

/// The graph under traversal: nodes, and the connections between them.
#[derive(Clone, Debug)]
pub struct World {
    pub nodes: Vec<Node>,
    pub connections: Vec<Connection>,
}

impl World {
    /// Every connection's coordinates are within the geometry's bounds.
    pub open spec fn wf(self) -> bool {
        forall|i: int| 0 <= i < self.connections@.len() ==> (#[trigger] self.connections@[i]).wf()
    }

    /// No connection holds a running animation.
    pub open spec fn idle(self) -> bool {
        forall|i: int|
            0 <= i < self.connections@.len() ==> (#[trigger] self.connections@[i]).animation is None
    }

    /// The connection an edge of the input list denormalises to.
    pub open spec fn conn_init(nodes: Seq<Node>, e: (u32, u32)) -> Connection {
        Connection {
            from_node: e.0,
            to_node: e.1,
            from_coord: nodes[e.0 as int].pos(),
            to_coord: nodes[e.1 as int].pos(),
            animation: None,
            state: ConnectionState::Unexplored,
        }
    }

    /// Assembles a world from nodes and an edge list. Every edge must
    /// reference valid node indices; each becomes an unexplored
    /// connection carrying copies of its endpoints' coordinates.
    #[verifier::loop_isolation(false)]
    pub fn new(nodes: Vec<Node>, edges: Vec<(u32, u32)>) -> (w: World)
        requires
            forall|i: int| 0 <= i < nodes@.len() ==> (#[trigger] nodes@[i]).in_bounds(),
            forall|i: int|
                0 <= i < edges@.len() ==> (#[trigger] edges@[i]).0 < nodes@.len() && edges@[i].1
                    < nodes@.len(),
        ensures
            w.nodes@ == nodes@,
            w.connections@.len() == edges@.len(),
            forall|i: int|
                0 <= i < edges@.len() ==> w.connections@[i] == World::conn_init(
                    nodes@,
                    #[trigger] edges@[i],
                ),
            w.wf(),
            w.idle(),
    {
        let mut connections: Vec<Connection> = Vec::new();
        let mut i: usize = 0;
        while i < edges.len()
            invariant
                0 <= i <= edges.len(),
                connections@.len() == i as int,
                forall|k: int|
                    0 <= k < i as int ==> connections@[k] == World::conn_init(
                        nodes@,
                        #[trigger] edges@[k],
                    ),
            decreases edges.len() - i,
        {
            let e = edges[i];
            let n1 = &nodes[e.0 as usize];
            let n2 = &nodes[e.1 as usize];
            connections.push(
                Connection {
                    from_node: e.0,
                    to_node: e.1,
                    from_coord: Point { x: n1.x, y: n1.y },
                    to_coord: Point { x: n2.x, y: n2.y },
                    animation: None,
                    state: ConnectionState::Unexplored,
                },
            );
            i = i + 1;
        }
        proof {
            assert forall|k: int|
                0 <= k < connections@.len() implies (#[trigger] connections@[k]).wf()
                && connections@[k].animation is None by {
                assert(connections@[k] == World::conn_init(nodes@, edges@[k]));
                assert(nodes@[edges@[k].0 as int].in_bounds());
                assert(nodes@[edges@[k].1 as int].in_bounds());
            }
        }
        World { nodes, connections }
    }

    /// Whether any connection holds a running animation: the condition
    /// the per-frame single-flight gate tests.
    #[verifier::loop_isolation(false)]
    pub fn has_active_animation(&self) -> (b: bool)
        ensures
            b == !self.idle(),
    {
        let mut i: usize = 0;
        while i < self.connections.len()
            invariant
                0 <= i <= self.connections.len(),
                forall|k: int|
                    0 <= k < i as int ==> (#[trigger] self.connections@[k]).animation is None,
            decreases self.connections.len() - i,
        {
            if self.connections[i].animation.is_some() {
                return true;
            }
            i = i + 1;
        }
        false
    }

    /// Applies the explore transition to the first connection joining
    /// `from` and `to`; does nothing when no connection does.
    #[verifier::loop_isolation(false)]
    pub fn explore_between(&mut self, from: u32, to: u32)
        requires
            old(self).wf(),
        ensures
            final(self).nodes@ == old(self).nodes@,
            final(self).connections@ == explored_connections(old(self).connections@, from, to),
            final(self).wf(),
    {
        proof {
            lemma_first_match_props(self.connections@, from, to);
        }
        let mut i: usize = 0;
        while i < self.connections.len()
            invariant
                0 <= i <= self.connections.len(),
                *self == *old(self),
                forall|k: int|
                    0 <= k < i as int ==> !pair_matches(#[trigger] self.connections@[k], from, to),
            decreases self.connections.len() - i,
        {
            let c = self.connections[i];
            let matches_here = (c.from_node == from && c.to_node == to) || (c.from_node == to
                && c.to_node == from);
            if matches_here {
                let mut updated = c;
                updated.explore(from);
                self.connections.set(i, updated);
                proof {
                    assert(first_match(old(self).connections@, from, to) == i as int);
                }
                return ;
            }
            i = i + 1;
        }
        proof {
            assert(first_match(old(self).connections@, from, to) == -1);
        }
    }
}

} // verus!

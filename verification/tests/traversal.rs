use bfs_anim::bfs::BFSAlgorithm;
use bfs_anim::geom::Point;
use bfs_anim::world::{ConnectionState, DrawCmd, DrawColor, Node, NodeState, World};

fn grid_nodes(positions: &[(i64, i64)]) -> Vec<Node> {
    positions.iter().map(|&(x, y)| Node::new(x, y)).collect()
}

#[test]
fn world_new_denormalises_edges() {
    let nodes = grid_nodes(&[(0, 0), (10, 20), (30, 40)]);
    let world = World::new(nodes, vec![(0, 2), (2, 1)]);
    assert_eq!(world.nodes.len(), 3);
    assert_eq!(world.connections.len(), 2);
    let c = &world.connections[0];
    assert_eq!((c.from_node, c.to_node), (0, 2));
    assert_eq!(c.from_coord, Point { x: 0, y: 0 });
    assert_eq!(c.to_coord, Point { x: 30, y: 40 });
    assert!(c.animation.is_none());
    assert_eq!(c.state, ConnectionState::Unexplored);
    let c = &world.connections[1];
    assert_eq!((c.from_node, c.to_node), (2, 1));
    assert_eq!(c.from_coord, Point { x: 30, y: 40 });
    assert_eq!(c.to_coord, Point { x: 10, y: 20 });
}

#[test]
fn node_draw_colors_follow_tags() {
    let mut n = Node::new(5, 6);
    assert_eq!(n.draw(), DrawCmd::Circle { center: Point { x: 5, y: 6 }, color: DrawColor::Black });
    n.state = NodeState::Visited;
    assert_eq!(n.draw(), DrawCmd::Circle { center: Point { x: 5, y: 6 }, color: DrawColor::Red });
    n.state = NodeState::Start;
    assert_eq!(n.draw(), DrawCmd::Circle { center: Point { x: 5, y: 6 }, color: DrawColor::Blue });
    n.state = NodeState::Target;
    assert_eq!(n.draw(), DrawCmd::Circle { center: Point { x: 5, y: 6 }, color: DrawColor::Green });
}

#[test]
fn explore_starts_animation_with_distance_scaled_budget() {
    let nodes = grid_nodes(&[(0, 0), (0, 512)]);
    let mut world = World::new(nodes, vec![(0, 1)]);
    let mut c = world.connections.remove(0);
    c.explore(0);
    assert_eq!(c.state, ConnectionState::Exploring);
    let anim = c.animation.expect("explore must start an animation");
    // distance 512 at 30 ticks per second and velocity 768/5: 512 * 25 / 128
    assert_eq!(anim.timer.frames_count, 100);
    assert_eq!(anim.timer.at_frame, 0);
    assert_eq!(anim.state.0, Point { x: 0, y: 0 });
    assert_eq!(anim.state.1, Point { x: 0, y: 512 });
}

#[test]
fn explore_orients_away_from_arrival_node() {
    let nodes = grid_nodes(&[(0, 0), (0, 512)]);
    let mut world = World::new(nodes, vec![(0, 1)]);
    let mut c = world.connections.remove(0);
    c.explore(1);
    let anim = c.animation.expect("explore must start an animation");
    assert_eq!(anim.state.0, Point { x: 0, y: 512 });
    assert_eq!(anim.state.1, Point { x: 0, y: 0 });
}

#[test]
fn explore_twice_is_idempotent() {
    let nodes = grid_nodes(&[(0, 0), (0, 512)]);
    let mut world = World::new(nodes, vec![(0, 1)]);
    let mut c = world.connections.remove(0);
    c.explore(0);
    let first = c.animation.expect("explore must start an animation");
    c.explore(0);
    assert_eq!(c.state, ConnectionState::Exploring);
    let second = c.animation.expect("second explore must not drop the animation");
    assert_eq!(second.timer.at_frame, first.timer.at_frame);
    assert_eq!(second.timer.frames_count, first.timer.frames_count);
    assert_eq!(second.state.0, first.state.0);
    assert_eq!(second.state.1, first.state.1);
    // a second explore from the other side must not restart or reorient
    c.explore(1);
    let third = c.animation.expect("third explore must not drop the animation");
    assert_eq!(third.state.0, first.state.0);
    assert_eq!(third.state.1, first.state.1);
}

#[test]
fn explored_connection_stays_explored_after_second_explore() {
    let nodes = grid_nodes(&[(0, 0), (0, 512)]);
    let mut world = World::new(nodes, vec![(0, 1)]);
    let mut c = world.connections.remove(0);
    c.explore(0);
    // run the animation to its end: it settles on the next draw
    let cmd = c.draw(1000);
    assert!(matches!(cmd, DrawCmd::Split { .. }));
    assert_eq!(c.state, ConnectionState::Explored);
    assert!(c.animation.is_none());
    c.explore(0);
    assert_eq!(c.state, ConnectionState::Explored);
    assert!(c.animation.is_none());
}

#[test]
fn draw_without_animation_colors_by_state() {
    let nodes = grid_nodes(&[(0, 0), (0, 512)]);
    let mut world = World::new(nodes, vec![(0, 1)]);
    let mut c = world.connections.remove(0);
    let a = Point { x: 0, y: 0 };
    let b = Point { x: 0, y: 512 };
    assert_eq!(c.draw(1), DrawCmd::Segment { a, b, color: DrawColor::Black });
    c.state = ConnectionState::Exploring;
    assert_eq!(c.draw(1), DrawCmd::Segment { a, b, color: DrawColor::Red });
    c.state = ConnectionState::Explored;
    assert_eq!(c.draw(1), DrawCmd::Segment { a, b, color: DrawColor::Red });
    c.state = ConnectionState::BestPath;
    assert_eq!(c.draw(1), DrawCmd::Segment { a, b, color: DrawColor::Blue });
}

#[test]
fn draw_splits_at_the_animation_front() {
    let nodes = grid_nodes(&[(0, 0), (0, 512)]);
    let mut world = World::new(nodes, vec![(0, 1)]);
    let mut c = world.connections.remove(0);
    c.explore(0);
    // budget is 100 ticks; after 25 the front is a quarter of the way
    let cmd = c.draw(25);
    assert_eq!(
        cmd,
        DrawCmd::Split {
            from: Point { x: 0, y: 0 },
            mid: Point { x: 0, y: 128 },
            to: Point { x: 0, y: 512 },
            grown: DrawColor::Red,
            rest: DrawColor::Black,
        }
    );
    assert_eq!(c.state, ConnectionState::Exploring);
    assert!(c.animation.is_some());
}

#[test]
fn start_equal_target_terminates_on_first_step() {
    let nodes = grid_nodes(&[(0, 0), (0, 100)]);
    let mut world = World::new(nodes, vec![(0, 1)]);
    let mut alg = BFSAlgorithm::new(0, 0, &world);
    assert!(alg.ended);
    assert!(!alg.step(&mut world));
    assert_eq!(world.connections[0].state, ConnectionState::Unexplored);
    assert!(world.connections[0].animation.is_none());
    assert_eq!(alg.visited, vec![0]);
}

#[test]
fn star_graph_visits_leaves_in_edge_list_order() {
    let nodes = grid_nodes(&[(0, 0), (100, 0), (0, 100), (-100, 0), (0, -100), (100, 100)]);
    let edges = vec![(0u32, 1u32), (0, 2), (0, 3), (0, 4), (0, 5)];
    let mut world = World::new(nodes, edges);
    let mut alg = BFSAlgorithm::new(0, 5, &world);
    assert_eq!(alg.visited, vec![0]);
    assert_eq!(alg.frontier, vec![(0, 1), (0, 2), (0, 3), (0, 4), (0, 5)]);

    assert!(alg.step(&mut world));
    assert_eq!(alg.visited, vec![0, 1]);
    assert!(alg.step(&mut world));
    assert_eq!(alg.visited, vec![0, 1, 2]);
    assert!(alg.step(&mut world));
    assert_eq!(alg.visited, vec![0, 1, 2, 3]);
    assert!(alg.step(&mut world));
    assert_eq!(alg.visited, vec![0, 1, 2, 3, 4]);
    // the fifth leaf is the target: the stepper halts without claiming it
    assert!(!alg.step(&mut world));
    assert!(alg.ended);
    assert_eq!(alg.visited, vec![0, 1, 2, 3, 4]);
    // every leaf edge took its explore transition exactly in list order
    for c in &world.connections {
        assert_eq!(c.state, ConnectionState::Exploring);
    }
}

#[test]
fn unreachable_target_exhausts_the_frontier() {
    let nodes = grid_nodes(&[(0, 0), (0, 100), (500, 0), (500, 100)]);
    let mut world = World::new(nodes, vec![(0, 1), (2, 3)]);
    let mut alg = BFSAlgorithm::new(0, 3, &world);
    assert!(alg.step(&mut world));
    assert_eq!(alg.visited, vec![0, 1]);
    assert!(!alg.step(&mut world));
    assert!(alg.ended);
    assert!(alg.frontier.is_empty());
    assert_eq!(alg.visited, vec![0, 1]);
    assert_eq!(world.connections[1].state, ConnectionState::Unexplored);
}

#[test]
fn step_after_ended_has_no_effect() {
    let nodes = grid_nodes(&[(0, 0), (0, 100)]);
    let mut world = World::new(nodes, vec![(0, 1)]);
    let mut alg = BFSAlgorithm::new(0, 1, &world);
    assert!(!alg.step(&mut world));
    assert!(alg.ended);
    let visited_before = alg.visited.clone();
    assert!(!alg.step(&mut world));
    assert_eq!(alg.visited, visited_before);
}

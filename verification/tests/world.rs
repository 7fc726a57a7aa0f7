use polycons::config::WorldConfig;
use polycons::geometry::{Point, Vec2};
use polycons::line::Line;
use polycons::node::Node;
use polycons::world::World;

use rand::SeedableRng;

fn config(max_strength: i64, line_threshold: i64) -> WorldConfig {
    WorldConfig { max_strength, line_threshold }
}

fn node_at(x: i32, y: i32) -> Node {
    Node::new(Point { x, y }, Vec2 { x: 0, y: 0 }, 1)
}

#[test]
fn new_world_keeps_its_parts() {
    let nodes = vec![node_at(1, 2), node_at(3, 4)];
    let w = World::new(nodes.clone(), (640, 480), config(100, 150));
    assert_eq!(w.nodes(), &nodes);
    assert_eq!(w.dimensions, (640, 480));
    assert_eq!(w.config, config(100, 150));
}

#[test]
fn random_world_respects_the_ranges() {
    let mut rng = rand::rngs::StdRng::seed_from_u64(7);
    let w = World::random(&mut rng, 40, (320, 200), config(100, 100), (-9, 10), (5, 6));
    assert_eq!(w.nodes().len(), 40);
    for n in w.nodes().iter() {
        let p = n.get_position();
        assert!(0 <= p.x && p.x < 320);
        assert!(0 <= p.y && p.y < 200);
        // The radius range is a single value: sampling must hit it exactly.
        assert_eq!(n.get_radius(), 5);
    }
    // A population this large in a world this wide does not sit on one spot.
    let first = w.nodes()[0].get_position();
    assert!(w.nodes().iter().any(|n| n.get_position() != first));
}

#[test]
fn step_nodes_with_zero_dt_keeps_every_position() {
    let mut rng = rand::rngs::StdRng::seed_from_u64(11);
    let mut w = World::random(&mut rng, 25, (320, 200), config(100, 100), (-9, 10), (1, 4));
    let before: Vec<Point> = w.nodes().iter().map(|n| n.get_position()).collect();
    w.step_nodes(0);
    let after: Vec<Point> = w.nodes().iter().map(|n| n.get_position()).collect();
    assert_eq!(before, after);
}

#[test]
fn step_nodes_steps_each_node_in_order() {
    let a = Node::new(Point { x: 10, y: 10 }, Vec2 { x: 1, y: 2 }, 2);
    let b = Node::new(Point { x: 20, y: 20 }, Vec2 { x: -1, y: 0 }, 2);
    let mut w = World::new(vec![a, b], (100, 100), config(100, 100));
    assert!(w.can_step_nodes(3));
    w.step_nodes(3);
    assert_eq!(w.nodes()[0].xy(), (13, 16));
    assert_eq!(w.nodes()[1].xy(), (17, 20));
}

#[test]
fn derive_lines_is_deterministic() {
    let mut rng = rand::rngs::StdRng::seed_from_u64(3);
    let w = World::random(&mut rng, 30, (100, 100), config(100, 120), (-5, 5), (1, 3));
    let first = w.calculate_lines();
    let second = w.calculate_lines();
    assert_eq!(first, second);
}

#[test]
fn derive_lines_does_not_touch_the_nodes() {
    let mut rng = rand::rngs::StdRng::seed_from_u64(5);
    let w = World::random(&mut rng, 20, (100, 100), config(100, 120), (-5, 5), (1, 3));
    let before: Vec<Node> = w.nodes().clone();
    let _ = w.calculate_lines();
    assert_eq!(w.nodes(), &before);
}

#[test]
fn close_population_yields_ordered_pair_duplication() {
    // Three nodes, pairwise distances within the threshold and above zero:
    // every ordered pair of distinct nodes produces a line, 3 * 2 in all.
    let w = World::new(
        vec![node_at(0, 0), node_at(30, 40), node_at(60, 0)],
        (100, 100),
        config(100, 100),
    );
    let lines = w.calculate_lines();
    assert_eq!(lines.len(), 6);
}

#[test]
fn mirrored_pair_order_and_strength() {
    // Two nodes at distance 50 (a 3-4-5 triangle), max == threshold == 100:
    // strength truncates to 127. The outer iteration fixes the start node,
    // the inner one the end, so the pair appears once in each orientation.
    let a = node_at(0, 0);
    let b = node_at(30, 40);
    let w = World::new(vec![a, b], (100, 100), config(100, 100));
    let lines = w.calculate_lines();
    assert_eq!(lines.len(), 2);
    assert_eq!(lines[0].start(), &Point { x: 0, y: 0 });
    assert_eq!(lines[0].end(), &Point { x: 30, y: 40 });
    assert_eq!(lines[0].get_strength(), 127);
    assert_eq!(lines[1].start(), &Point { x: 30, y: 40 });
    assert_eq!(lines[1].end(), &Point { x: 0, y: 0 });
    assert_eq!(lines[1].get_strength(), 127);
    let (s, e) = lines[0].endpoints();
    assert_eq!((s, e), (&Point { x: 0, y: 0 }, &Point { x: 30, y: 40 }));
}

#[test]
fn coincident_nodes_produce_no_line() {
    // Same position, different radii and velocities: never a line, whatever
    // the configuration.
    let a = Node::new(Point { x: 42, y: 42 }, Vec2 { x: 1, y: 1 }, 3);
    let b = Node::new(Point { x: 42, y: 42 }, Vec2 { x: -2, y: 5 }, 9);
    assert_eq!(Line::try_new(&a, &b, 100, 100), None);
    assert_eq!(Line::try_new(&a, &b, 5000, 17), None);
    let w = World::new(vec![a, b], (100, 100), config(100, 100));
    assert_eq!(w.calculate_lines().len(), 0);
}

#[test]
fn distant_nodes_produce_no_line() {
    let a = node_at(0, 0);
    let b = node_at(0, 99);
    assert_eq!(Line::try_new(&a, &b, 100, 99), None);
    let w = World::new(vec![a, b], (100, 100), config(100, 99));
    assert_eq!(w.calculate_lines().len(), 0);
}

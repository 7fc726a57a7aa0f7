use polycons::geometry::{Point, Vec2};
use polycons::node::Node;

#[test]
fn step_displaces_by_velocity_times_dt() {
    let mut n = Node::new(Point { x: 50, y: 60 }, Vec2 { x: 3, y: -2 }, 5);
    n.step(4, (200, 200));
    assert_eq!(n.xy(), (62, 52));
    assert_eq!(n.get_radius(), 5);
}

#[test]
fn bounce_at_lower_wall_with_zero_dt_flips_velocity_only() {
    // Exactly at x = radius with positive x velocity: one step with dt = 0
    // negates the x velocity and leaves the position untouched.
    let mut n = Node::new(Point { x: 5, y: 50 }, Vec2 { x: 7, y: 1 }, 5);
    n.step(0, (100, 100));
    assert_eq!(n.get_position(), Point { x: 5, y: 50 });
    assert_eq!(n.x(), 5);
    assert_eq!(n.y(), 50);
    let mut again = Node::new(Point { x: 5, y: 50 }, Vec2 { x: 7, y: 1 }, 5);
    again.step(0, (100, 100));
    // Stepping the same state twice is deterministic.
    assert_eq!(n, again);
}

#[test]
fn bounce_flips_velocity_sign() {
    // After the zero-dt bounce, a positive dt moves the node away from the
    // wall: the velocity really was negated.
    let mut n = Node::new(Point { x: 5, y: 50 }, Vec2 { x: -7, y: 0 }, 5);
    n.step(1, (100, 100));
    assert_eq!(n.xy(), (12, 50));
}

#[test]
fn upper_wall_is_exclusive_at_equality() {
    // At x == dimension - radius the upper test does not fire (strict >),
    // and x > radius keeps the lower test quiet too.
    let mut n = Node::new(Point { x: 95, y: 50 }, Vec2 { x: 2, y: 0 }, 5);
    n.step(1, (100, 100));
    assert_eq!(n.xy(), (97, 50));
    // One unit past it, the test fires.
    let mut m = Node::new(Point { x: 96, y: 50 }, Vec2 { x: 2, y: 0 }, 5);
    m.step(1, (100, 100));
    assert_eq!(m.xy(), (94, 50));
}

#[test]
fn still_node_strictly_inside_is_unaffected() {
    let mut n = Node::new(Point { x: 50, y: 50 }, Vec2 { x: 0, y: 0 }, 5);
    n.step(1000, (100, 100));
    assert_eq!(n, Node::new(Point { x: 50, y: 50 }, Vec2 { x: 0, y: 0 }, 5));
}

#[test]
fn negative_dt_is_accepted_and_moves_backward() {
    let mut n = Node::new(Point { x: 50, y: 50 }, Vec2 { x: 3, y: 1 }, 5);
    n.step(-2, (100, 100));
    assert_eq!(n.xy(), (44, 48));
}

#[test]
fn can_step_rejects_a_step_past_the_coordinate_range() {
    let n = Node::new(Point { x: 2000000000, y: 0 }, Vec2 { x: 2000000000, y: 0 }, 1);
    assert!(!n.can_step(2, (2100000000, 100)));
    assert!(n.can_step(0, (2100000000, 100)));
}

//! A single moving circular particle, and the wall-bounce motion integrator
//! that advances it by one tick.

use vstd::prelude::*;

use crate::geometry::{Point, Vec2};
use crate::rng::sample_range;

verus! {

/// A moving circular particle: position, velocity and a radius that is fixed
/// for the node's lifetime.
#[derive(Clone, Copy, Debug, PartialEq, Eq, Structural, Hash)]
pub struct Node {
    pub position: Point,
    pub velocity: Vec2,
    pub radius: i32,
}

/// The wall-bounce test on the x axis, over the pre-step position: the lower
/// bound is inclusive, the upper bound exclusive.
pub open spec fn flips_x(n: Node, dimensions: (i32, i32)) -> bool {
    n.position.x <= n.radius || n.position.x > dimensions.0 - n.radius
}

/// The wall-bounce test on the y axis, mirroring the x axis rule.
pub open spec fn flips_y(n: Node, dimensions: (i32, i32)) -> bool {
    n.position.y <= n.radius || n.position.y > dimensions.1 - n.radius
}

/// The x velocity after one step: negated exactly when the bounce test fires.
pub open spec fn vel_x_after(n: Node, dimensions: (i32, i32)) -> int {
    if flips_x(n, dimensions) {
        -n.velocity.x
    } else {
        n.velocity.x as int
    }
}

/// The y velocity after one step.
pub open spec fn vel_y_after(n: Node, dimensions: (i32, i32)) -> int {
    if flips_y(n, dimensions) {
        -n.velocity.y
    } else {
        n.velocity.y as int
    }
}

/// The x position after one step: displaced by the post-bounce velocity.
pub open spec fn pos_x_after(n: Node, dimensions: (i32, i32), dt: int) -> int {
    n.position.x + vel_x_after(n, dimensions) * dt
}

/// The y position after one step.
pub open spec fn pos_y_after(n: Node, dimensions: (i32, i32), dt: int) -> int {
    n.position.y + vel_y_after(n, dimensions) * dt
}

/// The stepped coordinates stay representable in the fixed-point coordinate
/// type; a machine limit, not a rule of the simulation.
pub open spec fn step_fits(n: Node, dimensions: (i32, i32), dt: int) -> bool {
    &&& i32::MIN <= vel_x_after(n, dimensions) <= i32::MAX
    &&& i32::MIN <= vel_y_after(n, dimensions) <= i32::MAX
    &&& i32::MIN <= pos_x_after(n, dimensions, dt) <= i32::MAX
    &&& i32::MIN <= pos_y_after(n, dimensions, dt) <= i32::MAX
}

/// The node `n` advanced by one step of `dt` inside `dimensions`.
pub open spec fn stepped(n: Node, dimensions: (i32, i32), dt: int) -> Node {
    Node {
        position: Point {
            x: pos_x_after(n, dimensions, dt) as i32,
            y: pos_y_after(n, dimensions, dt) as i32,
        },
        velocity: Vec2 {
            x: vel_x_after(n, dimensions) as i32,
            y: vel_y_after(n, dimensions) as i32,
        },
        radius: n.radius,
    }
}

impl Node {
    /// Builds a node from its parts.
    pub fn new(position: Point, velocity: Vec2, radius: i32) -> (n: Node)
        ensures
            n == (Node { position, velocity, radius }),
    {
        Node { position, velocity, radius }
    }

    /// Draws a node uniformly at random: position within the world bounds,
    /// velocity components and radius within the given half-open ranges.
    pub fn random(
        rng: &mut rand::rngs::StdRng,
        dimensions: &(i32, i32),
        min_max_v: &(i32, i32),
        min_max_radius: &(i32, i32),
    ) -> (n: Node)
        requires
            0 < dimensions.0,
            0 < dimensions.1,
            min_max_v.0 < min_max_v.1,
            min_max_radius.0 < min_max_radius.1,
        ensures
            0 <= n.position.x < dimensions.0,
            0 <= n.position.y < dimensions.1,
            min_max_v.0 <= n.velocity.x < min_max_v.1,
            min_max_v.0 <= n.velocity.y < min_max_v.1,
            min_max_radius.0 <= n.radius < min_max_radius.1,
    {
        let position = Point {
            x: sample_range(rng, 0, dimensions.0),
            y: sample_range(rng, 0, dimensions.1),
        };
        let velocity = Vec2 {
            x: sample_range(rng, min_max_v.0, min_max_v.1),
            y: sample_range(rng, min_max_v.0, min_max_v.1),
        };
        let radius = sample_range(rng, min_max_radius.0, min_max_radius.1);
        Node::new(position, velocity, radius)
    }

    /// Advances the node by `dt`: first the bounce test on each axis over the
    /// pre-step position, then the displacement by the post-bounce velocity.
    pub fn step(&mut self, dt: i32, dimensions: (i32, i32))
        requires
            step_fits(*old(self), dimensions, dt as int),
        ensures
            *final(self) == stepped(*old(self), dimensions, dt as int),
    {
        let x = self.position.x;
        if x <= self.radius || (x as i64) > (dimensions.0 as i64) - (self.radius as i64) {
            self.velocity.x = -self.velocity.x;
        }

        let y = self.position.y;
        if y <= self.radius || (y as i64) > (dimensions.1 as i64) - (self.radius as i64) {
            self.velocity.y = -self.velocity.y;
        }

        let dx: i64 = (self.velocity.x as i64) * (dt as i64);
        let dy: i64 = (self.velocity.y as i64) * (dt as i64);
        let nx: i64 = (self.position.x as i64) + dx;
        let ny: i64 = (self.position.y as i64) + dy;
        self.position.x = nx as i32;
        self.position.y = ny as i32;
    }

    /// Whether one step of `dt` keeps this node's coordinates representable.
    pub fn can_step(&self, dt: i32, dimensions: (i32, i32)) -> (b: bool)
        ensures
            b == step_fits(*self, dimensions, dt as int),
    {
        let vx: i64 = if self.position.x <= self.radius
            || (self.position.x as i64) > (dimensions.0 as i64) - (self.radius as i64) {
            -(self.velocity.x as i64)
        } else {
            self.velocity.x as i64
        };
        let vy: i64 = if self.position.y <= self.radius
            || (self.position.y as i64) > (dimensions.1 as i64) - (self.radius as i64) {
            -(self.velocity.y as i64)
        } else {
            self.velocity.y as i64
        };
        assert(-0x4000000000000000 <= vx * dt <= 0x4000000000000000
            && -0x4000000000000000 <= vy * dt <= 0x4000000000000000) by (nonlinear_arith)
            requires
                -0x80000000 <= vx <= 0x80000000,
                -0x80000000 <= vy <= 0x80000000,
                -0x80000000 <= dt <= 0x7fffffff,
        ;
        let dx: i64 = vx * (dt as i64);
        let dy: i64 = vy * (dt as i64);
        let nx: i64 = (self.position.x as i64) + dx;
        let ny: i64 = (self.position.y as i64) + dy;
        (-0x80000000 <= vx && vx <= 0x7fffffff)
            && (-0x80000000 <= vy && vy <= 0x7fffffff)
            && (-0x80000000 <= nx && nx <= 0x7fffffff)
            && (-0x80000000 <= ny && ny <= 0x7fffffff)
    }

    /// The x coordinate of the node's position.
    pub fn x(&self) -> (r: i32)
        ensures
            r == self.position.x,
    {
        self.position.x
    }

    /// The y coordinate of the node's position.
    pub fn y(&self) -> (r: i32)
        ensures
            r == self.position.y,
    {
        self.position.y
    }

    /// Both coordinates of the node's position.
    pub fn xy(&self) -> (r: (i32, i32))
        ensures
            r == (self.position.x, self.position.y),
    {
        (self.x(), self.y())
    }

    /// A copy of the node's position.
    pub fn get_position(&self) -> (p: Point)
        ensures
            p == self.position,
    {
        self.position
    }

    /// The node's radius.
    pub fn get_radius(&self) -> (r: i32)
        ensures
            r == self.radius,
    {
        self.radius
    }

    /// A borrow of the node's position.
    pub fn position(&self) -> (p: &Point)
        ensures
            p == self.position,
    {
        &self.position
    }

    /// A borrow of the node's radius.
    pub fn radius(&self) -> (r: &i32)
        ensures
            r == self.radius,
    {
        &self.radius
    }
}

/// A node placed exactly at `x = radius` with positive x velocity has that
/// velocity negated by one step with `dt = 0`, and its position is untouched.
pub proof fn lemma_wall_bounce_flips_velocity(n: Node, dimensions: (i32, i32))
    requires
        n.position.x == n.radius,
        0 < n.velocity.x,
    ensures
        stepped(n, dimensions, 0).velocity.x == -n.velocity.x,
        stepped(n, dimensions, 0).position == n.position,
{
    assert(vel_x_after(n, dimensions) * 0 == 0) by (nonlinear_arith);
    assert(vel_y_after(n, dimensions) * 0 == 0) by (nonlinear_arith);
}

/// A node strictly inside the bounds with no velocity is unaffected by a step
/// of any `dt`.
pub proof fn lemma_still_node_unaffected(n: Node, dimensions: (i32, i32), dt: int)
    requires
        n.velocity == (Vec2 { x: 0, y: 0 }),
        n.radius < n.position.x <= dimensions.0 - n.radius,
        n.radius < n.position.y <= dimensions.1 - n.radius,
    ensures
        stepped(n, dimensions, dt) == n,
{
    assert(vel_x_after(n, dimensions) * dt == 0) by (nonlinear_arith)
        requires vel_x_after(n, dimensions) == 0
    ;
    assert(vel_y_after(n, dimensions) * dt == 0) by (nonlinear_arith)
        requires vel_y_after(n, dimensions) == 0
    ;
}

/// A step with `dt = 0` never displaces a node: the bounce test may still
/// flip a velocity sign, but the position is unchanged.
pub proof fn lemma_zero_dt_keeps_position(n: Node, dimensions: (i32, i32))
    ensures
        stepped(n, dimensions, 0).position == n.position,
        stepped(n, dimensions, 0).radius == n.radius,
{
    assert(vel_x_after(n, dimensions) * 0 == 0) by (nonlinear_arith);
    assert(vel_y_after(n, dimensions) * 0 == 0) by (nonlinear_arith);
}

} // verus!

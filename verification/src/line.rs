//! Derived visual connectors between nearby nodes, and the quantization that
//! maps a distance to a line strength.

use vstd::prelude::*;

use vstd::arithmetic::div_mod::{lemma_div_is_ordered, lemma_div_multiples_vanish};
use vstd::arithmetic::mul::{lemma_mul_inequality, lemma_mul_nonnegative};

use crate::geometry::{dist, distance, Point};
use crate::node::Node;

verus! {

/// An immutable connector between two copied node positions, with a strength
/// that is always in `1..=255`: a strength of zero is never represented, such
/// a line simply does not exist.
#[derive(Clone, Copy, Debug, PartialEq, Eq, Structural, Hash)]
pub struct Line {
    pub start: Point,
    pub end: Point,
    pub strength: u8,
}

/// The strength quantization, stated over unbounded integers. In exact
/// arithmetic the falloff `max - max * distance / threshold` is cut off below
/// zero (`distance > threshold`), clamped to `max` (`distance < 0`), and
/// rescaled by `255 / max`, which cancels `max` exactly: what remains is
/// `255 * (threshold - distance) / threshold`, truncated once, at the final
/// cast. A result of zero stands for "no line".
pub open spec fn alpha_of(distance: int, max: int, threshold: int) -> Option<u8>
    recommends
        1 <= max,
        1 <= threshold,
{
    if distance > threshold {
        None
    } else {
        let scaled = if distance < 0 {
            255int
        } else {
            255 * (threshold - distance) / threshold
        };
        if scaled == 0 {
            None
        } else {
            Some(scaled as u8)
        }
    }
}

/// The candidate line for the ordered node pair `(start, end)`: none when the
/// positions coincide, none when the quantized strength vanishes, otherwise a
/// line copying both positions.
pub open spec fn line_for(start: Node, end: Node, max: int, threshold: int) -> Option<Line>
    recommends
        1 <= max,
        1 <= threshold,
{
    if start.position == end.position {
        None
    } else {
        match alpha_of(dist(start.position, end.position), max, threshold) {
            Some(a) => Some(
                Line { start: start.position, end: end.position, strength: a },
            ),
            None => None,
        }
    }
}

/// A full rescale is exactly `255`, whatever the positive divisor.
proof fn lemma_rescale_full(t: int)
    requires
        1 <= t,
    ensures
        255 * t / t == 255,
{
    lemma_div_multiples_vanish(255, t);
    assert(255 * t == t * 255) by (nonlinear_arith);
}

/// `0 <= a <= t` rescales into `0..=255`.
proof fn lemma_rescale_bounds(a: int, t: int)
    requires
        0 <= a <= t,
        1 <= t,
    ensures
        0 <= 255 * a / t <= 255,
{
    lemma_mul_nonnegative(255, a);
    lemma_mul_inequality(a, t, 255);
    assert(a * 255 == 255 * a && t * 255 == 255 * t) by (nonlinear_arith);
    lemma_div_is_ordered(255 * a, 255 * t, t);
    lemma_rescale_full(t);
    vstd::arithmetic::div_mod::lemma_div_pos_is_pos(255 * a, t);
}

impl Line {
    /// The strength quantization over the fixed-point types. `strength` is
    /// the distance between the two nodes; the returned alpha decays linearly
    /// from 255 at distance zero to none at `threshold` and beyond, truncated
    /// once at the final cast. `max` scales the intermediate falloff and the
    /// rescale by `255 / max` cancels it again, so it never shifts the result.
    pub fn strength_alpha(strength: i64, max: i64, threshold: i64) -> (r: Option<u8>)
        requires
            1 <= max,
            1 <= threshold,
        ensures
            r == alpha_of(strength as int, max as int, threshold as int),
    {
        if strength > threshold {
            // The falloff term exceeds `max`, so the adjusted value is
            // negative: the distance is past the threshold.
            return None;
        }
        if strength < 0 {
            // The falloff term is negative, so the adjusted value exceeds
            // `max`, is clamped to it, and rescales to exactly 255.
            return Some(255);
        }
        let t = threshold as u128;
        let diff = t - (strength as u128);
        assert(255 * diff < 0x8000000000000000000) by (nonlinear_arith)
            requires diff < 0x8000000000000000u128
        ;
        let scaled = (255 * diff) / t;
        proof {
            lemma_rescale_bounds(diff as int, t as int);
        }
        if scaled == 0 {
            None
        } else {
            Some(scaled as u8)
        }
    }

    /// Attempts to derive the line for the ordered pair `(start, end)`:
    /// coincident positions never produce a line; otherwise the strength
    /// quantization of their distance decides.
    pub fn try_new(
        start: &Node,
        end: &Node,
        max_strength: i64,
        distance_threshold: i64,
    ) -> (r: Option<Line>)
        requires
            1 <= max_strength,
            1 <= distance_threshold,
        ensures
            r == line_for(*start, *end, max_strength as int, distance_threshold as int),
    {
        if start.position().x == end.position().x && start.position().y == end.position().y {
            return None;
        }
        let d = distance(start.position(), end.position());
        match Line::strength_alpha(d, max_strength, distance_threshold) {
            Some(alpha) => Some(
                Line { start: start.get_position(), end: end.get_position(), strength: alpha },
            ),
            None => None,
        }
    }

    /// A borrow of the line's start position.
    pub fn start(&self) -> (p: &Point)
        ensures
            p == self.start,
    {
        &self.start
    }

    /// A borrow of the line's end position.
    pub fn end(&self) -> (p: &Point)
        ensures
            p == self.end,
    {
        &self.end
    }

    /// Both endpoints of the line.
    pub fn endpoints(&self) -> (r: (&Point, &Point))
        ensures
            r.0 == self.start,
            r.1 == self.end,
    {
        (self.start(), self.end())
    }

    /// The line's quantized strength.
    pub fn get_strength(&self) -> (s: u8)
        ensures
            s == self.strength,
    {
        self.strength
    }
}

/// At distance zero the strength is always the full 255.
pub proof fn lemma_alpha_at_zero_distance(max: int, threshold: int)
    requires
        1 <= max,
        1 <= threshold,
    ensures
        alpha_of(0, max, threshold) == Some(255u8),
{
    lemma_rescale_full(threshold);
}

/// At or past the threshold no strength results.
pub proof fn lemma_alpha_at_or_past_threshold(distance: int, max: int, threshold: int)
    requires
        1 <= max,
        1 <= threshold,
        distance >= threshold,
    ensures
        alpha_of(distance, max, threshold) is None,
{
    if distance <= threshold {
        assert(255 * (threshold - distance) == 0) by (nonlinear_arith)
            requires threshold - distance == 0
        ;
        vstd::arithmetic::div_mod::lemma_div_of0(threshold);
    }
}

/// Strictly between distance zero and the threshold, with `max` equal to the
/// threshold, the strength is the truncation of `255 * (threshold - distance)
/// / threshold`, and only a truncation of exactly zero yields no line.
pub proof fn lemma_alpha_linear_when_max_is_threshold(distance: int, threshold: int)
    requires
        1 <= threshold,
        0 < distance < threshold,
    ensures
        alpha_of(distance, threshold, threshold) == (if 255 * (threshold - distance) / threshold
            == 0 {
            None::<u8>
        } else {
            Some((255 * (threshold - distance) / threshold) as u8)
        }),
{
    lemma_rescale_bounds(threshold - distance, threshold);
}

/// Nodes at identical positions never produce a line, whatever the radii and
/// the configuration.
pub proof fn lemma_no_line_when_coincident(start: Node, end: Node, max: int, threshold: int)
    requires
        start.position == end.position,
    ensures
        line_for(start, end, max, threshold) is None,
{
}

} // verus!

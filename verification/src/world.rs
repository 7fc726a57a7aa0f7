//! The bounded rectangular world: it owns the node population, advances every
//! node each tick, and derives the full visibility graph of lines.

use vstd::prelude::*;

use vstd::pervasive::VecAdditionalExecFns;

use crate::config::WorldConfig;
use crate::line::{line_for, Line};
use crate::node::{step_fits, stepped, Node};

verus! {

/// The candidate line as a sequence: one line, or nothing.
pub open spec fn opt_to_seq(o: Option<Line>) -> Seq<Line> {
    match o {
        Some(l) => seq![l],
        None => Seq::empty(),
    }
}

/// The lines attempted from one fixed `start` node toward every node of
/// `ends`, in order.
pub open spec fn lines_from(start: Node, ends: Seq<Node>, max: int, threshold: int) -> Seq<Line>
    decreases ends.len(),
{
    if ends.len() == 0 {
        Seq::empty()
    } else {
        lines_from(start, ends.drop_last(), max, threshold) + opt_to_seq(
            line_for(start, ends.last(), max, threshold),
        )
    }
}

/// The lines attempted from every node of `starts` toward every node of
/// `ends`, in order: the full Cartesian product of ordered pairs, `start`
/// outermost.
pub open spec fn lines_between(
    starts: Seq<Node>,
    ends: Seq<Node>,
    max: int,
    threshold: int,
) -> Seq<Line>
    decreases starts.len(),
{
    if starts.len() == 0 {
        Seq::empty()
    } else {
        lines_between(starts.drop_last(), ends, max, threshold) + lines_from(
            starts.last(),
            ends,
            max,
            threshold,
        )
    }
}

/// Every line visible for the given population and configuration. Each
/// unordered pair of distinct nodes is attempted twice, once in each order,
/// so a connected pair contributes two mirrored lines.
pub open spec fn derived_lines(nodes: Seq<Node>, config: WorldConfig) -> Seq<Line> {
    lines_between(nodes, nodes, config.max_strength as int, config.line_threshold as int)
}

/// The world: a fixed node population inside fixed bounds, with a fixed line
/// configuration. Only the node state ever mutates.
pub struct World {
    pub nodes: Vec<Node>,
    pub dimensions: (i32, i32),
    pub config: WorldConfig,
}

impl World {
    /// A world is well formed when its configuration is.
    pub open spec fn wf(self) -> bool {
        self.config.wf()
    }

    /// Builds a world from an explicit population.
    pub fn new(nodes: Vec<Node>, dimensions: (i32, i32), config: WorldConfig) -> (w: World)
        requires
            config.wf(),
        ensures
            w.nodes == nodes,
            w.dimensions == dimensions,
            w.config == config,
            w.wf(),
    {
        World { nodes, dimensions, config }
    }

    /// Builds a world of `num_nodes` random nodes: positions uniform within
    /// the bounds, velocity components and radii uniform within the given
    /// half-open ranges.
    pub fn random(
        rng: &mut rand::rngs::StdRng,
        num_nodes: usize,
        dimensions: (i32, i32),
        config: WorldConfig,
        min_max_v: (i32, i32),
        min_max_radius: (i32, i32),
    ) -> (w: World)
        requires
            config.wf(),
            0 < dimensions.0,
            0 < dimensions.1,
            min_max_v.0 < min_max_v.1,
            min_max_radius.0 < min_max_radius.1,
        ensures
            w.dimensions == dimensions,
            w.config == config,
            w.wf(),
            w.nodes@.len() == num_nodes,
            forall|i: int|
                0 <= i < num_nodes ==> {
                    &&& 0 <= #[trigger] w.nodes@[i].position.x < dimensions.0
                    &&& 0 <= w.nodes@[i].position.y < dimensions.1
                    &&& min_max_v.0 <= w.nodes@[i].velocity.x < min_max_v.1
                    &&& min_max_v.0 <= w.nodes@[i].velocity.y < min_max_v.1
                    &&& min_max_radius.0 <= w.nodes@[i].radius < min_max_radius.1
                },
    {
        let mut nodes: Vec<Node> = Vec::new();
        let mut k: usize = 0;
        while k < num_nodes
            invariant
                k <= num_nodes,
                nodes@.len() == k,
                0 < dimensions.0,
                0 < dimensions.1,
                min_max_v.0 < min_max_v.1,
                min_max_radius.0 < min_max_radius.1,
                forall|i: int|
                    0 <= i < k ==> {
                        &&& 0 <= #[trigger] nodes@[i].position.x < dimensions.0
                        &&& 0 <= nodes@[i].position.y < dimensions.1
                        &&& min_max_v.0 <= nodes@[i].velocity.x < min_max_v.1
                        &&& min_max_v.0 <= nodes@[i].velocity.y < min_max_v.1
                        &&& min_max_radius.0 <= nodes@[i].radius < min_max_radius.1
                    },
            decreases num_nodes - k,
        {
            let node = Node::random(rng, &dimensions, &min_max_v, &min_max_radius);
            nodes.push(node);
            k = k + 1;
        }
        World::new(nodes, dimensions, config)
    }

    /// Advances every node by `dt`, in population order; the nodes do not
    /// interact, so each is stepped independently.
    pub fn step_nodes(&mut self, dt: i32)
        requires
            forall|i: int|
                0 <= i < old(self).nodes@.len() ==> step_fits(
                    #[trigger] old(self).nodes@[i],
                    old(self).dimensions,
                    dt as int,
                ),
        ensures
            final(self).dimensions == old(self).dimensions,
            final(self).config == old(self).config,
            final(self).nodes@.len() == old(self).nodes@.len(),
            forall|i: int|
                0 <= i < old(self).nodes@.len() ==> #[trigger] final(self).nodes@[i] == stepped(
                    old(self).nodes@[i],
                    old(self).dimensions,
                    dt as int,
                ),
    {
        let dimensions = self.dimensions;
        let n = self.nodes.len();
        let mut i: usize = 0;
        while i < n
            invariant
                i <= n,
                n == self.nodes@.len() == old(self).nodes@.len(),
                self.dimensions == old(self).dimensions,
                self.config == old(self).config,
                dimensions == self.dimensions,
                forall|k: int|
                    0 <= k < n ==> step_fits(
                        #[trigger] old(self).nodes@[k],
                        old(self).dimensions,
                        dt as int,
                    ),
                forall|k: int|
                    i <= k < n ==> #[trigger] self.nodes@[k] == old(self).nodes@[k],
                forall|k: int|
                    0 <= k < i ==> #[trigger] self.nodes@[k] == stepped(
                        old(self).nodes@[k],
                        old(self).dimensions,
                        dt as int,
                    ),
            decreases n - i,
        {
            let mut node = self.nodes[i];
            node.step(dt, dimensions);
            self.nodes.set(i, node);
            i = i + 1;
        }
    }

    /// Whether every node of the population can be stepped by `dt` without
    /// leaving the fixed-point coordinate range.
    pub fn can_step_nodes(&self, dt: i32) -> (b: bool)
        ensures
            b == forall|i: int|
                0 <= i < self.nodes@.len() ==> step_fits(
                    #[trigger] self.nodes@[i],
                    self.dimensions,
                    dt as int,
                ),
    {
        let n = self.nodes.len();
        let mut i: usize = 0;
        while i < n
            invariant
                i <= n,
                n == self.nodes@.len(),
                forall|k: int|
                    0 <= k < i ==> step_fits(#[trigger] self.nodes@[k], self.dimensions, dt as int),
            decreases n - i,
        {
            if !self.nodes[i].can_step(dt, self.dimensions) {
                return false;
            }
            i = i + 1;
        }
        true
    }

    /// Derives every visible line from the current node positions, read-only:
    /// for each node as `start`, every node is attempted as `end`, in
    /// population order.
    pub fn calculate_lines(&self) -> (lines: Vec<Line>)
        requires
            self.wf(),
        ensures
            lines@ == derived_lines(self.nodes@, self.config),
    {
        let ghost all = self.nodes@;
        let ghost m = self.config.max_strength as int;
        let ghost t = self.config.line_threshold as int;
        let mut lines: Vec<Line> = Vec::new();
        let n = self.nodes.len();
        let mut i: usize = 0;
        assert(all.take(0) =~= Seq::<Node>::empty());
        while i < n
            invariant
                i <= n,
                n == all.len(),
                all == self.nodes@,
                m == self.config.max_strength as int,
                t == self.config.line_threshold as int,
                self.wf(),
                lines@ == lines_between(all.take(i as int), all, m, t),
            decreases n - i,
        {
            let mut j: usize = 0;
            assert(all.take(0) =~= Seq::<Node>::empty());
            assert(lines_from(all[i as int], all.take(0), m, t) =~= Seq::<Line>::empty());
            while j < n
                invariant
                    i < n,
                    j <= n,
                    n == all.len(),
                    all == self.nodes@,
                    m == self.config.max_strength as int,
                    t == self.config.line_threshold as int,
                    self.wf(),
                    lines@ == lines_between(all.take(i as int), all, m, t) + lines_from(
                        all[i as int],
                        all.take(j as int),
                        m,
                        t,
                    ),
                decreases n - j,
            {
                let ghost pre = lines@;
                let r = Line::try_new(
                    &self.nodes[i],
                    &self.nodes[j],
                    self.config.max_strength,
                    self.config.line_threshold,
                );
                match r {
                    Some(l) => lines.push(l),
                    None => {},
                }
                proof {
                    let jj = j as int;
                    assert(all.take(jj + 1).drop_last() =~= all.take(jj));
                    assert(all.take(jj + 1).last() == all[jj]);
                    assert(lines_from(all[i as int], all.take(jj + 1), m, t) == lines_from(
                        all[i as int],
                        all.take(jj),
                        m,
                        t,
                    ) + opt_to_seq(line_for(all[i as int], all[jj], m, t)));
                    assert(lines@ =~= pre + opt_to_seq(line_for(all[i as int], all[jj], m, t)));
                    assert(lines@ =~= lines_between(all.take(i as int), all, m, t) + lines_from(
                        all[i as int],
                        all.take(jj + 1),
                        m,
                        t,
                    ));
                }
                j = j + 1;
            }
            proof {
                let ii = i as int;
                assert(all.take(n as int) =~= all);
                assert(all.take(ii + 1).drop_last() =~= all.take(ii));
                assert(all.take(ii + 1).last() == all[ii]);
                assert(lines_between(all.take(ii + 1), all, m, t) == lines_between(
                    all.take(ii),
                    all,
                    m,
                    t,
                ) + lines_from(all[ii], all, m, t));
            }
            i = i + 1;
        }
        proof {
            assert(all.take(n as int) =~= all);
        }
        lines
    }

    /// A borrow of the node population, in creation order.
    pub fn nodes(&self) -> (r: &Vec<Node>)
        ensures
            r == self.nodes,
    {
        &self.nodes
    }
}

/// A step of the whole population with `dt = 0` leaves every node's position
/// unchanged: the bounce tests may still flip velocity signs, but no
/// displacement occurs.
pub proof fn lemma_step_all_zero_dt_keeps_positions(nodes: Seq<Node>, dimensions: (i32, i32))
    ensures
        forall|i: int|
            0 <= i < nodes.len() ==> stepped(#[trigger] nodes[i], dimensions, 0).position
                == nodes[i].position,
{
    assert forall|i: int| 0 <= i < nodes.len() implies stepped(
        #[trigger] nodes[i],
        dimensions,
        0,
    ).position == nodes[i].position by {
        crate::node::lemma_zero_dt_keeps_position(nodes[i], dimensions);
    }
}

/// Line derivation is a pure function of the node state and configuration:
/// two derivations over the same state are equal, element for element.
pub proof fn lemma_derivation_deterministic(
    first: Seq<Line>,
    second: Seq<Line>,
    nodes: Seq<Node>,
    config: WorldConfig,
)
    requires
        first == derived_lines(nodes, config),
        second == derived_lines(nodes, config),
    ensures
        first == second,
{
}

/// Splitting the end population splits the derived lines from one start.
proof fn lemma_lines_from_concat(start: Node, a: Seq<Node>, b: Seq<Node>, max: int, threshold: int)
    ensures
        lines_from(start, a + b, max, threshold) == lines_from(start, a, max, threshold)
            + lines_from(start, b, max, threshold),
    decreases b.len(),
{
    if b.len() == 0 {
        assert(a + b =~= a);
        assert(lines_from(start, b, max, threshold) =~= Seq::<Line>::empty());
        assert(lines_from(start, a, max, threshold) + lines_from(start, b, max, threshold)
            =~= lines_from(start, a, max, threshold));
    } else {
        lemma_lines_from_concat(start, a, b.drop_last(), max, threshold);
        assert((a + b).drop_last() =~= a + b.drop_last());
        assert((a + b).last() == b.last());
        assert(lines_from(start, a, max, threshold) + (lines_from(
            start,
            b.drop_last(),
            max,
            threshold,
        ) + opt_to_seq(line_for(start, b.last(), max, threshold))) =~= (lines_from(
            start,
            a,
            max,
            threshold,
        ) + lines_from(start, b.drop_last(), max, threshold)) + opt_to_seq(
            line_for(start, b.last(), max, threshold),
        ));
    }
}

/// When the start produces a line toward every end, the count equals the end
/// population size.
proof fn lemma_lines_from_all_some(start: Node, ends: Seq<Node>, max: int, threshold: int)
    requires
        forall|j: int|
            0 <= j < ends.len() ==> line_for(start, #[trigger] ends[j], max, threshold) is Some,
    ensures
        lines_from(start, ends, max, threshold).len() == ends.len(),
    decreases ends.len(),
{
    if ends.len() > 0 {
        lemma_lines_from_all_some(start, ends.drop_last(), max, threshold);
    }
}

/// From one fixed start, distinct in position from every other node and
/// connected to each, the whole population receives one line per other node.
proof fn lemma_lines_from_count_at(nodes: Seq<Node>, s: int, max: int, threshold: int)
    requires
        0 <= s < nodes.len(),
        forall|j: int|
            0 <= j < nodes.len() && j != s ==> line_for(
                nodes[s],
                #[trigger] nodes[j],
                max,
                threshold,
            ) is Some,
    ensures
        lines_from(nodes[s], nodes, max, threshold).len() == nodes.len() - 1,
{
    let a = nodes.take(s);
    let b = seq![nodes[s]];
    let c = nodes.skip(s + 1);
    assert(nodes =~= (a + b) + c);
    lemma_lines_from_concat(nodes[s], a + b, c, max, threshold);
    lemma_lines_from_concat(nodes[s], a, b, max, threshold);
    lemma_lines_from_all_some(nodes[s], a, max, threshold);
    lemma_lines_from_all_some(nodes[s], c, max, threshold);
    assert(b.drop_last() =~= Seq::<Node>::empty());
    assert(b.last() == nodes[s]);
    assert(line_for(nodes[s], nodes[s], max, threshold) is None);
    assert(opt_to_seq(line_for(nodes[s], nodes[s], max, threshold)) =~= Seq::<Line>::empty());
    assert(lines_from(nodes[s], Seq::<Node>::empty(), max, threshold) =~= Seq::<Line>::empty());
    assert(lines_from(nodes[s], b, max, threshold) == lines_from(
        nodes[s],
        b.drop_last(),
        max,
        threshold,
    ) + opt_to_seq(line_for(nodes[s], b.last(), max, threshold)));
    assert(lines_from(nodes[s], b, max, threshold) =~= Seq::<Line>::empty());
}

/// The count over the first `k` starts, each connected to every other node.
proof fn lemma_lines_between_count(nodes: Seq<Node>, k: int, max: int, threshold: int)
    requires
        0 <= k <= nodes.len(),
        forall|i: int, j: int|
            0 <= i < nodes.len() && 0 <= j < nodes.len() && i != j ==> line_for(
                #[trigger] nodes[i],
                #[trigger] nodes[j],
                max,
                threshold,
            ) is Some,
    ensures
        lines_between(nodes.take(k), nodes, max, threshold).len() == k * (nodes.len() - 1),
    decreases k,
{
    if k == 0 {
        assert(nodes.take(0) =~= Seq::<Node>::empty());
        assert(0 * (nodes.len() - 1) == 0) by (nonlinear_arith);
    } else {
        lemma_lines_between_count(nodes, k - 1, max, threshold);
        assert(nodes.take(k).drop_last() =~= nodes.take(k - 1));
        assert(nodes.take(k).last() == nodes[k - 1]);
        lemma_lines_from_count_at(nodes, k - 1, max, threshold);
        assert(k * (nodes.len() - 1) == (k - 1) * (nodes.len() - 1) + (nodes.len() - 1))
            by (nonlinear_arith);
    }
}

/// On `n` nodes whose positions are pairwise distinct (all pairwise distances
/// above zero) and whose pairwise strengths do not vanish, the derivation
/// produces exactly `n * (n - 1)` lines: every ordered pair of distinct nodes
/// contributes one. A pairwise distance just below the threshold can still
/// truncate to strength zero and produce no line, so the non-vanishing
/// premise is stated explicitly.
pub proof fn lemma_line_count(nodes: Seq<Node>, config: WorldConfig)
    requires
        forall|i: int, j: int|
            0 <= i < nodes.len() && 0 <= j < nodes.len() && i != j
                ==> (#[trigger] nodes[i]).position != (#[trigger] nodes[j]).position,
        forall|i: int, j: int|
            0 <= i < nodes.len() && 0 <= j < nodes.len() && i != j ==> line_for(
                #[trigger] nodes[i],
                #[trigger] nodes[j],
                config.max_strength as int,
                config.line_threshold as int,
            ) is Some,
    ensures
        derived_lines(nodes, config).len() == nodes.len() * (nodes.len() - 1),
{
    let m = config.max_strength as int;
    let t = config.line_threshold as int;
    lemma_lines_between_count(nodes, nodes.len() as int, m, t);
    assert(nodes.take(nodes.len() as int) =~= nodes);
}

} // verus!

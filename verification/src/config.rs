//! World configuration: the two tunable parameters that govern line
//! visibility.

use vstd::prelude::*;

verus! {

/// Configuration for line derivation: `line_threshold` is the distance at
/// which lines disappear; `max_strength` scales the intermediate falloff and
/// is cancelled exactly by the final rescale to `0..=255`, so it never shifts
/// a strength — it is kept because the derivation interface takes it.
#[derive(Clone, Copy, Debug, PartialEq, Eq, Structural, Hash)]
pub struct WorldConfig {
    pub max_strength: i64,
    pub line_threshold: i64,
}

impl WorldConfig {
    /// Both parameters must be positive: each stands as a divisor in the
    /// strength quantization.
    pub open spec fn wf(self) -> bool {
        1 <= self.max_strength && 1 <= self.line_threshold
    }
}

} // verus!

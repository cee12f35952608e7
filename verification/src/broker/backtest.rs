//! The deterministic stand-in venue used when replaying canned frames.

use vstd::prelude::*;

verus! {

/// Marker for the replay venue; it quotes nothing and accepts everything.
pub struct BacktestStatic {}

} // verus!

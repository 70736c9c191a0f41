//! Post-quantum signatures.

pub mod pq;

use vstd::prelude::*;

verus! {

/// Epochs for which a key is active: `2^18`.
pub const PQ_ACTIVATION_TIME_EPOCHS: u32 = 262_144;

} // verus!

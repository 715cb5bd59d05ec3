//! Per-kind byte budgets for the engine's resource caches.

use vstd::prelude::*;

use super::lru::Weight;
use crate::frame::Frame;

verus! {

/// Per-cache byte budgets. Defaults are tuned for a mid-range device; override
/// on constrained targets.
#[derive(Debug, Clone, Copy)]
pub struct CacheBudgets {
    pub frames: usize,
    pub images: usize,
    pub luts: usize,
    pub audio: usize,
}

impl Default for CacheBudgets {
    fn default() -> (r: Self)
        ensures
            r.frames == 128 * 1024 * 1024,
            r.images == 64 * 1024 * 1024,
            r.luts == 8 * 1024 * 1024,
            r.audio == 32 * 1024 * 1024,
    {
        CacheBudgets {
            frames: 128 * 1024 * 1024,
            images: 64 * 1024 * 1024,
            luts: 8 * 1024 * 1024,
            audio: 32 * 1024 * 1024,
        }
    }
}

/// A decoded frame costs its pixel bytes.
impl Weight for Frame {
    open spec fn cost(&self) -> nat {
        self.data@.len()
    }

    fn weight(&self) -> (r: usize) {
        self.data.len()
    }
}

} // verus!

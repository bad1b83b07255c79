use std::sync::atomic::AtomicU64;
use std::sync::atomic::AtomicUsize;
use std::sync::atomic::Ordering;
use std::sync::Arc;
use vstd::prelude::*;

verus! {

/// Live transfer counters shared by every worker of a task; clones share them.
#[derive(Clone, Default)]
pub struct RuntimeStats {
    pub downloaded_bytes: Arc<AtomicU64>,
    pub active_workers: Arc<AtomicUsize>,
    pub errors: Arc<AtomicUsize>,
}

impl RuntimeStats {
    /// Adds `n` to the shared byte counter (wrapping, as atomic addition does).
    pub fn add_bytes(&self, n: u64) {
        self.downloaded_bytes.fetch_add(n, Ordering::Relaxed);
    }

    /// Adds one to the shared error counter (wrapping, as atomic addition does).
    pub fn inc_error(&self) {
        self.errors.fetch_add(1, Ordering::Relaxed);
    }
}

} // verus!

//! A counter shared between threads.
use vstd::prelude::*;
use std::sync::atomic::AtomicUsize;

verus! {

/// A counter that threads update atomically. Its value is shared state that
/// other threads may change at any time; nothing is stated of it.
#[derive(Debug)]
pub struct AtomicCounter {
    value: AtomicUsize,
}

/// `AtomicUsize::get_mut`: the counter's value, for a unique owner.
#[verifier::external_body]
fn value_mut(a: &mut AtomicUsize) -> &mut usize {
    a.get_mut()
}

impl AtomicCounter {
    /// A counter at zero.
    pub fn new() -> Self {
        AtomicCounter { value: AtomicUsize::new(0) }
    }

    /// Sets the counter to zero.
    pub fn init(&self) {
        self.value.store(0, std::sync::atomic::Ordering::SeqCst);
    }

    /// Releases the counter; nothing is held.
    pub fn free(&self) {
    }

    /// Adds one; gives the value before.
    pub fn inc(&self) -> usize {
        self.value.fetch_add(1, std::sync::atomic::Ordering::SeqCst)
    }

    /// Subtracts one; gives the value before.
    pub fn dec(&self) -> usize {
        self.value.fetch_sub(1, std::sync::atomic::Ordering::SeqCst)
    }

    /// The current value.
    pub fn load(&self) -> usize {
        self.value.load(std::sync::atomic::Ordering::Acquire)
    }

    /// Sets the value.
    pub fn store(&self, value: usize) {
        self.value.store(value, std::sync::atomic::Ordering::SeqCst);
    }

    /// The value, for changing it directly.
    pub fn get_mut(&mut self) -> &mut usize {
        value_mut(&mut self.value)
    }
}

impl Default for AtomicCounter {
    fn default() -> Self {
        AtomicCounter::new()
    }
}

impl Clone for AtomicCounter {
    fn clone(&self) -> Self {
        AtomicCounter { value: AtomicUsize::new(self.load()) }
    }
}

/// The counter is safe to share between threads.
pub const THREAD_SAFE: bool = true;

} // verus!

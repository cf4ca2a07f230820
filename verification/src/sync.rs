//! Counters and flags of the scheduler.
//!
//! The engine drives its workers deterministically from a single thread, so
//! the counters that a concurrent scheduler keeps in atomic cells are plain
//! fields here, with the same operation vocabulary: `increment` and
//! `decrement` return the previous value and wrap around like a fetch-and-add
//! does.

use vstd::prelude::*;

verus! {

/// The successor of a counter value, wrapping at the top.
pub open spec fn wrap_inc(a: usize) -> usize {
    if a < usize::MAX {
        (a + 1) as usize
    } else {
        0
    }
}

/// The predecessor of a counter value, wrapping at zero.
pub open spec fn wrap_dec(a: usize) -> usize {
    if a > 0 {
        (a - 1) as usize
    } else {
        usize::MAX
    }
}

/// A scheduler counter: fetch-and-op vocabulary over a plain word.
pub struct AtomicUsize {
    inner: usize,
}

impl View for AtomicUsize {
    type V = usize;

    closed spec fn view(&self) -> usize {
        self.inner
    }
}

impl AtomicUsize {
    /// A counter starting at `v`.
    pub fn new(v: usize) -> (r: AtomicUsize)
        ensures
            r@ == v,
    {
        AtomicUsize { inner: v }
    }

    /// Add one, wrapping around at the top; returns the previous value.
    pub fn increment(&mut self) -> (r: usize)
        ensures
            r == old(self)@,
            final(self)@ == wrap_inc(old(self)@),
    {
        let prev = self.inner;
        self.inner = self.inner.wrapping_add(1);
        prev
    }

    /// Subtract one, wrapping around at zero; returns the previous value.
    pub fn decrement(&mut self) -> (r: usize)
        ensures
            r == old(self)@,
            final(self)@ == wrap_dec(old(self)@),
    {
        let prev = self.inner;
        self.inner = self.inner.wrapping_sub(1);
        prev
    }

    /// The current value.
    pub fn load(&self) -> (r: usize)
        ensures
            r == self@,
    {
        self.inner
    }

    /// Lower the value to `v` if it is above it; returns the previous value.
    pub fn fetch_min(&mut self, v: usize) -> (r: usize)
        ensures
            r == old(self)@,
            final(self)@ == if v < old(self)@ {
                v
            } else {
                old(self)@
            },
    {
        let prev = self.inner;
        if v < self.inner {
            self.inner = v;
        }
        prev
    }
}

/// A scheduler flag.
pub struct AtomicBool {
    inner: bool,
}

impl View for AtomicBool {
    type V = bool;

    closed spec fn view(&self) -> bool {
        self.inner
    }
}

impl AtomicBool {
    /// A flag starting at `v`.
    pub fn new(v: bool) -> (r: AtomicBool)
        ensures
            r@ == v,
    {
        AtomicBool { inner: v }
    }

    /// The current value.
    pub fn load(&self) -> (r: bool)
        ensures
            r == self@,
    {
        self.inner
    }

    /// Overwrite the value.
    pub fn store(&mut self, val: bool)
        ensures
            final(self)@ == val,
    {
        self.inner = val;
    }
}

} // verus!

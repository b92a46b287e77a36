//! Identity scopes handed out by a counter.
//!
//! Schedulers, realm allocators, rooted-value allocators, WebGL registries
//! and opaque origins each carry a scope that keeps their identities apart
//! from those of other instances. A `ScopeCounter` hands out scopes in
//! increasing order, starting at one, so two scopes drawn from one counter
//! never coincide; the embedder keeps one counter per kind of identity for
//! the whole process.
use vstd::prelude::*;

verus! {

/// A source of scopes: each value is handed out once, in increasing order.
#[derive(Debug, PartialEq, Eq)]
pub struct ScopeCounter {
    next: u64,
}

impl ScopeCounter {
    /// The value that the next draw hands out, while it is below `u64::MAX`;
    /// the counter is spent once it reaches `u64::MAX`.
    pub closed spec fn spec_next(&self) -> u64 {
        self.next
    }

    /// A counter whose first scope is one.
    pub fn new() -> (r: Self)
        ensures
            r.spec_next() == 1,
    {
        ScopeCounter { next: 1 }
    }

    /// Hands out the next scope, or `None` once the counter is spent; a
    /// spent counter stays as it is.
    pub fn draw(&mut self) -> (r: Option<u64>)
        ensures
            old(self).spec_next() == u64::MAX ==> r is None && *final(self) == *old(self),
            old(self).spec_next() < u64::MAX ==> r == Some(old(self).spec_next())
                && final(self).spec_next() == old(self).spec_next() + 1,
    {
        if self.next == u64::MAX {
            return None;
        }
        let v = self.next;
        self.next = self.next + 1;
        Some(v)
    }
}

/// Scopes drawn one after the other from a counter differ: the later one is
/// larger, and both are non-zero when the counter started at or above one.
pub proof fn lemma_draws_differ(c0: ScopeCounter, c1: ScopeCounter, c2: ScopeCounter, a: u64, b: u64)
    requires
        1 <= c0.spec_next() < u64::MAX,
        a == c0.spec_next(),
        c1.spec_next() == c0.spec_next() + 1,
        c1.spec_next() <= c2.spec_next(),
        c2.spec_next() < u64::MAX,
        b == c2.spec_next(),
    ensures
        a != 0,
        a < b,
{
}

} // verus!

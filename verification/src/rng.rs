//! Injected randomness. The engine never reaches for a hidden global
//! generator: every function that rolls a die takes a `RandomSource`, so a
//! test can fix the whole sequence of draws.

use vstd::prelude::*;

verus! {

/// Relies on rand's `RngExt::random_range` over `0..n` on the thread-local
/// generator `rand::rng()`: returns a value of the range, so below `n`
/// (it panics only on an empty range, which `n > 0` rules out).
#[verifier::external_body]
fn thread_draw_below(n: u64) -> (r: u64)
    requires
        n > 0,
    ensures
        r < n,
{
    rand::RngExt::random_range(&mut rand::rng(), 0..n)
}

/// A source of random draws. With `use_thread` set it defers to the `rand`
/// crate; otherwise it cycles through `values`, and every draw is known in
/// advance.
pub struct RandomSource {
    pub use_thread: bool,
    pub values: Vec<u64>,
    pub next: usize,
}

impl RandomSource {
    /// The cursor stays inside the fixed cycle.
    pub open spec fn wf(self) -> bool {
        self.values@.len() == 0 || self.next < self.values@.len()
    }

    /// What the next draw below `n` returns when the source is fixed.
    pub open spec fn spec_fixed_draw(self, n: int) -> int {
        if self.values@.len() == 0 {
            0
        } else {
            self.values@[self.next as int] as int % n
        }
    }

    /// The fixed source after one draw: the cursor advanced by one,
    /// wrapping at the end of the cycle.
    pub open spec fn spec_stepped(self) -> RandomSource {
        if self.values@.len() == 0 {
            self
        } else {
            RandomSource {
                next: if self.next + 1 == self.values@.len() {
                    0
                } else {
                    (self.next + 1) as usize
                },
                ..self
            }
        }
    }

    /// The `rand`-backed source.
    pub fn from_thread() -> (s: RandomSource)
        ensures
            s.wf(),
            s.use_thread,
    {
        RandomSource { use_thread: true, values: Vec::new(), next: 0 }
    }

    /// A deterministic source that cycles through `values`.
    pub fn from_values(values: Vec<u64>) -> (s: RandomSource)
        ensures
            s.wf(),
            !s.use_thread,
            s.values == values,
            s.next == 0,
    {
        RandomSource { use_thread: false, values, next: 0 }
    }

    /// One uniform draw in `[0, n)`. A fixed source is fully predictable:
    /// the result and the new cursor are functions of the old state.
    pub fn draw_below(&mut self, n: u64) -> (r: u64)
        requires
            old(self).wf(),
            n > 0,
        ensures
            final(self).wf(),
            r < n,
            final(self).use_thread == old(self).use_thread,
            old(self).use_thread ==> *final(self) == *old(self),
            !old(self).use_thread ==> r as int == old(self).spec_fixed_draw(n as int),
            !old(self).use_thread ==> *final(self) == old(self).spec_stepped(),
    {
        if self.use_thread {
            thread_draw_below(n)
        } else if self.values.len() == 0 {
            0
        } else {
            let v = self.values[self.next];
            self.next = if self.next + 1 == self.values.len() {
                0
            } else {
                self.next + 1
            };
            v % n
        }
    }
}

} // verus!

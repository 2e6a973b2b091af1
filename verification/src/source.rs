//! Random sources: abstract providers of uniform draws.
//!
//! All randomness is external input threaded through generation calls. A
//! generator takes any [`RandomSource`]; each concurrent caller supplies
//! its own instance, so the generators themselves share no mutable state.
//! [`SystemSource`] draws from the operating random number generator, while
//! [`FixedSource`] replays a fixed sequence of values, which makes every
//! generation run on it reproducible.

use vstd::prelude::*;
use vstd::arithmetic::div_mod::{lemma_add_mod_noop, lemma_mod_self_0, lemma_small_mod};

verus! {

/// An abstract provider of uniform random draws. `draw(bound)` hands back
/// some value below `bound`; nothing more is promised, since a source may
/// be genuinely random.
pub trait RandomSource {
    fn draw(&mut self, bound: u64) -> (r: u64)
        requires
            bound >= 1,
        ensures
            r < bound,
    ;
}

/// Relies on rand::random_range: returns a value uniformly distributed in
/// the given range, and panics only when the range is empty, which the
/// precondition rules out.
#[verifier::external_body]
fn random_below(bound: u64) -> (r: u64)
    requires
        bound >= 1,
    ensures
        r < bound,
{
    rand::random_range(0..bound)
}

/// The process-wide random number generator, one independent handle per
/// caller.
pub struct SystemSource {}

impl SystemSource {
    pub fn new() -> (s: SystemSource) {
        SystemSource {  }
    }
}

impl RandomSource for SystemSource {
    fn draw(&mut self, bound: u64) -> (r: u64) {
        random_below(bound)
    }
}

/// The value a fixed source hands back for the draw at position `idx` of
/// the replayed sequence, reduced into the requested bound.
pub open spec fn fixed_draw(vals: Seq<u64>, idx: int, bound: int) -> int {
    (vals[idx % vals.len() as int] as int) % bound
}

/// A deterministic source that replays a fixed, non-empty sequence of
/// values, cycling when it reaches the end. Each draw is the value at the
/// cursor reduced modulo the bound, so the words built from a fixed source
/// are a pure function of its contents.
pub struct FixedSource {
    vals: Vec<u64>,
    idx: usize,
}

impl FixedSource {
    /// The replayed sequence.
    pub closed spec fn vals(self) -> Seq<u64> {
        self.vals@
    }

    /// The cursor: the position of the next draw.
    pub closed spec fn pos(self) -> int {
        self.idx as int
    }

    pub open spec fn wf(self) -> bool {
        &&& self.vals().len() >= 1
        &&& 0 <= self.pos() < self.vals().len()
    }

    pub fn new(vals: Vec<u64>) -> (s: FixedSource)
        requires
            vals@.len() >= 1,
        ensures
            s.wf(),
            s.vals() == vals@,
            s.pos() == 0,
    {
        FixedSource { vals, idx: 0 }
    }

    /// One deterministic draw: hands back the value at the cursor reduced
    /// modulo `bound`, and advances the cursor one step, cycling.
    pub fn draw_at(&mut self, bound: u64) -> (r: u64)
        requires
            old(self).wf(),
            bound >= 1,
        ensures
            final(self).wf(),
            final(self).vals() == old(self).vals(),
            final(self).pos() == (old(self).pos() + 1) % old(self).vals().len() as int,
            r as int == fixed_draw(old(self).vals(), old(self).pos(), bound as int),
            r < bound,
    {
        let n = self.vals.len();
        let r = self.vals[self.idx] % bound;
        proof {
            assert(self.idx < n);
            lemma_small_mod(self.idx as nat, self.vals@.len() as nat);
        }
        if self.idx + 1 == n {
            proof {
                lemma_mod_self_0(self.vals@.len() as int);
            }
            self.idx = 0;
        } else {
            proof {
                lemma_small_mod((self.idx + 1) as nat, self.vals@.len() as nat);
            }
            self.idx = self.idx + 1;
        }
        r
    }
}

impl RandomSource for FixedSource {
    fn draw(&mut self, bound: u64) -> (r: u64) {
        // an arbitrary value of this type need not hold the invariant;
        // repair the cursor defensively before the deterministic draw
        if self.vals.len() == 0 {
            return 0;
        }
        if self.idx >= self.vals.len() {
            self.idx = 0;
        }
        self.draw_at(bound)
    }
}

/// A helper for stepping a reduced cursor: advancing it by further draws
/// commutes with reducing it into the sequence.
pub proof fn lemma_mod_shift(a: int, b: int, n: int)
    requires
        n >= 1,
        a >= 0,
        b >= 0,
    ensures
        (a % n + b) % n == (a + b) % n,
{
    lemma_add_mod_noop(a, b, n);
    lemma_add_mod_noop(a % n, b, n);
    lemma_small_mod((a % n) as nat, n as nat);
}

/// The one-step case of [`lemma_mod_shift`].
pub proof fn lemma_mod_step(a: int, n: int)
    requires
        n >= 1,
        a >= 0,
    ensures
        (a % n + 1) % n == (a + 1) % n,
{
    lemma_mod_shift(a, 1, n);
}

} // verus!

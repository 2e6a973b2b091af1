//! Assembling whole words under the length-decay stopping rule.
//!
//! A word is one or more syllables. After the k-th syllable the assembler
//! draws one uniform value from a window of `cont_den^k` values and
//! continues exactly when it falls below `cont_num^k`, a continuation
//! probability of `(cont_num/cont_den)^k` that shrinks super-exponentially
//! with the syllable index. The window grows with k, so a generous sanity
//! cap stops a word when the next window would no longer fit in a `u64`;
//! the probability of ever reaching that cap is vanishingly small.

use vstd::prelude::*;
use vstd::arithmetic::div_mod::lemma_fundamental_div_mod;
use vstd::arithmetic::mul::{lemma_mul_inequality, lemma_mul_strictly_increases};
use vstd::arithmetic::power::{
    lemma_pow1, lemma_pow_positive, lemma_pow_strictly_increases, pow,
};
use vstd::set_lib::{lemma_int_range, set_int_range};
use vstd::string::StringExecFns;
use crate::lexicon::{Lexicon, CONTINUE_DEN, CONTINUE_NUM};
use crate::source::{fixed_draw, lemma_mod_shift, lemma_mod_step, FixedSource, RandomSource};
use crate::syllable::{is_syllable, SyllableBuilder};

verus! {

/// The structural law of every assembled word: a concatenation of one or
/// more syllables, each of which obeys the syllable law.
pub open spec fn is_word(lex: Lexicon, w: Seq<char>) -> bool {
    exists|syls: Seq<Seq<char>>|
        {
            &&& #[trigger] syls.flatten() == w
            &&& syls.len() >= 1
            &&& forall|i: int| 0 <= i < syls.len() ==> is_syllable(lex, #[trigger] syls[i])
        }
}

/// Assembles words by drawing syllables and applying the stopping rule.
pub struct WordAssembler {
    pub syl: SyllableBuilder,
    /// Numerator of the continuation ratio `1 - dropoff`.
    pub cont_num: u64,
    /// Denominator of the continuation ratio.
    pub cont_den: u64,
}

impl WordAssembler {
    pub open spec fn wf(self) -> bool {
        &&& self.syl.wf()
        &&& 1 <= self.cont_num < self.cont_den
    }

    /// Builds an assembler over the given lexicon with the default
    /// continuation ratio.
    pub fn new(lex: Lexicon) -> (a: WordAssembler)
        ensures
            a.syl.lex == lex,
            a.cont_num == CONTINUE_NUM,
            a.cont_den == CONTINUE_DEN,
            lex.wf() ==> a.wf(),
    {
        WordAssembler { syl: SyllableBuilder::new(lex), cont_num: CONTINUE_NUM, cont_den: CONTINUE_DEN }
    }

    /// Builds an assembler with an overridden continuation ratio
    /// `cont_num / cont_den`, which must lie strictly between 0 and 1.
    pub fn with_ratio(lex: Lexicon, cont_num: u64, cont_den: u64) -> (a: WordAssembler)
        requires
            1 <= cont_num < cont_den,
        ensures
            a.syl.lex == lex,
            a.cont_num == cont_num,
            a.cont_den == cont_den,
            lex.wf() ==> a.wf(),
    {
        WordAssembler { syl: SyllableBuilder::new(lex), cont_num, cont_den }
    }

    /// The exact word a fixed source at cursor `idx` produces, entered with
    /// the next syllable at decay level `k`: that syllable, and, when the
    /// decision draw falls below `cont_num^k` of a window of `cont_den^k`
    /// values that still fits in a `u64`, the rest of the word one level
    /// deeper.
    pub open spec fn word_rec(self, vals: Seq<u64>, idx: int, k: nat) -> Seq<char>
        decreases u64::MAX - pow(self.cont_den as int, k),
        when 1 <= self.cont_num < self.cont_den && pow(self.cont_den as int, k) <= u64::MAX
        via Self::word_rec_decreases
    {
        let n = vals.len() as int;
        let s = self.syl.fixed_result(vals, idx);
        let used = self.syl.fixed_used(vals, idx);
        let u = fixed_draw(vals, (idx + used) % n, pow(self.cont_den as int, k));
        if u < pow(self.cont_num as int, k) && pow(self.cont_den as int, k + 1) <= u64::MAX {
            s + self.word_rec(vals, (idx + used + 1) % n, k + 1)
        } else {
            s
        }
    }

    #[via_fn]
    proof fn word_rec_decreases(self, vals: Seq<u64>, idx: int, k: nat) {
        if 1 <= self.cont_num < self.cont_den && pow(self.cont_den as int, k) <= u64::MAX {
            assert((self.cont_den as nat) as int == self.cont_den as int);
            lemma_pow_strictly_increases(self.cont_den as nat, k, k + 1);
            lemma_pow_positive(self.cont_den as int, k + 1);
        }
    }

    /// How many syllables the word of [`Self::word_rec`] holds: one, plus
    /// one more for every decision draw that continues.
    pub open spec fn word_syllables(self, vals: Seq<u64>, idx: int, k: nat) -> nat
        decreases u64::MAX - pow(self.cont_den as int, k),
        when 1 <= self.cont_num < self.cont_den && pow(self.cont_den as int, k) <= u64::MAX
        via Self::word_syllables_decreases
    {
        let n = vals.len() as int;
        let used = self.syl.fixed_used(vals, idx);
        let u = fixed_draw(vals, (idx + used) % n, pow(self.cont_den as int, k));
        if u < pow(self.cont_num as int, k) && pow(self.cont_den as int, k + 1) <= u64::MAX {
            1 + self.word_syllables(vals, (idx + used + 1) % n, k + 1)
        } else {
            1
        }
    }

    #[via_fn]
    proof fn word_syllables_decreases(self, vals: Seq<u64>, idx: int, k: nat) {
        if 1 <= self.cont_num < self.cont_den && pow(self.cont_den as int, k) <= u64::MAX {
            assert((self.cont_den as nat) as int == self.cont_den as int);
            lemma_pow_strictly_increases(self.cont_den as nat, k, k + 1);
            lemma_pow_positive(self.cont_den as int, k + 1);
        }
    }

    /// How many draws the word of [`Self::word_rec`] consumes: each
    /// syllable's own draws and one decision draw after it.
    pub open spec fn word_used(self, vals: Seq<u64>, idx: int, k: nat) -> int
        decreases u64::MAX - pow(self.cont_den as int, k),
        when 1 <= self.cont_num < self.cont_den && pow(self.cont_den as int, k) <= u64::MAX
        via Self::word_used_decreases
    {
        let n = vals.len() as int;
        let used = self.syl.fixed_used(vals, idx);
        let u = fixed_draw(vals, (idx + used) % n, pow(self.cont_den as int, k));
        if u < pow(self.cont_num as int, k) && pow(self.cont_den as int, k + 1) <= u64::MAX {
            used + 1 + self.word_used(vals, (idx + used + 1) % n, k + 1)
        } else {
            used + 1
        }
    }

    #[via_fn]
    proof fn word_used_decreases(self, vals: Seq<u64>, idx: int, k: nat) {
        if 1 <= self.cont_num < self.cont_den && pow(self.cont_den as int, k) <= u64::MAX {
            assert((self.cont_den as nat) as int == self.cont_den as int);
            lemma_pow_strictly_increases(self.cont_den as nat, k, k + 1);
            lemma_pow_positive(self.cont_den as int, k + 1);
        }
    }

    /// Builds one word from any random source: at least one syllable, then
    /// further syllables while the decay decisions continue.
    pub fn build<S: RandomSource>(&self, src: &mut S) -> (w: String)
        requires
            self.wf(),
        ensures
            is_word(self.syl.lex, w@),
            w@.len() >= 2,
    {
        let first = self.syl.build(src);
        let mut w = first;
        let ghost mut syls: Seq<Seq<char>> = seq![w@];
        proof {
            syls.lemma_flatten_singleton();
        }
        let mut num: u64 = self.cont_num;
        let mut den: u64 = self.cont_den;
        loop
            invariant
                self.wf(),
                1 <= num < den,
                syls.len() >= 1,
                forall|i: int| 0 <= i < syls.len() ==> is_syllable(self.syl.lex, #[trigger] syls[i]),
                w@ == syls.flatten(),
                w@.len() >= 2,
            decreases u64::MAX - den,
        {
            let u = src.draw(den);
            if u >= num {
                break ;
            }
            if den > u64::MAX / self.cont_den {
                // sanity cap: the next window would not fit
                break ;
            }
            let s = self.syl.build(src);
            w.append(s.as_str());
            proof {
                let old_syls = syls;
                old_syls.lemma_flatten_push(s@);
                syls = old_syls.push(s@);
                let q = (u64::MAX as int) / (self.cont_den as int);
                lemma_fundamental_div_mod(u64::MAX as int, self.cont_den as int);
                lemma_mul_inequality(den as int, q, self.cont_den as int);
                assert((den as int) * (self.cont_den as int) <= u64::MAX);
                assert((num as int) * (self.cont_num as int) < (den as int) * (self.cont_den
                    as int)) by (nonlinear_arith)
                    requires
                        1 <= num < den,
                        1 <= self.cont_num < self.cont_den,
                ;
                assert((num as int) * (self.cont_num as int) >= 1) by (nonlinear_arith)
                    requires
                        num >= 1,
                        self.cont_num >= 1,
                ;
                lemma_mul_strictly_increases(self.cont_den as int, den as int);
            }
            num = num * self.cont_num;
            den = den * self.cont_den;
        }
        w
    }

    /// Builds one word from a fixed source. The result is pinned: it is
    /// exactly [`Self::word_rec`] of the source's contents and cursor, a
    /// pure function of the replayed draws.
    pub fn build_fixed(&self, src: &mut FixedSource) -> (w: String)
        requires
            self.wf(),
            old(src).wf(),
        ensures
            final(src).wf(),
            final(src).vals() == old(src).vals(),
            final(src).pos() == (old(src).pos() + self.word_used(old(src).vals(), old(src).pos(), 1))
                % (old(src).vals().len() as int),
            w@ == self.word_rec(old(src).vals(), old(src).pos(), 1),
            is_word(self.syl.lex, w@),
            w@.len() >= 2,
    {
        let ghost vals = old(src).vals();
        let ghost idx0 = old(src).pos();
        let ghost n = vals.len() as int;
        let mut w = String::new();
        let ghost mut syls: Seq<Seq<char>> = Seq::empty();
        let mut num: u64 = self.cont_num;
        let mut den: u64 = self.cont_den;
        let ghost mut k: nat = 1;
        let ghost mut consumed: int = 0;
        proof {
            lemma_pow1(self.cont_num as int);
            lemma_pow1(self.cont_den as int);
            assert(Seq::<Seq<char>>::empty().flatten() =~= Seq::<char>::empty());
            vstd::arithmetic::div_mod::lemma_small_mod(idx0 as nat, n as nat);
        }
        loop
            invariant_except_break
                self.wf(),
                src.wf(),
                src.vals() == vals,
                n == vals.len() as int,
                k >= 1,
                num as int == pow(self.cont_num as int, k),
                den as int == pow(self.cont_den as int, k),
                1 <= num < den,
                syls.len() == k - 1,
                forall|i: int| 0 <= i < syls.len() ==> is_syllable(self.syl.lex, #[trigger] syls[i]),
                w@ == syls.flatten(),
                k > 1 ==> w@.len() >= 2,
                consumed >= 0,
                0 <= idx0 < n,
                src.pos() == (idx0 + consumed) % n,
                self.word_rec(vals, idx0, 1) == w@ + self.word_rec(vals, src.pos(), k),
                self.word_used(vals, idx0, 1) == consumed + self.word_used(vals, src.pos(), k),
            ensures
                src.wf(),
                src.vals() == vals,
                src.pos() == (idx0 + self.word_used(vals, idx0, 1)) % n,
                w@ == self.word_rec(vals, idx0, 1),
                is_word(self.syl.lex, w@),
                w@.len() >= 2,
            decreases u64::MAX - den,
        {
            let ghost cur = src.pos();
            let ghost w_head = w@;
            let s = self.syl.build_fixed(src);
            let ghost used = self.syl.fixed_used(vals, cur);
            w.append(s.as_str());
            proof {
                let old_syls = syls;
                old_syls.lemma_flatten_push(s@);
                syls = old_syls.push(s@);
            }
            let u = src.draw_at(den);
            proof {
                lemma_mod_step(cur + used, n);
                assert(src.pos() == (cur + used + 1) % n);
                lemma_mod_shift(idx0 + consumed, used + 1, n);
                consumed = consumed + used + 1;
                assert(src.pos() == (idx0 + consumed) % n);
            }
            if u < num {
                if den <= u64::MAX / self.cont_den {
                    proof {
                        reveal(pow);
                        let q = (u64::MAX as int) / (self.cont_den as int);
                        lemma_fundamental_div_mod(u64::MAX as int, self.cont_den as int);
                        lemma_mul_inequality(den as int, q, self.cont_den as int);
                        assert((den as int) * (self.cont_den as int) <= u64::MAX);
                        assert(pow(self.cont_den as int, k + 1) == (self.cont_den as int) * pow(
                            self.cont_den as int,
                            k,
                        ));
                        assert(pow(self.cont_num as int, k + 1) == (self.cont_num as int) * pow(
                            self.cont_num as int,
                            k,
                        ));
                        // the stopping rule continues: unfold one level
                        assert(self.word_rec(vals, cur, k) == s@ + self.word_rec(
                            vals,
                            (cur + used + 1) % n,
                            k + 1,
                        ));
                        assert(self.word_used(vals, cur, k) == used + 1 + self.word_used(
                            vals,
                            (cur + used + 1) % n,
                            k + 1,
                        ));
                        assert((w_head + s@) + self.word_rec(vals, (cur + used + 1) % n, k + 1)
                            =~= w_head + (s@ + self.word_rec(vals, (cur + used + 1) % n, k + 1)));
                        assert((num as int) * (self.cont_num as int) < (den as int) * (self.cont_den
                            as int)) by (nonlinear_arith)
                            requires
                                1 <= num < den,
                                1 <= self.cont_num < self.cont_den,
                        ;
                        assert((num as int) * (self.cont_num as int) >= 1) by (nonlinear_arith)
                            requires
                                num >= 1,
                                self.cont_num >= 1,
                        ;
                        lemma_mul_strictly_increases(self.cont_den as int, den as int);
                    }
                    num = num * self.cont_num;
                    den = den * self.cont_den;
                    proof {
                        k = k + 1;
                    }
                } else {
                    // sanity cap: the next window would not fit in a u64,
                    // so the stopping rule ends the word here
                    proof {
                        reveal(pow);
                        let q = (u64::MAX as int) / (self.cont_den as int);
                        lemma_fundamental_div_mod(u64::MAX as int, self.cont_den as int);
                        assert(pow(self.cont_den as int, k + 1) == (self.cont_den as int) * pow(
                            self.cont_den as int,
                            k,
                        ));
                        assert((den as int) * (self.cont_den as int) > u64::MAX)
                            by (nonlinear_arith)
                            requires
                                (den as int) > (u64::MAX as int) / (self.cont_den as int),
                                self.cont_den >= 1,
                                u64::MAX as int == (self.cont_den as int) * ((u64::MAX as int) / (
                                self.cont_den as int)) + (u64::MAX as int) % (self.cont_den as int),
                                0 <= (u64::MAX as int) % (self.cont_den as int) < (self.cont_den
                                    as int),
                        ;
                        assert(self.word_rec(vals, cur, k) == s@);
                        assert(self.word_used(vals, cur, k) == used + 1);
                        assert(is_word(self.syl.lex, w@));
                    }
                    break ;
                }
            } else {
                proof {
                    assert(self.word_rec(vals, cur, k) == s@);
                    assert(self.word_used(vals, cur, k) == used + 1);
                    assert(is_word(self.syl.lex, w@));
                }
                break ;
            }
        }
        w
    }
}

/// Word-shape law: every word holds at least one syllable, and each
/// syllable contributes two or three characters, so the character length
/// of a word lies between twice and three times its syllable count.
pub proof fn lemma_word_rec_syllable_count(a: WordAssembler, vals: Seq<u64>, idx: int, k: nat)
    requires
        1 <= a.cont_num < a.cont_den,
        pow(a.cont_den as int, k) <= u64::MAX,
    ensures
        a.word_syllables(vals, idx, k) >= 1,
        2 * a.word_syllables(vals, idx, k) <= a.word_rec(vals, idx, k).len() <= 3
            * a.word_syllables(vals, idx, k),
    decreases u64::MAX - pow(a.cont_den as int, k),
{
    a.syl.lemma_length_matches_pattern(vals, idx);
    let n = vals.len() as int;
    let used = a.syl.fixed_used(vals, idx);
    let u = fixed_draw(vals, (idx + used) % n, pow(a.cont_den as int, k));
    if u < pow(a.cont_num as int, k) && pow(a.cont_den as int, k + 1) <= u64::MAX {
        assert((a.cont_den as nat) as int == a.cont_den as int);
        lemma_pow_strictly_increases(a.cont_den as nat, k, k + 1);
        lemma_word_rec_syllable_count(a, vals, (idx + used + 1) % n, k + 1);
    }
}

/// Determinism law: a word built from a fixed source is a pure function of
/// the replayed values and the cursor, so two sources in the same state
/// always yield the same word.
pub proof fn lemma_fixed_word_deterministic(a: WordAssembler, s1: FixedSource, s2: FixedSource)
    requires
        s1.vals() == s2.vals(),
        s1.pos() == s2.pos(),
    ensures
        a.word_rec(s1.vals(), s1.pos(), 1) == a.word_rec(s2.vals(), s2.pos(), 1),
        a.word_used(s1.vals(), s1.pos(), 1) == a.word_used(s2.vals(), s2.pos(), 1),
{
}

/// Helper: raising both sides of `a < b` to the same positive power keeps
/// the strict order.
proof fn lemma_pow_preserves_lt(a: u64, b: u64, k: nat)
    requires
        1 <= a < b,
        k >= 1,
    ensures
        0 < pow(a as int, k) < pow(b as int, k),
    decreases k,
{
    if k == 1 {
        lemma_pow1(a as int);
        lemma_pow1(b as int);
    } else {
        lemma_pow_preserves_lt(a, b, (k - 1) as nat);
        reveal(pow);
        assert(pow(a as int, k) == (a as int) * pow(a as int, (k - 1) as nat));
        assert(pow(b as int, k) == (b as int) * pow(b as int, (k - 1) as nat));
        assert(0 < (a as int) * pow(a as int, (k - 1) as nat) && (a as int) * pow(
            a as int,
            (k - 1) as nat,
        ) < (b as int) * pow(b as int, (k - 1) as nat)) by (nonlinear_arith)
            requires
                1 <= a < b,
                0 < pow(a as int, (k - 1) as nat) < pow(b as int, (k - 1) as nat),
        ;
    }
}

/// The stopping rule's law: the decision after the k-th syllable draws one
/// value uniformly from a window of `cont_den^k` values and continues for
/// exactly the `cont_num^k` smallest of them, so each decision continues
/// with probability `(cont_num/cont_den)^k`, and the probability that a
/// word grows past k syllables is the product of those ratios.
pub proof fn lemma_continue_share(a: WordAssembler, k: nat)
    requires
        a.wf(),
        k >= 1,
    ensures
        0 < pow(a.cont_num as int, k) < pow(a.cont_den as int, k),
        Set::new(
            |u: int| 0 <= u < pow(a.cont_den as int, k) && u < pow(a.cont_num as int, k),
        ).finite(),
        Set::new(|u: int| 0 <= u < pow(a.cont_den as int, k) && u < pow(a.cont_num as int, k)).len()
            == pow(a.cont_num as int, k),
{
    lemma_pow_preserves_lt(a.cont_num, a.cont_den, k);
    assert(Set::new(|u: int| 0 <= u < pow(a.cont_den as int, k) && u < pow(a.cont_num as int, k))
        =~= set_int_range(0, pow(a.cont_num as int, k)));
    lemma_int_range(0, pow(a.cont_num as int, k));
}

} // verus!

//! Building one syllable from a pattern draw and phoneme draws.
//!
//! A syllable is two characters (an open pattern: consonant, vowel) or
//! three (a closed pattern: consonant, vowel, consonant), each character
//! drawn from the matching weighted table.

use vstd::prelude::*;
use crate::dist::{has_symbol, lemma_total_pos};
use crate::lexicon::{Lexicon, SyllablePattern};
use crate::source::{fixed_draw, lemma_mod_step, FixedSource, RandomSource};

verus! {

/// Relies on String::push: appends exactly the one character to the end
/// of the string.
#[verifier::external_body]
pub(crate) fn push_char(s: &mut String, c: char)
    ensures
        final(s)@ == old(s)@.push(c),
{
    s.push(c);
}

/// The structural law of every built syllable: two or three characters,
/// consonants at the outer positions, the vowel in the middle.
pub open spec fn is_syllable(lex: Lexicon, s: Seq<char>) -> bool {
    &&& (s.len() == 2 || s.len() == 3)
    &&& has_symbol(lex.consonants.items@, s[0])
    &&& has_symbol(lex.vowels.items@, s[1])
    &&& (s.len() == 3 ==> has_symbol(lex.consonants.items@, s[2]))
}

/// Draws syllables from a shared lexicon.
pub struct SyllableBuilder {
    pub lex: Lexicon,
}

impl SyllableBuilder {
    pub open spec fn wf(self) -> bool {
        self.lex.wf()
    }

    pub fn new(lex: Lexicon) -> (b: SyllableBuilder)
        ensures
            b.lex == lex,
    {
        SyllableBuilder { lex }
    }

    /// The pattern a fixed source at cursor `idx` selects.
    pub open spec fn fixed_pattern(self, vals: Seq<u64>, idx: int) -> SyllablePattern {
        self.lex.patterns.pick_spec(
            fixed_draw(vals, idx, self.lex.patterns.total as int) as u64,
        )
    }

    /// How many draws the syllable at cursor `idx` consumes: the pattern
    /// draw and one draw per character.
    pub open spec fn fixed_used(self, vals: Seq<u64>, idx: int) -> int {
        if self.fixed_pattern(vals, idx) == SyllablePattern::Open {
            3
        } else {
            4
        }
    }

    /// The exact syllable a fixed source at cursor `idx` produces.
    pub open spec fn fixed_result(self, vals: Seq<u64>, idx: int) -> Seq<char> {
        let n = vals.len() as int;
        let c1 = self.lex.consonants.pick_spec(
            fixed_draw(vals, (idx + 1) % n, self.lex.consonants.total as int) as u64,
        );
        let v = self.lex.vowels.pick_spec(
            fixed_draw(vals, (idx + 2) % n, self.lex.vowels.total as int) as u64,
        );
        if self.fixed_pattern(vals, idx) == SyllablePattern::Open {
            seq![c1, v]
        } else {
            let c2 = self.lex.consonants.pick_spec(
                fixed_draw(vals, (idx + 3) % n, self.lex.consonants.total as int) as u64,
            );
            seq![c1, v, c2]
        }
    }

    /// The syllable's length matches its pattern: two characters for an
    /// open pattern, three for a closed one.
    pub proof fn lemma_length_matches_pattern(self, vals: Seq<u64>, idx: int)
        ensures
            self.fixed_result(vals, idx).len() == if self.fixed_pattern(vals, idx)
                == SyllablePattern::Open {
                2int
            } else {
                3int
            },
    {
    }

    /// Builds one syllable from any random source: draw the pattern, then
    /// fill its shape with consonant and vowel draws.
    pub fn build<S: RandomSource>(&self, src: &mut S) -> (s: String)
        requires
            self.wf(),
        ensures
            is_syllable(self.lex, s@),
    {
        proof {
            lemma_total_pos(self.lex.patterns.items@);
            lemma_total_pos(self.lex.consonants.items@);
            lemma_total_pos(self.lex.vowels.items@);
        }
        let pu = src.draw(self.lex.patterns.total);
        let p = self.lex.patterns.pick(pu);
        let cu = src.draw(self.lex.consonants.total);
        let c1 = self.lex.consonants.pick(cu);
        let vu = src.draw(self.lex.vowels.total);
        let v = self.lex.vowels.pick(vu);
        let mut out = String::new();
        push_char(&mut out, c1);
        push_char(&mut out, v);
        match p {
            SyllablePattern::Open => {},
            SyllablePattern::Closed => {
                let cu2 = src.draw(self.lex.consonants.total);
                let c2 = self.lex.consonants.pick(cu2);
                push_char(&mut out, c2);
            },
        }
        out
    }

    /// Builds one syllable from a fixed source; the result and the new
    /// cursor are pure functions of the replayed values and the cursor.
    pub fn build_fixed(&self, src: &mut FixedSource) -> (s: String)
        requires
            self.wf(),
            old(src).wf(),
        ensures
            final(src).wf(),
            final(src).vals() == old(src).vals(),
            final(src).pos() == (old(src).pos() + self.fixed_used(old(src).vals(), old(src).pos()))
                % (old(src).vals().len() as int),
            s@ == self.fixed_result(old(src).vals(), old(src).pos()),
            is_syllable(self.lex, s@),
    {
        let ghost vals = old(src).vals();
        let ghost idx0 = old(src).pos();
        let ghost n = vals.len() as int;
        proof {
            lemma_total_pos(self.lex.patterns.items@);
            lemma_total_pos(self.lex.consonants.items@);
            lemma_total_pos(self.lex.vowels.items@);
        }
        let pu = src.draw_at(self.lex.patterns.total);
        let p = self.lex.patterns.pick(pu);
        proof {
            lemma_mod_step(idx0 + 1, n);
        }
        let cu = src.draw_at(self.lex.consonants.total);
        let c1 = self.lex.consonants.pick(cu);
        proof {
            lemma_mod_step(idx0 + 2, n);
        }
        let vu = src.draw_at(self.lex.vowels.total);
        let v = self.lex.vowels.pick(vu);
        let mut out = String::new();
        push_char(&mut out, c1);
        push_char(&mut out, v);
        match p {
            SyllablePattern::Open => {
                proof {
                    assert(out@ =~= self.fixed_result(vals, idx0));
                }
            },
            SyllablePattern::Closed => {
                proof {
                    lemma_mod_step(idx0 + 3, n);
                }
                let cu2 = src.draw_at(self.lex.consonants.total);
                let c2 = self.lex.consonants.pick(cu2);
                push_char(&mut out, c2);
                proof {
                    assert(out@ =~= self.fixed_result(vals, idx0));
                }
            },
        }
        out
    }
}

} // verus!

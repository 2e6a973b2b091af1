//! Procedural generator of pronounceable pseudo-words.
//!
//! Words are assembled from syllables, syllables from consonant and vowel
//! draws, and every draw is taken from an immutable table of weighted
//! symbols. Randomness enters only through a [`source::RandomSource`]
//! supplied by the caller, so generation over a replayed source is a pure
//! function of the draws that the source hands back.

use vstd::prelude::*;

pub mod dist;
pub mod lexicon;
pub mod source;
pub mod syllable;
pub mod word;

use crate::source::RandomSource;
use crate::syllable::push_char;
use crate::word::{is_word, WordAssembler};

verus! {

/// Produces one word, as the request layer consumes it: one call per word
/// requested, each with the caller's own random source.
pub fn generate_word<S: RandomSource>(assembler: &WordAssembler, src: &mut S) -> (w: String)
    requires
        assembler.wf(),
    ensures
        is_word(assembler.syl.lex, w@),
        w@.len() >= 2,
{
    assembler.build(src)
}

/// The words of a response, each followed by one line separator.
pub open spec fn lines_of(ws: Seq<Seq<char>>) -> Seq<char>
    decreases ws.len(),
{
    if ws.len() == 0 {
        Seq::empty()
    } else {
        ws[0] + seq!['\n'] + lines_of(ws.drop_first())
    }
}

proof fn lemma_lines_push(ws: Seq<Seq<char>>, w: Seq<char>)
    ensures
        lines_of(ws.push(w)) == lines_of(ws) + w + seq!['\n'],
    decreases ws.len(),
{
    if ws.len() == 0 {
        assert(ws.push(w).drop_first() =~= Seq::<Seq<char>>::empty());
        assert(ws.push(w)[0] == w);
        assert(lines_of(Seq::<Seq<char>>::empty()) == Seq::<char>::empty());
        assert(lines_of(ws.push(w)) == w + seq!['\n'] + Seq::<char>::empty());
        assert(lines_of(ws.push(w)) =~= lines_of(ws) + w + seq!['\n']);
    } else {
        lemma_lines_push(ws.drop_first(), w);
        assert(ws.push(w).drop_first() =~= ws.drop_first().push(w));
        assert(ws.push(w)[0] == ws[0]);
        assert(ws[0] + seq!['\n'] + (lines_of(ws.drop_first()) + w + seq!['\n']) =~= (ws[0]
            + seq!['\n'] + lines_of(ws.drop_first())) + w + seq!['\n']);
    }
}

/// Produces `count` words, each terminated by a newline: the computation
/// behind a multi-word request, left to the caller to transport.
pub fn generate_words<S: RandomSource>(assembler: &WordAssembler, count: usize, src: &mut S) -> (out:
    String)
    requires
        assembler.wf(),
    ensures
        exists|ws: Seq<Seq<char>>|
            {
                &&& #[trigger] lines_of(ws) == out@
                &&& ws.len() == count
                &&& forall|i: int| 0 <= i < ws.len() ==> is_word(assembler.syl.lex, #[trigger] ws[i])
            },
{
    let mut out = String::new();
    let ghost mut ws: Seq<Seq<char>> = Seq::empty();
    let mut i: usize = 0;
    proof {
        assert(lines_of(ws) =~= Seq::<char>::empty());
    }
    while i < count
        invariant
            assembler.wf(),
            i <= count,
            ws.len() == i,
            forall|j: int| 0 <= j < ws.len() ==> is_word(assembler.syl.lex, #[trigger] ws[j]),
            out@ == lines_of(ws),
        decreases count - i,
    {
        let w = assembler.build(src);
        proof {
            lemma_lines_push(ws, w@);
        }
        out.append(w.as_str());
        push_char(&mut out, '\n');
        proof {
            ws = ws.push(w@);
        }
        i = i + 1;
    }
    out
}

} // verus!

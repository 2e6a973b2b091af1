//! The fixed lexical tables: consonants, vowels, syllable patterns, and the
//! dropoff constant.
//!
//! Weights are relative likelihoods, not probabilities, so they are kept as
//! integers in the smallest units that preserve the intended ratios:
//! consonant weights in half units, vowel weights in quarter units, pattern
//! weights in tenth units. Each table is normalized only against itself,
//! so the units may differ between tables.

use vstd::prelude::*;
use crate::dist::{
    WeightedDistribution, WeightedItem, all_positive, distinct_symbols, lemma_total_upper,
    total_spec,
};

verus! {

/// The two phonotactic shapes a syllable can take.
#[derive(Clone, Copy, PartialEq, Eq, Structural, Debug)]
pub enum SyllablePattern {
    /// Consonant then vowel.
    Open,
    /// Consonant, vowel, consonant.
    Closed,
}

/// Numerator of the continuation ratio `1 - dropoff`. With the default
/// dropoff of two fifths, the word continues after its n-th syllable with
/// probability (3/5)^n.
pub const CONTINUE_NUM: u64 = 3;

/// Denominator of the continuation ratio `1 - dropoff`.
pub const CONTINUE_DEN: u64 = 5;

/// The consonant table, most phonotactically common first.
pub open spec fn consonant_items() -> Seq<WeightedItem<char>> {
    seq![
        WeightedItem { symbol: 'l', weight: 16 },
        WeightedItem { symbol: 't', weight: 14 },
        WeightedItem { symbol: 'n', weight: 13 },
        WeightedItem { symbol: 'm', weight: 12 },
        WeightedItem { symbol: 'b', weight: 10 },
        WeightedItem { symbol: 'p', weight: 10 },
        WeightedItem { symbol: 'd', weight: 9 },
        WeightedItem { symbol: 'g', weight: 8 },
        WeightedItem { symbol: 'j', weight: 6 },
        WeightedItem { symbol: 'k', weight: 4 },
        WeightedItem { symbol: 'f', weight: 2 },
        WeightedItem { symbol: 's', weight: 2 },
        WeightedItem { symbol: 'x', weight: 1 },
    ]
}

/// The vowel table, most common first.
pub open spec fn vowel_items() -> Seq<WeightedItem<char>> {
    seq![
        WeightedItem { symbol: 'a', weight: 38 },
        WeightedItem { symbol: 'e', weight: 36 },
        WeightedItem { symbol: 'i', weight: 27 },
        WeightedItem { symbol: 'u', weight: 26 },
        WeightedItem { symbol: 'o', weight: 25 },
    ]
}

/// The syllable pattern table: open syllables are more likely than closed.
pub open spec fn pattern_items() -> Seq<WeightedItem<SyllablePattern>> {
    seq![
        WeightedItem { symbol: SyllablePattern::Closed, weight: 3 },
        WeightedItem { symbol: SyllablePattern::Open, weight: 7 },
    ]
}

/// Builds the consonant table.
pub fn consonants() -> (v: Vec<WeightedItem<char>>)
    ensures
        v@ == consonant_items(),
{
    let mut v: Vec<WeightedItem<char>> = Vec::new();
    v.push(WeightedItem { symbol: 'l', weight: 16 });
    v.push(WeightedItem { symbol: 't', weight: 14 });
    v.push(WeightedItem { symbol: 'n', weight: 13 });
    v.push(WeightedItem { symbol: 'm', weight: 12 });
    v.push(WeightedItem { symbol: 'b', weight: 10 });
    v.push(WeightedItem { symbol: 'p', weight: 10 });
    v.push(WeightedItem { symbol: 'd', weight: 9 });
    v.push(WeightedItem { symbol: 'g', weight: 8 });
    v.push(WeightedItem { symbol: 'j', weight: 6 });
    v.push(WeightedItem { symbol: 'k', weight: 4 });
    v.push(WeightedItem { symbol: 'f', weight: 2 });
    v.push(WeightedItem { symbol: 's', weight: 2 });
    v.push(WeightedItem { symbol: 'x', weight: 1 });
    proof {
        assert(v@ =~= consonant_items());
    }
    v
}

/// Builds the vowel table.
pub fn vowels() -> (v: Vec<WeightedItem<char>>)
    ensures
        v@ == vowel_items(),
{
    let mut v: Vec<WeightedItem<char>> = Vec::new();
    v.push(WeightedItem { symbol: 'a', weight: 38 });
    v.push(WeightedItem { symbol: 'e', weight: 36 });
    v.push(WeightedItem { symbol: 'i', weight: 27 });
    v.push(WeightedItem { symbol: 'u', weight: 26 });
    v.push(WeightedItem { symbol: 'o', weight: 25 });
    proof {
        assert(v@ =~= vowel_items());
    }
    v
}

/// Builds the syllable pattern table.
pub fn patterns() -> (v: Vec<WeightedItem<SyllablePattern>>)
    ensures
        v@ == pattern_items(),
{
    let mut v: Vec<WeightedItem<SyllablePattern>> = Vec::new();
    v.push(WeightedItem { symbol: SyllablePattern::Closed, weight: 3 });
    v.push(WeightedItem { symbol: SyllablePattern::Open, weight: 7 });
    proof {
        assert(v@ =~= pattern_items());
    }
    v
}

/// The three distributions every generator draws from, built once at
/// startup and shared read-only afterwards.
pub struct Lexicon {
    pub consonants: WeightedDistribution<char>,
    pub vowels: WeightedDistribution<char>,
    pub patterns: WeightedDistribution<SyllablePattern>,
}

impl Lexicon {
    pub open spec fn wf(self) -> bool {
        &&& self.consonants.wf()
        &&& self.vowels.wf()
        &&& self.patterns.wf()
    }

    /// The default tables hold the lexicon's invariant.
    pub open spec fn is_default(self) -> bool {
        &&& self.consonants.items@ == consonant_items()
        &&& self.vowels.items@ == vowel_items()
        &&& self.patterns.items@ == pattern_items()
    }

    /// Builds the default lexicon. The fixed tables are valid, so unlike a
    /// caller-supplied table this construction cannot fail.
    pub fn new() -> (l: Lexicon)
        ensures
            l.wf(),
            l.is_default(),
    {
        proof {
            assert(distinct_symbols(consonant_items()));
            assert(all_positive(consonant_items()));
            lemma_total_upper(consonant_items(), 16);
            assert(distinct_symbols(vowel_items()));
            assert(all_positive(vowel_items()));
            lemma_total_upper(vowel_items(), 38);
            assert(distinct_symbols(pattern_items()));
            assert(all_positive(pattern_items()));
            lemma_total_upper(pattern_items(), 7);
        }
        let consonants = match WeightedDistribution::new(consonants()) {
            Ok(d) => d,
            Err(_) => {
                proof {
                    assert(false);
                }
                vstd::pervasive::unreached()
            },
        };
        let vowels = match WeightedDistribution::new(vowels()) {
            Ok(d) => d,
            Err(_) => {
                proof {
                    assert(false);
                }
                vstd::pervasive::unreached()
            },
        };
        let patterns = match WeightedDistribution::new(patterns()) {
            Ok(d) => d,
            Err(_) => {
                proof {
                    assert(false);
                }
                vstd::pervasive::unreached()
            },
        };
        Lexicon { consonants, vowels, patterns }
    }
}

} // verus!

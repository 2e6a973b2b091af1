use wordgen::generate_word;
use wordgen::generate_words;
use wordgen::lexicon::Lexicon;
use wordgen::source::{FixedSource, SystemSource};
use wordgen::syllable::SyllableBuilder;
use wordgen::word::WordAssembler;

const CONSONANTS: &str = "ltnmbpdgjkfsx";
const VOWELS: &str = "aeiou";

fn is_consonant(c: char) -> bool {
    CONSONANTS.contains(c)
}

fn is_vowel(c: char) -> bool {
    VOWELS.contains(c)
}

fn syllable_shape_ok(s: &str) -> bool {
    let cs: Vec<char> = s.chars().collect();
    match cs.len() {
        2 => is_consonant(cs[0]) && is_vowel(cs[1]),
        3 => is_consonant(cs[0]) && is_vowel(cs[1]) && is_consonant(cs[2]),
        _ => false,
    }
}

fn splits_into_syllables(cs: &[char]) -> bool {
    if cs.is_empty() {
        return true;
    }
    if cs.len() >= 2 && is_consonant(cs[0]) && is_vowel(cs[1]) {
        if splits_into_syllables(&cs[2..]) {
            return true;
        }
        if cs.len() >= 3 && is_consonant(cs[2]) && splits_into_syllables(&cs[3..]) {
            return true;
        }
    }
    false
}

#[test]
fn syllables_have_pattern_shape() {
    let lex = Lexicon::new();
    let b = SyllableBuilder::new(lex);
    let mut src = SystemSource::new();
    for _ in 0..500 {
        let s = b.build(&mut src);
        assert!(syllable_shape_ok(&s), "unexpected syllable {:?}", s);
    }
}

#[test]
fn words_are_nonempty_syllable_sequences() {
    let lex = Lexicon::new();
    let a = WordAssembler::new(lex);
    let mut src = SystemSource::new();
    for _ in 0..500 {
        let w = a.build(&mut src);
        assert!(w.len() >= 2, "word shorter than one syllable: {:?}", w);
        let cs: Vec<char> = w.chars().collect();
        assert!(splits_into_syllables(&cs), "not a syllable sequence: {:?}", w);
    }
}

#[test]
fn scenario_single_open_syllable() {
    // open pattern, consonant 'l', vowel 'a', then a stopping decision
    let lex = Lexicon::new();
    let a = WordAssembler::new(lex);
    let mut src = FixedSource::new(vec![5, 0, 0, 4]);
    let w = a.build_fixed(&mut src);
    assert_eq!(w, "la");
}

#[test]
fn scenario_open_then_closed_syllable() {
    // first syllable open 'l'/'a', one continue decision, then a closed
    // syllable 't'/'e'/'n' and a stopping decision
    let lex = Lexicon::new();
    let a = WordAssembler::new(lex);
    let mut src = FixedSource::new(vec![5, 0, 0, 0, 0, 16, 38, 30, 9]);
    let w = a.build_fixed(&mut src);
    assert_eq!(w, "laten");
}

#[test]
fn fixed_source_makes_generation_deterministic() {
    let vals = vec![7u64, 3, 11, 2, 9, 4, 1, 0, 5, 8];
    let a1 = WordAssembler::new(Lexicon::new());
    let a2 = WordAssembler::new(Lexicon::new());
    let mut s1 = FixedSource::new(vals.clone());
    let mut s2 = FixedSource::new(vals.clone());
    let w1 = a1.build_fixed(&mut s1);
    let w2 = a2.build_fixed(&mut s2);
    assert_eq!(w1, w2);

    // the generic entry point consumes the same draws the same way
    let mut s3 = FixedSource::new(vals.clone());
    let w3 = generate_word(&a1, &mut s3);
    assert_eq!(w1, w3);
}

#[test]
fn fixed_source_cursor_carries_across_words() {
    // each word consumes four draws, so the cursor wraps to the start and
    // every following word repeats the first
    let a = WordAssembler::new(Lexicon::new());
    let mut src = FixedSource::new(vec![5, 0, 0, 4]);
    assert_eq!(a.build_fixed(&mut src), "la");
    assert_eq!(a.build_fixed(&mut src), "la");
    assert_eq!(a.build_fixed(&mut src), "la");
}

#[test]
fn generate_word_from_fixed_draws() {
    let a = WordAssembler::new(Lexicon::new());
    let mut src = FixedSource::new(vec![5, 0, 0, 4]);
    assert_eq!(generate_word(&a, &mut src), "la");
}

#[test]
fn words_join_with_newlines() {
    // the source cycles back to its start after each four-draw word
    let a = WordAssembler::new(Lexicon::new());
    let mut src = FixedSource::new(vec![5, 0, 0, 4]);
    let out = generate_words(&a, 3, &mut src);
    assert_eq!(out, "la\nla\nla\n");
}

#[test]
fn zero_words_give_empty_response() {
    let a = WordAssembler::new(Lexicon::new());
    let mut src = SystemSource::new();
    assert_eq!(generate_words(&a, 0, &mut src), "");
}

#[test]
fn overridden_ratio_still_builds_words() {
    // a continuation ratio of 1/2 in place of the default 3/5
    let a = WordAssembler::with_ratio(Lexicon::new(), 1, 2);
    let mut src = SystemSource::new();
    for _ in 0..100 {
        let w = a.build(&mut src);
        let cs: Vec<char> = w.chars().collect();
        assert!(splits_into_syllables(&cs));
    }
}

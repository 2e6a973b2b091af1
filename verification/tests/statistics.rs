use rand::rngs::StdRng;
use rand::{RngExt, SeedableRng};
use wordgen::lexicon::Lexicon;
use wordgen::source::RandomSource;
use wordgen::word::WordAssembler;

/// A reproducible source backed by a seeded standard generator.
struct SeededSource {
    rng: StdRng,
}

impl RandomSource for SeededSource {
    fn draw(&mut self, bound: u64) -> u64 {
        self.rng.random_range(0..bound)
    }
}

/// A source that pins every syllable to the open pattern "la" but leaves
/// the continuation decisions random, so a word's syllable count is its
/// character count halved.
struct OpenOnlySource {
    rng: StdRng,
}

impl RandomSource for OpenOnlySource {
    fn draw(&mut self, bound: u64) -> u64 {
        match bound {
            10 => 5,   // always the open pattern
            107 => 0,  // always consonant 'l'
            152 => 0,  // always vowel 'a'
            b => self.rng.random_range(0..b),
        }
    }
}

#[test]
fn empirical_draw_frequency_converges() {
    let lex = Lexicon::new();
    let d = &lex.consonants;
    let mut rng = StdRng::seed_from_u64(0x00C0FFEE);
    let n: u64 = 100_000;
    let symbols = d.symbols();
    let mut counts = vec![0u64; symbols.len()];
    for _ in 0..n {
        let u = rng.random_range(0..d.total);
        let c = d.pick(u);
        let i = symbols.iter().position(|&s| s == c).unwrap();
        counts[i] += 1;
    }
    let weights = [16u64, 14, 13, 12, 10, 10, 9, 8, 6, 4, 2, 2, 1];
    for i in 0..symbols.len() {
        let expected = weights[i] as f64 / 107.0;
        let got = counts[i] as f64 / n as f64;
        assert!(
            (got - expected).abs() < 0.01,
            "symbol {} frequency {} expected {}",
            symbols[i],
            got,
            expected
        );
    }
}

#[test]
fn word_length_distribution_follows_decay() {
    let lex = Lexicon::new();
    let a = WordAssembler::new(lex);
    let mut src = OpenOnlySource { rng: StdRng::seed_from_u64(7) };
    let n: usize = 40_000;
    let mut counts = vec![0usize; 40];
    for _ in 0..n {
        let w = a.build(&mut src);
        assert_eq!(w.len() % 2, 0);
        let k = w.len() / 2;
        assert!(k >= 1);
        if k < counts.len() {
            counts[k] += 1;
        }
    }
    // P(length = k) = prod_{i=1}^{k-1} 0.6^i * (1 - 0.6^k)
    let mut prefix = 1.0f64;
    for k in 1..=4usize {
        let p = prefix * (1.0 - 0.6f64.powi(k as i32));
        let got = counts[k] as f64 / n as f64;
        assert!((got - p).abs() < 0.02, "length {} frequency {} expected {}", k, got, p);
        prefix *= 0.6f64.powi(k as i32);
    }
}

#[test]
fn seeded_words_are_structured() {
    let lex = Lexicon::new();
    let a = WordAssembler::new(lex);
    let mut src = SeededSource { rng: StdRng::seed_from_u64(42) };
    for _ in 0..200 {
        let w = a.build(&mut src);
        assert!(w.len() >= 2);
        assert!(w.chars().all(|c| "ltnmbpdgjkfsxaeiou".contains(c)));
    }
}

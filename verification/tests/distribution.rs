use wordgen::dist::{ConfigError, WeightedDistribution, WeightedItem};
use wordgen::lexicon::{Lexicon, SyllablePattern};

fn item(symbol: char, weight: u64) -> WeightedItem<char> {
    WeightedItem { symbol, weight }
}

#[test]
fn empty_table_is_rejected() {
    let r = WeightedDistribution::<char>::new(Vec::new());
    assert!(matches!(r, Err(ConfigError::EmptyTable)));
}

#[test]
fn zero_weight_is_rejected() {
    let r = WeightedDistribution::new(vec![item('a', 1), item('b', 0)]);
    assert!(matches!(r, Err(ConfigError::NonPositiveWeight)));
}

#[test]
fn pick_follows_cumulative_windows() {
    let d = WeightedDistribution::new(vec![item('a', 3), item('b', 1), item('c', 2)]).unwrap();
    assert_eq!(d.total, 6);
    let expected = ['a', 'a', 'a', 'b', 'c', 'c'];
    for u in 0..6u64 {
        assert_eq!(d.pick(u), expected[u as usize]);
    }
}

#[test]
fn consonant_sweep_selects_each_symbol_weight_times() {
    // one full sweep of the draw window selects each symbol exactly
    // weight / total of the time
    let lex = Lexicon::new();
    let d = &lex.consonants;
    let symbols = d.symbols();
    let mut counts = vec![0u64; symbols.len()];
    for u in 0..d.total {
        let c = d.pick(u);
        let i = symbols.iter().position(|&s| s == c).unwrap();
        counts[i] += 1;
    }
    assert_eq!(d.total, 107);
    assert_eq!(symbols, vec!['l', 't', 'n', 'm', 'b', 'p', 'd', 'g', 'j', 'k', 'f', 's', 'x']);
    assert_eq!(counts, vec![16, 14, 13, 12, 10, 10, 9, 8, 6, 4, 2, 2, 1]);
}

#[test]
fn vowel_sweep_selects_each_symbol_weight_times() {
    let lex = Lexicon::new();
    let d = &lex.vowels;
    let symbols = d.symbols();
    let mut counts = vec![0u64; symbols.len()];
    for u in 0..d.total {
        let c = d.pick(u);
        let i = symbols.iter().position(|&s| s == c).unwrap();
        counts[i] += 1;
    }
    assert_eq!(d.total, 152);
    assert_eq!(symbols, vec!['a', 'e', 'i', 'u', 'o']);
    assert_eq!(counts, vec![38, 36, 27, 26, 25]);
}

#[test]
fn single_symbol_always_drawn() {
    // a one-entry table returns its symbol whatever the draw value is
    let d = WeightedDistribution::new(vec![item('z', 5)]).unwrap();
    for u in 0..5u64 {
        assert_eq!(d.pick(u), 'z');
    }
}

#[test]
fn pattern_table_prefers_open() {
    let lex = Lexicon::new();
    assert_eq!(lex.patterns.total, 10);
    for u in 0..3u64 {
        assert!(matches!(lex.patterns.pick(u), SyllablePattern::Closed));
    }
    for u in 3..10u64 {
        assert!(matches!(lex.patterns.pick(u), SyllablePattern::Open));
    }
}

use password_maker::{Classifier, GenerationError, PasswordMaker, RandomSource};
use unicode_segmentation::UnicodeSegmentation;

#[test]
fn fixed_seed_reproduces_password() {
    // One seed and one specification give the same password every time.
    let maker = PasswordMaker {
        length: 24,
        ..PasswordMaker::default()
    };
    let first = maker.generate_with(&mut RandomSource::from_seed(7)).unwrap();
    let second = maker.generate_with(&mut RandomSource::from_seed(7)).unwrap();
    assert_eq!(first, second);

    let other_seed = maker.generate_with(&mut RandomSource::from_seed(8)).unwrap();
    assert_ne!(first, other_seed);
}

#[test]
fn validation_boundary_around_total_minimum() {
    // The defaults demand one character from each of the four named
    // classifiers: a length of three is rejected, four and five pass.
    let mut maker = PasswordMaker::default();
    maker.length = 3;
    assert!(maker.validate().is_err());
    maker.length = 4;
    assert!(maker.validate().is_ok());
    maker.length = 5;
    assert!(maker.validate().is_ok());
}

#[test]
fn zero_length_gives_empty_password() {
    let mut maker = PasswordMaker {
        length: 0,
        ..PasswordMaker::default()
    };
    maker.uppercase.minimum_count = 0;
    maker.lowercase.minimum_count = 0;
    maker.number.minimum_count = 0;
    maker.symbol.minimum_count = 0;
    assert_eq!(maker.generate().unwrap(), "");
}

#[test]
fn empty_pool_with_positive_length_is_no_candidates() {
    let maker = PasswordMaker {
        length: 8,
        uppercase: Classifier { candidates: vec![], minimum_count: 0 },
        lowercase: Classifier { candidates: vec![], minimum_count: 0 },
        number: Classifier { candidates: vec![], minimum_count: 0 },
        symbol: Classifier { candidates: vec![], minimum_count: 0 },
        ..PasswordMaker::default()
    };
    let result = maker.generate();
    assert_eq!(result, Err(GenerationError::NoCandidates));
}

#[test]
fn exclusion_matches_whole_entries_only() {
    // The filter removes an entry only when it equals one of the six
    // similar characters exactly; a longer entry that contains one of
    // their code points stays.
    let maker = PasswordMaker {
        exclude_similar: true,
        others: vec![Classifier {
            candidates: vec!["il".to_string(), "l".to_string(), "O".to_string()],
            minimum_count: 0,
        }],
        ..PasswordMaker::default()
    };
    let candidates = maker.candidates();
    assert!(candidates.contains(&"il".to_string()));
    assert!(!candidates.contains(&"l".to_string()));
    assert!(!candidates.contains(&"O".to_string()));
    assert!(!candidates.contains(&"i".to_string()));
    assert!(!candidates.contains(&"1".to_string()));
    assert!(!candidates.contains(&"0".to_string()));
    assert!(!candidates.contains(&"o".to_string()));
}

#[test]
fn whitespace_entry_survives_exclusion() {
    let maker = PasswordMaker {
        exclude_similar: true,
        include_whitespace_in_candidate: true,
        ..PasswordMaker::default()
    };
    let candidates = maker.candidates();
    assert!(candidates.contains(&" ".to_string()));
}

#[test]
fn minimum_counts_are_met_exactly_at_capacity() {
    // With the total of the minimums equal to the length, every position
    // is claimed by some classifier.
    let maker = PasswordMaker {
        length: 4,
        ..PasswordMaker::default()
    };
    let password = maker.generate_with(&mut RandomSource::from_seed(3)).unwrap();
    assert_eq!(password.chars().count(), 4);
    assert!(password.chars().any(|c| c.is_ascii_uppercase()));
    assert!(password.chars().any(|c| c.is_ascii_lowercase()));
    assert!(password.chars().any(|c| c.is_ascii_digit()));
    assert!(password.chars().any(|c| c.is_ascii_punctuation()));
}

#[test]
fn multi_codepoint_clusters_stay_whole() {
    // Flag sequences and joined emoji must never be split by the
    // overwrite phase: every grapheme cluster of the result is one of the
    // candidates.
    let pool = ["🇯🇵", "🇺🇸", "👨‍👩‍👦", "あ"];
    let maker = PasswordMaker {
        length: 12,
        uppercase: Classifier { candidates: vec![], minimum_count: 0 },
        lowercase: Classifier { candidates: vec![], minimum_count: 0 },
        number: Classifier { candidates: vec![], minimum_count: 0 },
        symbol: Classifier { candidates: vec![], minimum_count: 0 },
        others: vec![Classifier {
            candidates: pool.iter().map(|s| s.to_string()).collect(),
            minimum_count: 2,
        }],
        ..PasswordMaker::default()
    };
    let password = maker.generate_with(&mut RandomSource::from_seed(11)).unwrap();
    let clusters: Vec<&str> = password.graphemes(true).collect();
    assert_eq!(clusters.len(), 12);
    for cluster in clusters {
        assert!(pool.contains(&cluster));
    }
}

#[test]
fn unique_random_numbers_cover_whole_range() {
    // Asking for as many values as the range holds yields a permutation.
    let maker = PasswordMaker::default();
    let mut numbers = maker.unique_random_numbers(10, 5..15, &mut RandomSource::from_seed(2));
    numbers.sort();
    assert_eq!(numbers, (5..15).collect::<Vec<u32>>());
}

#[test]
fn unique_random_numbers_reproducible() {
    let maker = PasswordMaker::default();
    let first = maker.unique_random_numbers(6, 0..50, &mut RandomSource::from_seed(9));
    let second = maker.unique_random_numbers(6, 0..50, &mut RandomSource::from_seed(9));
    assert_eq!(first, second);
}

use airust::agent::{default_weight, Agent, ResponseFormat, TrainableAgent, TrainingExample};
use airust::match_agent::{FuzzyOptions, MatchAgent, MatchingStrategy, ThresholdFactor};

fn example(input: &str, output: &str) -> TrainingExample {
    TrainingExample {
        input: input.to_string(),
        output: ResponseFormat::Text(output.to_string()),
        weight_bits: default_weight(),
        metadata: None,
    }
}

fn capitals() -> Vec<TrainingExample> {
    vec![example("capital of France", "Paris"), example("capital of Germany", "Berlin")]
}

#[test]
fn exact_match_ignores_letter_case() {
    let mut agent = MatchAgent::new_exact();
    agent.train(&capitals());
    assert_eq!(agent.predict_text("CAPITAL of france"), "Paris");
    assert_eq!(agent.predict_text("capital of germany"), "Berlin");
}

#[test]
fn exact_match_misses_other_text() {
    let mut agent = MatchAgent::new_exact();
    agent.train(&capitals());
    assert_eq!(agent.predict_text("capital of Spain"), "No matching answer found.");
    assert!(!agent.can_answer("capital of Spain"));
    assert!(agent.can_answer("capital of France"));
}

#[test]
fn empty_corpus_has_no_training_data() {
    let exact = MatchAgent::new_exact();
    assert_eq!(exact.predict_text("anything"), "No training data available.");
    let fuzzy = MatchAgent::new_fuzzy();
    assert_eq!(fuzzy.predict_text("anything"), "No training data available.");
    assert_eq!(f32::from_bits(fuzzy.confidence("anything")), 0.0);
}

#[test]
fn fuzzy_match_end_to_end_typo() {
    let mut agent = MatchAgent::new_fuzzy();
    agent.train(&capitals());
    assert_eq!(agent.predict_text("capitol of France"), "Paris");
}

#[test]
fn fuzzy_match_identical_query_wins() {
    let mut agent = MatchAgent::new_fuzzy();
    agent.train(&[example("abcd", "near"), example("abce", "exact"), example("abcf", "other")]);
    assert_eq!(agent.predict_text("ABCE"), "exact");
}

#[test]
fn fuzzy_match_first_of_two_equidistant_wins() {
    let mut agent = MatchAgent::new(MatchingStrategy::Fuzzy(FuzzyOptions {
        max_distance: Some(1),
        threshold_factor: None,
    }));
    agent.train(&[example("abcx", "first"), example("abcy", "second")]);
    assert_eq!(agent.predict_text("abcd"), "first");
}

#[test]
fn fuzzy_match_respects_limits() {
    let mut agent = MatchAgent::new(MatchingStrategy::Fuzzy(FuzzyOptions {
        max_distance: Some(2),
        threshold_factor: None,
    }));
    agent.train(&[example("kitten", "cat")]);
    assert_eq!(agent.predict_text("sitting"), "No matching answer found.");
    assert_eq!(agent.predict_text("sitten"), "cat");
    // 10 characters, factor 3/10: distances up to 3 are allowed
    let mut shared = MatchAgent::new_fuzzy();
    shared.train(&[example("abcdefghij", "ten")]);
    assert_eq!(shared.predict_text("abcdefgxyz"), "ten");
    assert_eq!(shared.predict_text("abcdefwxyz"), "No matching answer found.");
}

#[test]
fn threshold_factor_must_be_positive() {
    assert!(ThresholdFactor::new(3, 10).is_ok());
    assert!(ThresholdFactor::new(-3, 10).is_err());
    assert!(ThresholdFactor::new(0, 10).is_err());
    assert!(ThresholdFactor::new(3, 0).is_err());
    let half = ThresholdFactor::new(1, 2).unwrap();
    assert!(half.allows(5, 10));
    assert!(!half.allows(6, 10));
    assert!(half.allows(5, 11));
}

#[test]
fn train_replaces_the_corpus() {
    let mut agent = MatchAgent::new_exact();
    agent.train(&capitals());
    agent.train(&[example("hello", "world")]);
    assert_eq!(agent.predict_text("capital of France"), "No matching answer found.");
    assert_eq!(agent.predict_text("Hello"), "world");
    agent.add_example("bye", ResponseFormat::from("later"), default_weight());
    assert_eq!(agent.predict_text("hello"), "No matching answer found.");
    assert_eq!(agent.predict_text("bye"), "later");
}

#[test]
fn empty_query_and_empty_input_do_not_match_by_accident() {
    let mut exact = MatchAgent::new_exact();
    exact.train(&capitals());
    assert_eq!(exact.predict_text(""), "No matching answer found.");
    let mut fuzzy = MatchAgent::new_fuzzy();
    fuzzy.train(&capitals());
    assert_eq!(fuzzy.predict_text(""), "No matching answer found.");
    fuzzy.train(&[example("", "empty"), example("capital of France", "Paris")]);
    assert_eq!(fuzzy.predict_text("capital of France"), "Paris");
    assert_eq!(fuzzy.predict_text("xyz"), "No matching answer found.");
}

#[test]
fn fuzzy_threshold_counts_the_characters_of_the_query() {
    // "ääääää" has 6 characters: 3/10 of 6 allows a distance of 1, not of 3
    let mut agent = MatchAgent::new_fuzzy();
    agent.train(&[example("äääxyz", "found")]);
    assert_eq!(agent.predict_text("ääääää"), "No matching answer found.");
    agent.train(&[example("aaaxyz", "found")]);
    assert_eq!(agent.predict_text("aaaaaa"), "No matching answer found.");
    agent.train(&[example("äääääx", "found")]);
    assert_eq!(agent.predict_text("ääääää"), "found");
    // 3 characters in 6 bytes: the cap is 0
    agent.train(&[example("äöx", "A")]);
    assert_eq!(agent.predict_text("äöü"), "No matching answer found.");
    assert_eq!(agent.predict_text("ÄÖX"), "A");
}

#[test]
fn threshold_is_the_product_rounded_down() {
    let seven_tenths = ThresholdFactor::new(7, 10).unwrap();
    assert!(seven_tenths.allows(7, 10));
    assert!(!seven_tenths.allows(8, 10));
    assert!(seven_tenths.allows(11, 17));
    assert!(!seven_tenths.allows(12, 17));
    assert!(seven_tenths.allows(0, 0));
    assert!(!seven_tenths.allows(1, 1));
}

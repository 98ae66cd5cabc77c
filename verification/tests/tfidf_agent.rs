use airust::agent::{default_weight, ResponseFormat, TrainingExample};
use airust::tfidf_agent::{key_of_score, ScoreInput, TermStat, TfidfAgent};

fn example(input: &str, output: &str, weight: f32) -> TrainingExample {
    TrainingExample {
        input: input.to_string(),
        output: ResponseFormat::Text(output.to_string()),
        weight_bits: weight.to_bits(),
        metadata: None,
    }
}

/// The BM25 scores of the documents, as bit patterns.
fn bm25_scores(agent: &TfidfAgent, plan: &[ScoreInput]) -> Vec<u32> {
    let k1 = f32::from_bits(agent.k1_bits());
    let b = f32::from_bits(agent.b_bits());
    let doc_count = agent.doc_count() as f32;
    let avg_doc_len: f32 = plan.iter().map(|d| d.doc_len as f32).sum::<f32>() / doc_count;
    plan.iter()
        .map(|doc| {
            let doc_len = doc.doc_len as f32;
            let score: f32 = doc
                .terms
                .iter()
                .map(|stat| {
                    let tf = stat.tf as f32;
                    let df = stat.df as f32;
                    let idf = (1.0 + (doc_count - df + 0.5) / (df + 0.5)).ln();
                    idf * tf * (k1 + 1.0) / (tf + k1 * (1.0 - b + b * doc_len / avg_doc_len))
                })
                .sum();
            (score * f32::from_bits(doc.weight_bits)).to_bits()
        })
        .collect()
}

fn predict(agent: &TfidfAgent, query: &str) -> String {
    let plan = agent.score_inputs(query);
    let scores = bm25_scores(agent, &plan);
    agent.predict(query, &scores).into_text()
}

fn capitals() -> TfidfAgent {
    let mut agent = TfidfAgent::new();
    agent.train(&[
        example("capital of France", "Paris", 1.0),
        example("capital of Germany", "Berlin", 1.0),
    ]);
    agent
}

#[test]
fn ranked_match_end_to_end() {
    let agent = capitals();
    assert_eq!(predict(&agent, "What is the capital of France?"), "Paris");
    assert_eq!(predict(&agent, "the capital of germany"), "Berlin");
}

#[test]
fn ranked_match_without_shared_terms_is_no_match() {
    let agent = capitals();
    assert_eq!(predict(&agent, "weather tomorrow"), "No matching answer found.");
    // whatever is given for documents that share no token with the query
    let high = vec![1000.0f32.to_bits(), 2000.0f32.to_bits()];
    assert_eq!(
        agent.predict("weather tomorrow", &high).into_text(),
        "No matching answer found."
    );
}

#[test]
fn ranked_match_without_documents_has_no_training_data() {
    let agent = TfidfAgent::default();
    assert_eq!(agent.doc_count(), 0);
    assert!(agent.score_inputs("anything").is_empty());
    assert_eq!(agent.predict("anything", &[]).into_text(), "No training data available.");
}

#[test]
fn score_inputs_hold_the_frequencies() {
    let mut agent = TfidfAgent::new();
    agent.train(&[
        example("red red apple", "a", 2.0),
        example("green apple", "b", 1.0),
        example("blue sky", "c", 1.0),
    ]);
    let plan = agent.score_inputs("Red apple, red pear");
    assert_eq!(plan.len(), 3);
    assert_eq!(
        plan[0],
        ScoreInput {
            doc_len: 3,
            weight_bits: 2.0f32.to_bits(),
            terms: vec![
                TermStat { tf: 2, df: 1 },
                TermStat { tf: 1, df: 2 },
                TermStat { tf: 2, df: 1 }
            ],
        }
    );
    assert_eq!(plan[1].doc_len, 2);
    assert_eq!(plan[1].terms, vec![TermStat { tf: 1, df: 2 }]);
    assert_eq!(plan[2].terms, vec![]);
}

#[test]
fn ranked_match_first_of_equal_scores_wins() {
    let mut agent = TfidfAgent::new();
    agent.train(&[example("same words", "first", 1.0), example("same words", "second", 1.0)]);
    assert_eq!(predict(&agent, "same words"), "first");
    let one = 1.0f32.to_bits();
    assert_eq!(agent.predict("same", &[one, one]).into_text(), "first");
    assert_eq!(agent.predict("same", &[one, 2.0f32.to_bits()]).into_text(), "second");
    assert_eq!(agent.predict("same", &[one]).into_text(), "first");
    assert_eq!(agent.predict("same", &[0, one]).into_text(), "second");
}

#[test]
fn ranked_match_weight_decides() {
    let mut agent = TfidfAgent::new();
    agent.train(&[example("same words", "light", 1.0), example("same words", "heavy", 3.0)]);
    assert_eq!(predict(&agent, "same words"), "heavy");
}

#[test]
fn scores_that_are_not_positive_give_no_match() {
    let agent = capitals();
    let zero = 0.0f32.to_bits();
    let negative = (-1.5f32).to_bits();
    let nan = f32::NAN.to_bits();
    assert_eq!(agent.predict("capital", &[zero, negative]).into_text(), "No matching answer found.");
    assert_eq!(agent.predict("capital", &[nan, nan]).into_text(), "No matching answer found.");
    assert_eq!(agent.predict("capital", &[negative, nan]).into_text(), "No matching answer found.");
}

#[test]
fn keys_are_ordered_as_scores() {
    let values = [f32::NEG_INFINITY, -2.5, -1.0e-30, -0.0, 0.0, 1.0e-30, 0.5, 1.0, 3.0e5, f32::INFINITY];
    for pair in values.windows(2) {
        let low = key_of_score(pair[0].to_bits());
        let high = key_of_score(pair[1].to_bits());
        assert!(low <= high);
        assert_eq!(low < high, pair[0] < pair[1]);
    }
    assert_eq!(key_of_score(1.0f32.to_bits()), 0x3F80_0000);
    assert_eq!(key_of_score((-1.0f32).to_bits()), -0x3F80_0000);
    assert_eq!(key_of_score(f32::NAN.to_bits()), 0);
    assert_eq!(key_of_score((-0.0f32).to_bits()), 0);
}

#[test]
fn bm25_params_are_checked() {
    let agent = TfidfAgent::new();
    assert_eq!(f32::from_bits(agent.k1_bits()), 1.2);
    assert_eq!(f32::from_bits(agent.b_bits()), 0.75);
    let agent = agent.with_bm25_params(2.0f32.to_bits(), 0.5f32.to_bits()).unwrap();
    assert_eq!(f32::from_bits(agent.k1_bits()), 2.0);
    assert_eq!(f32::from_bits(agent.b_bits()), 0.5);
    assert!(TfidfAgent::new().with_bm25_params((-1.0f32).to_bits(), 0.5f32.to_bits()).is_err());
    assert!(TfidfAgent::new().with_bm25_params(0.0f32.to_bits(), 0.5f32.to_bits()).is_err());
    assert!(TfidfAgent::new().with_bm25_params(f32::NAN.to_bits(), 0.5f32.to_bits()).is_err());
    assert!(TfidfAgent::new().with_bm25_params(1.2f32.to_bits(), 1.5f32.to_bits()).is_err());
    assert!(TfidfAgent::new().with_bm25_params(1.2f32.to_bits(), (-0.5f32).to_bits()).is_err());
    assert!(TfidfAgent::new().with_bm25_params(1.2f32.to_bits(), 1.0f32.to_bits()).is_ok());
    assert!(TfidfAgent::new().with_bm25_params(1.2f32.to_bits(), 0.0f32.to_bits()).is_ok());
    assert_eq!(default_weight(), 1.0f32.to_bits());
}

#[test]
fn bm25_score_of_one_document() {
    let mut agent = TfidfAgent::new();
    agent.train(&[example("red apple", "a", 2.0)]);
    let plan = agent.score_inputs("red");
    assert_eq!(plan[0].terms, vec![TermStat { tf: 1, df: 1 }]);
    let scores = bm25_scores(&agent, &plan);
    // idf = ln(1 + 0.5 / 1.5), tf part = 2.2 / 2.2, weight 2
    let expected = (1.0f32 + 0.5 / 1.5).ln() * (1.0 * 2.2) / (1.0 + 1.2 * (1.0 - 0.75 + 0.75)) * 2.0;
    assert!((f32::from_bits(scores[0]) - expected).abs() < 1.0e-6);
    assert!(key_of_score(scores[0]) > 0);
}

#[test]
fn ranked_match_with_empty_query_or_empty_inputs() {
    let agent = capitals();
    assert_eq!(predict(&agent, ""), "No matching answer found.");
    assert_eq!(predict(&agent, "?!"), "No matching answer found.");
    let mut empty_inputs = TfidfAgent::new();
    empty_inputs.train(&[example("", "a", 1.0), example("...", "b", 1.0)]);
    assert_eq!(predict(&empty_inputs, "anything"), "No matching answer found.");
    assert_eq!(empty_inputs.score_inputs("anything")[0].doc_len, 0);
}

#[test]
fn ranked_match_counts_numbers_as_terms() {
    let mut agent = TfidfAgent::new();
    agent.train(&[example("route 66", "west", 1.0), example("route 1", "east", 1.0)]);
    assert_eq!(predict(&agent, "Where is Route 66?"), "west");
    assert_eq!(predict(&agent, "66"), "west");
}

use airust::agent::{default_weight, Agent, ContextualAgent, ResponseFormat, TrainableAgent, TrainingExample};
use airust::context_agent::{ContextAgent, ContextFormat, ContextFormatter};
use airust::match_agent::MatchAgent;

/// An agent that answers with the query it was handed.
struct Echo;

impl Agent for Echo {
    fn predict(&self, input: &str) -> ResponseFormat {
        ResponseFormat::Text(input.to_string())
    }
}

struct CountTurns;

impl ContextFormatter for CountTurns {
    fn format(&self, history: &Vec<(String, ResponseFormat)>) -> String {
        format!("{} turns", history.len())
    }
}

fn text(s: &str) -> ResponseFormat {
    ResponseFormat::Text(s.to_string())
}

#[test]
fn context_window_evicts_oldest_first() {
    let mut agent = ContextAgent::new(Echo, 2);
    agent.add_context("q1".to_string(), text("a1"));
    agent.add_context("q2".to_string(), text("a2"));
    agent.add_context("q3".to_string(), text("a3"));
    assert_eq!(agent.context_len(), 2);
    let entries = agent.context_entries();
    assert_eq!(entries[0].0, "q2");
    assert_eq!(entries[1].0, "q3");
    assert_eq!(agent.predict_text("now"), "now [Context: Q: q2 A: a2 Q: q3 A: a3 ]");
}

#[test]
fn context_formats_render_the_window() {
    let mut list = ContextAgent::new(Echo, 3).with_context_format(ContextFormat::List);
    list.add_context("q1".to_string(), text("a1"));
    list.add_text_context("q2".to_string(), "a2".to_string());
    assert_eq!(list.predict_text("now"), "now [Context: [q1 -> a1, q2 -> a2]]");
    let mut sentence = ContextAgent::new(Echo, 3).with_context_format(ContextFormat::Sentence);
    sentence.add_context("q1".to_string(), text("a1"));
    sentence.add_context("q2".to_string(), ResponseFormat::Markdown("*a2*".to_string()));
    assert_eq!(
        sentence.predict_text("now"),
        "now [Context: Previous questions and answers: q1 - a1; q2 - *a2*]"
    );
    let mut custom =
        ContextAgent::new(Echo, 3).with_context_format(ContextFormat::Custom(Box::new(CountTurns)));
    custom.add_context("q1".to_string(), text("a1"));
    assert_eq!(custom.predict_text("now"), "now [Context: 1 turns]");
}

#[test]
fn cleared_context_answers_as_the_base_agent() {
    let mut base = MatchAgent::new_exact();
    base.train(&[TrainingExample {
        input: "hello".to_string(),
        output: text("world"),
        weight_bits: default_weight(),
        metadata: None,
    }]);
    let mut agent = ContextAgent::new(base, 3);
    assert_eq!(agent.predict_text("hello"), "world");
    agent.add_context("hello".to_string(), text("world"));
    assert_eq!(agent.predict_text("hello"), "No matching answer found.");
    agent.clear_context();
    assert_eq!(agent.context_len(), 0);
    assert_eq!(agent.predict_text("hello"), "world");
    for format in [ContextFormat::List, ContextFormat::Sentence] {
        let empty = ContextAgent::new(Echo, 3).with_context_format(format);
        assert_eq!(empty.predict_text("hello"), "hello");
    }
}

#[test]
fn context_window_without_capacity_stays_empty() {
    let mut agent = ContextAgent::new(Echo, 0);
    agent.add_context("q1".to_string(), text("a1"));
    assert_eq!(agent.context_len(), 0);
    assert_eq!(agent.predict_text("now"), "now");
}

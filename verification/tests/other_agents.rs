use airust::agent::{default_weight, Agent, ResponseFormat, TrainableAgent, TrainingExample};
use airust::fuzzy_agent::FuzzyAgent;
use airust::simple_agent::SimpleAgent;
use airust::structured_agent::{find_structured, StructuredAgent};

fn example(input: &str, output: ResponseFormat) -> TrainingExample {
    TrainingExample { input: input.to_string(), output, weight_bits: default_weight(), metadata: None }
}

fn text(s: &str) -> ResponseFormat {
    ResponseFormat::Text(s.to_string())
}

#[test]
fn simple_agent_matches_exactly() {
    let mut agent = SimpleAgent::new();
    assert_eq!(agent.predict("hello"), text("Keine Antwort gefunden."));
    agent.train(&[example("Hello", text("first")), example("hello", text("second"))]);
    assert_eq!(agent.predict("HELLO"), text("first"));
    assert_eq!(agent.predict("hello!"), text("Keine Antwort gefunden."));
}

#[test]
fn fuzzy_agent_answers_with_the_nearest() {
    let mut agent = FuzzyAgent::new();
    assert_eq!(agent.predict("hello"), text("Keine Antwort gefunden."));
    agent.train(&[
        example("good morning", text("morning")),
        example("good evening", text("evening")),
        example("good evenings", text("later")),
    ]);
    assert_eq!(agent.predict("good evenin"), text("evening"));
    assert_eq!(agent.predict("completely different text"), text("evening"));
    agent.train(&[example("abcx", text("first")), example("abcy", text("second"))]);
    assert_eq!(agent.predict("abcd"), text("first"));
}

#[test]
fn structured_agent_keeps_the_format() {
    let markdown = ResponseFormat::Markdown("**Paris**".to_string());
    let memory = vec![example("capital of France", markdown.clone()), example("x", text("y"))];
    assert_eq!(find_structured(&memory, "**Paris**".to_string()), markdown);
    assert_eq!(find_structured(&memory, "y".to_string()), text("y"));
    assert_eq!(find_structured(&memory, "unknown".to_string()), text("unknown"));
    let mut agent = StructuredAgent::new();
    agent.train(&memory);
    let plan = agent.score_inputs("the capital");
    assert_eq!(plan.len(), 2);
    assert_eq!(plan[0].terms.len(), 1);
    let scores = [1.0f32.to_bits(), 0];
    assert_eq!(agent.predict("the capital", &scores), "**Paris**");
    assert_eq!(agent.predict_structured("the capital", &scores), markdown);
    assert_eq!(
        agent.predict_structured("nothing shared", &scores),
        text("No matching answer found.")
    );
}

#[test]
fn answers_are_equal_by_format_and_text() {
    assert_eq!(text("a"), text("a"));
    assert_ne!(text("a"), text("b"));
    assert_ne!(text("a"), ResponseFormat::Markdown("a".to_string()));
    assert_ne!(ResponseFormat::Json("1".to_string()), text("1"));
    assert_eq!(ResponseFormat::Json("1".to_string()), ResponseFormat::Json("1".to_string()));
}

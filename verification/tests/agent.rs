use airust::agent::{
    contains_text, default_weight, unanswered, Agent, AgentError, LegacyTrainingExample,
    PredictionResult, ResponseFormat, TrainableAgent, TrainingExample,
};
use airust::match_agent::MatchAgent;
use airust::{library_description, version_info};

#[test]
fn test_response_format_conversion() {
    let text = ResponseFormat::Text("Hello".to_string());
    let string: String = text.clone().into();
    assert_eq!(string, "Hello");

    let mut fields = serde_json::Map::new();
    fields.insert("key".to_string(), serde_json::Value::String("value".to_string()));
    let value = serde_json::Value::Object(fields);
    let json = ResponseFormat::json(&format!("{:#}", value)).unwrap();
    let string: String = json.into();
    assert_eq!(string, r#"{"key":"value"}"#);
}

#[test]
fn test_legacy_conversion() {
    let legacy = LegacyTrainingExample {
        input: "hello".to_string(),
        output: "world".to_string(),
        weight_bits: 2.0f32.to_bits(),
    };

    let modern: TrainingExample = legacy.into();
    assert_eq!(modern.input, "hello");
    assert_eq!(String::from(modern.output), "world");
    assert_eq!(f32::from_bits(modern.weight_bits), 2.0);
    assert!(modern.metadata.is_none());
}

#[test]
fn json_answers_are_held_in_compact_form() {
    let answer = ResponseFormat::json(" { \"b\" : [1, 2.5, true, null],\n \"a\" : \"x\" } ").unwrap();
    assert_eq!(answer.to_text(), r#"{"a":"x","b":[1,2.5,true,null]}"#);
    assert!(matches!(answer, ResponseFormat::Json(_)));
    assert!(matches!(ResponseFormat::json("{not json"), Err(AgentError::InvalidInputError(_))));
    assert!(matches!(ResponseFormat::json(""), Err(AgentError::InvalidInputError(_))));
    assert!(ResponseFormat::from_compact_json(None).is_err());
    assert_eq!(ResponseFormat::from_compact_json(Some("[]".to_string())).unwrap().into_text(), "[]");
}

#[test]
fn answers_turn_into_their_text() {
    assert_eq!(ResponseFormat::Markdown("# t".to_string()).to_text(), "# t");
    assert_eq!(ResponseFormat::from("plain").into_text(), "plain");
    assert_eq!(ResponseFormat::from("owned".to_string()).into_text(), "owned");
    assert_eq!(ResponseFormat::from_text("t").into_text(), "t");
    assert_eq!(ResponseFormat::default().into_text(), "");
    assert!(matches!(ResponseFormat::default(), ResponseFormat::Text(_)));
    let result = PredictionResult::from(ResponseFormat::from("a"));
    assert_eq!(f32::from_bits(result.confidence_bits), 1.0);
    assert!(result.metadata.is_none());
    assert_eq!(ResponseFormat::from(result).into_text(), "a");
}

#[test]
fn error_messages() {
    assert_eq!(AgentError::NoMatchError.message(), "Keine passende Antwort gefunden");
    assert_eq!(AgentError::NoTrainingDataError.message(), "Keine Trainingsdaten verfügbar");
    assert_eq!(AgentError::TrainingError("x".to_string()).message(), "Trainingsfehler: x");
    assert_eq!(AgentError::InvalidInputError("y".to_string()).message(), "Ungültige Eingabe: y");
    assert_eq!(AgentError::InternalError("z".to_string()).message(), "Interner Fehler: z");
}

#[test]
fn unanswered_answers_are_recognized() {
    assert!(unanswered(&ResponseFormat::from("No matching answer found.")));
    assert!(unanswered(&ResponseFormat::Markdown("> No training data available.".to_string())));
    assert!(!unanswered(&ResponseFormat::Json("\"No matching answer found\"".to_string())));
    assert!(!unanswered(&ResponseFormat::from("No matching answer")));
    assert!(contains_text("abcabd", "abd"));
    assert!(contains_text("abc", ""));
    assert!(contains_text("", ""));
    assert!(!contains_text("ab", "abc"));
    assert!(!contains_text("abcabc", "acb"));
    assert!(contains_text("grüße", "üß"));
}

#[test]
fn prediction_with_metadata_and_confidence() {
    let mut agent = MatchAgent::new_exact();
    agent.train_legacy(&[LegacyTrainingExample {
        input: "hello".to_string(),
        output: "world".to_string(),
        weight_bits: default_weight(),
    }]);
    let hit = agent.predict_with_metadata("HELLO");
    assert_eq!(hit.response.to_text(), "world");
    assert_eq!(f32::from_bits(hit.confidence_bits), 1.0);
    let miss = agent.predict_with_metadata("bye");
    assert_eq!(miss.response.to_text(), "No matching answer found.");
    assert_eq!(f32::from_bits(miss.confidence_bits), 0.0);
    assert_eq!(f32::from_bits(default_weight()), 1.0);
}

#[test]
fn library_information() {
    assert_eq!(version_info(), "airust v0.1.0");
    assert!(library_description().starts_with("AIRust: A modular Rust library"));
}

/// An agent that grades its answers with a fixed confidence.
struct Graded(f32);

impl Agent for Graded {
    fn predict(&self, input: &str) -> ResponseFormat {
        ResponseFormat::Text(input.to_string())
    }

    fn confidence(&self, _input: &str) -> u32 {
        self.0.to_bits()
    }
}

#[test]
fn can_answer_asks_for_a_confidence_above_one_half() {
    assert!(Graded(0.9).can_answer("q"));
    assert!(Graded(1.0).can_answer("q"));
    assert!(Graded(0.500001).can_answer("q"));
    assert!(!Graded(0.5).can_answer("q"));
    assert!(!Graded(0.4).can_answer("q"));
    assert!(!Graded(0.0).can_answer("q"));
    assert!(!Graded(-0.9).can_answer("q"));
    assert!(!Graded(f32::NAN).can_answer("q"));
}

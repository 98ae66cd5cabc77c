use airust::agent::{default_weight, ResponseFormat};
use airust::knowledge::KnowledgeBase;
use std::path::PathBuf;

#[test]
fn knowledge_base_adds_and_removes() {
    let mut kb = KnowledgeBase::new();
    assert!(kb.get_examples().is_empty());
    kb.add_example("q1".to_string(), ResponseFormat::from("a1"), default_weight());
    kb.add_example("q2".to_string(), ResponseFormat::from("a2"), 2.0f32.to_bits());
    assert_eq!(kb.get_examples().len(), 2);
    assert_eq!(kb.get_examples()[1].input, "q2");
    assert_eq!(kb.remove_example(5).unwrap_err(), "Index 5 out of bounds");
    assert_eq!(kb.remove_example(120).unwrap_err(), "Index 120 out of bounds");
    assert_eq!(kb.get_examples().len(), 2);
    let removed = kb.remove_example(0).unwrap();
    assert_eq!(removed.input, "q1");
    assert_eq!(kb.get_examples().len(), 1);
    assert_eq!(kb.get_examples()[0].input, "q2");
}

#[test]
fn knowledge_base_merges_in_order() {
    let mut first = KnowledgeBase::default();
    first.add_example("q1".to_string(), ResponseFormat::from("a1"), default_weight());
    let mut second = KnowledgeBase::new();
    second.add_example("q2".to_string(), ResponseFormat::from("a2"), default_weight());
    second.add_example("q3".to_string(), ResponseFormat::from("a3"), default_weight());
    first.merge(&second);
    let inputs: Vec<&str> = first.get_examples().iter().map(|e| e.input.as_str()).collect();
    assert_eq!(inputs, vec!["q1", "q2", "q3"]);
    assert_eq!(second.get_examples().len(), 2);
    let copy = first.clone();
    assert_eq!(copy.get_examples().len(), 3);
}

#[test]
fn knowledge_base_chooses_the_path_to_save_to() {
    let without = KnowledgeBase::new();
    assert_eq!(without.save_path(None).unwrap_err(), "No path provided");
    assert_eq!(without.save_path(Some(PathBuf::from("a.json"))).unwrap(), PathBuf::from("a.json"));
    let with = KnowledgeBase::from_parts(Vec::new(), Some(PathBuf::from("own.json")));
    assert_eq!(with.save_path(None).unwrap(), PathBuf::from("own.json"));
    assert_eq!(with.save_path(Some(PathBuf::from("a.json"))).unwrap(), PathBuf::from("a.json"));
}

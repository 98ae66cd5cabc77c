use airust::agent::text_utils;

#[test]
fn test_text_utils() {
    let tokens = text_utils::tokenize("Hello, world! How are you?");
    assert_eq!(tokens, vec!["hello", "world", "how", "are", "you"]);

    let unique = text_utils::unique_terms("hello hello world");
    assert_eq!(unique.len(), 2);
    assert!(unique.contains(&"hello".to_string()));
    assert!(unique.contains(&"world".to_string()));

    let distance = text_utils::levenshtein_distance("kitten", "sitting");
    assert_eq!(distance, 3);

    let (common, all) = text_utils::jaccard_similarity("hello world", "world hello");
    let similarity = common as f32 / all as f32;
    assert_eq!(similarity, 1.0);
}

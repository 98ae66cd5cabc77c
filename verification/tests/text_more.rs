use airust::agent::text_utils::{
    create_ngrams, jaccard_similarity, levenshtein_distance, normalize_text, remove_stopwords,
    tokenize, unique_terms,
};

fn strings(words: &[&str]) -> Vec<String> {
    words.iter().map(|w| w.to_string()).collect()
}

#[test]
fn tokenize_drops_punctuation_inside_words() {
    assert_eq!(tokenize("can't stop-me"), vec!["cant", "stopme"]);
    assert_eq!(tokenize("  ÄPFEL\tund\nBirnen 42 "), vec!["äpfel", "und", "birnen", "42"]);
    assert!(tokenize("").is_empty());
    assert_eq!(tokenize(" 12 ?! "), vec!["12"]);
    assert!(tokenize(" ?! ... ").is_empty());
}

#[test]
fn tokenize_keeps_number_characters() {
    assert_eq!(tokenize("Route 66"), vec!["route", "66"]);
    assert_eq!(tokenize("B2B in 2024, 3.5%"), vec!["b2b", "in", "2024", "35"]);
    assert_eq!(tokenize("x² ½ Ⅷ ٣"), vec!["x²", "½", "ⅷ", "٣"]);
}

#[test]
fn unique_terms_keep_first_occurrences() {
    assert_eq!(unique_terms("b a b c a"), vec!["b", "a", "c"]);
}

#[test]
fn stopwords_by_language() {
    let tokens = strings(&["the", "der", "cat", "und", "and", "hund"]);
    assert_eq!(remove_stopwords(tokens.clone(), "en"), vec!["der", "cat", "und", "hund"]);
    assert_eq!(remove_stopwords(tokens.clone(), "DE"), vec!["the", "cat", "and", "hund"]);
    assert_eq!(remove_stopwords(tokens.clone(), "German"), vec!["the", "cat", "and", "hund"]);
    assert_eq!(remove_stopwords(tokens.clone(), "deu"), vec!["the", "cat", "and", "hund"]);
    assert_eq!(remove_stopwords(tokens, "fr"), vec!["der", "cat", "und", "hund"]);
}

#[test]
fn levenshtein_counts_characters() {
    assert_eq!(levenshtein_distance("", "abc"), 3);
    assert_eq!(levenshtein_distance("abc", ""), 3);
    assert_eq!(levenshtein_distance("same", "same"), 0);
    assert_eq!(levenshtein_distance("grün", "grau"), 2);
    assert_eq!(levenshtein_distance("flaw", "lawn"), 2);
    assert_eq!(levenshtein_distance("日本語", "日本"), 1);
    for (a, b) in [("kitten", "sitting"), ("", ""), ("abc", "yabd"), ("über", "uber")] {
        assert_eq!(levenshtein_distance(a, b), strsim::levenshtein(a, b));
    }
}

#[test]
fn jaccard_counts_shared_and_all_tokens() {
    assert_eq!(jaccard_similarity("a b c", "b c d e"), (2, 5));
    assert_eq!(jaccard_similarity("a a a", "a"), (1, 1));
    assert_eq!(jaccard_similarity("", ""), (0, 0));
    assert_eq!(jaccard_similarity("x", ""), (0, 1));
}

#[test]
fn ngrams_of_characters() {
    assert_eq!(create_ngrams("hello", 2), vec!["he", "el", "ll", "lo"]);
    assert_eq!(create_ngrams("hello", 5), vec!["hello"]);
    assert_eq!(create_ngrams("hi", 3), vec!["hi"]);
    assert!(create_ngrams("", 2).is_empty());
    assert!(create_ngrams("hello", 0).is_empty());
    assert_eq!(create_ngrams("äöü", 2), vec!["äö", "öü"]);
}

#[test]
fn normalize_lowers_decomposes_and_trims() {
    assert_eq!(normalize_text("  Hello World \n"), "hello world");
    assert_eq!(normalize_text("\u{00C4}"), "a\u{0308}");
    assert_eq!(normalize_text("\u{FB01}n"), "fin");
}

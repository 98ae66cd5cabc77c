use airust::agent::ResponseFormat;
use airust::pdf_loader::{PdfError, PdfLoader, PdfLoaderConfig};

#[test]
fn test_split_into_sentences() {
    let loader = PdfLoader::new();
    let text = "This is a sentence. This is a second sentence! Is this a third sentence?";
    let sentences = loader.split_into_sentences(text);
    assert_eq!(sentences.len(), 3);
    assert_eq!(sentences[0], "This is a sentence.");
    assert_eq!(sentences[1], "This is a second sentence!");
    assert_eq!(sentences[2], "Is this a third sentence?");
}

#[test]
fn test_split_text_into_chunks() {
    let config = PdfLoaderConfig {
        min_chunk_size: 5,
        max_chunk_size: 20,
        chunk_overlap: 5,
        ..Default::default()
    };
    let loader = PdfLoader::with_config(config).unwrap();

    // A short text that should fit into 2 chunks
    let text = "This is a test. This is another test.";
    let chunks = loader.split_text_into_chunks(text);

    // Check if we have at least 2 chunks
    assert!(chunks.len() >= 2);

    // Check if each chunk doesn't exceed the maximum size
    for chunk in &chunks {
        assert!(chunk.len() <= 20);
    }

    // Check if there are overlaps
    if chunks.len() >= 2 {
        let overlap = chunks[0].chars().rev().take(5).collect::<String>();

        let start_of_second = chunks[1].chars().take(overlap.len()).collect::<String>();

        assert_eq!(overlap, start_of_second.chars().rev().collect::<String>());
    }
}

#[test]
fn chunks_in_detail() {
    let config = PdfLoaderConfig {
        min_chunk_size: 5,
        max_chunk_size: 20,
        chunk_overlap: 5,
        ..Default::default()
    };
    let loader = PdfLoader::with_config(config).unwrap();
    let chunks = loader.split_text_into_chunks("  This is a test. This is another test.  ");
    assert_eq!(chunks, vec!["This is a test.", "test. This is anothe", "nother test."]);
    assert!(loader.split_text_into_chunks(" \n ").is_empty());
    assert_eq!(loader.split_text_into_chunks(" short text "), vec!["short text"]);
    let by_char = PdfLoader::with_config(PdfLoaderConfig {
        min_chunk_size: 2,
        max_chunk_size: 4,
        chunk_overlap: 0,
        split_by_sentence: false,
        ..Default::default()
    })
    .unwrap();
    assert_eq!(by_char.split_text_into_chunks("abcdefghij"), vec!["abcd", "efgh", "ij"]);
}

#[test]
fn sentences_without_an_end_mark() {
    let loader = PdfLoader::new();
    assert_eq!(loader.split_into_sentences("One. Two"), vec!["One.", "Two"]);
    assert_eq!(loader.split_into_sentences(" One.  \n"), vec!["One."]);
    assert_eq!(loader.split_into_sentences("?!"), vec!["?", "!"]);
    assert!(loader.split_into_sentences("").is_empty());
}

#[test]
fn overlap_must_fit_into_a_chunk() {
    let config = PdfLoaderConfig { max_chunk_size: 10, chunk_overlap: 11, ..Default::default() };
    assert!(PdfLoader::with_config(config).is_err());
    let config = PdfLoaderConfig { max_chunk_size: 10, chunk_overlap: 10, ..Default::default() };
    assert!(PdfLoader::with_config(config).is_ok());
}

#[test]
fn chunks_become_examples() {
    let config = PdfLoaderConfig {
        min_chunk_size: 5,
        max_chunk_size: 20,
        chunk_overlap: 5,
        default_weight_bits: 0.5f32.to_bits(),
        ..Default::default()
    };
    let loader = PdfLoader::with_config(config).unwrap();
    let examples = loader.text_to_training_examples("This is a test. This is another test.");
    assert_eq!(examples.len(), 3);
    assert_eq!(examples[1].input, "test. This is anothe");
    assert!(matches!(&examples[1].output, ResponseFormat::Text(t) if t == "test. This is anothe"));
    assert_eq!(f32::from_bits(examples[1].weight_bits), 0.5);
    assert_eq!(examples[1].metadata.as_deref(), Some(r#"{"chunk_index":1,"total_chunks":3}"#));
    let mut fields = serde_json::Map::new();
    fields.insert("chunk_index".to_string(), serde_json::Value::from(1usize));
    fields.insert("total_chunks".to_string(), serde_json::Value::from(3usize));
    let parsed: serde_json::Value =
        serde_json::from_str(examples[1].metadata.as_deref().unwrap()).unwrap();
    assert_eq!(parsed, serde_json::Value::Object(fields));
    let plain = PdfLoader::with_config(PdfLoaderConfig { include_metadata: false, ..config }).unwrap();
    assert!(plain.text_to_training_examples("Some text.")[0].metadata.is_none());
}

#[test]
fn loader_error_messages() {
    assert_eq!(PdfError::IoError("denied".to_string()).message(), "IO Error: denied");
    assert_eq!(PdfError::PdfError("broken".to_string()).message(), "PDF Error: broken");
    assert_eq!(PdfError::InvalidPath("x.pdf".to_string()).message(), "Invalid Path: x.pdf");
}

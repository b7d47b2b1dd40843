use std::path::PathBuf;

use concilium_language_engine::corpus::{
    extract_json_string_values, extract_words, looks_like_sentence, parse_json_content,
    parse_markdown_content, parse_markdown_paragraphs, CorpusCollector, CorpusLoadReport,
};

#[test]
fn parses_markdown_word_lists_and_sentences() {
    let content = "# Heading\n\nI see you.\nThis is good.\n";
    let parsed = parse_markdown_content(content);

    assert!(parsed.words.iter().any(|word| word == "i"));
    assert!(parsed.words.iter().any(|word| word == "see"));
    assert!(parsed.words.iter().any(|word| word == "good"));
    assert!(
        parsed
            .sentences
            .iter()
            .any(|sentence| sentence == "I see you.")
    );
}

#[test]
fn parses_json_values_without_including_keys() {
    let content = r#"{"words":["I","you"],"sentences":["I see you."]}"#;
    let values = extract_json_string_values(content).expect("json should parse");

    assert_eq!(values, vec!["I", "you", "I see you."]);
}

#[test]
fn unterminated_json_string_is_an_error() {
    let result = extract_json_string_values(r#"{"words":["I","you]}"#);
    assert_eq!(result, Err("invalid json: unterminated string".to_owned()));
    assert!(parse_json_content(r#"["open"#).is_err());
}

#[test]
fn json_escapes_are_decoded() {
    let values = extract_json_string_values(r#"["say \"hi\"", "a\\b"]"#).expect("json should parse");
    assert_eq!(values, vec!["say \"hi\"", "a\\b"]);
}

#[test]
fn extracts_lower_case_words() {
    assert_eq!(extract_words("I see, you SEE!"), vec!["i", "see", "you", "see"]);
    assert!(extract_words("123 ...").is_empty());
}

#[test]
fn recognises_sentences() {
    assert!(looks_like_sentence("I see you."));
    assert!(looks_like_sentence("two words"));
    assert!(!looks_like_sentence("word"));
    assert!(!looks_like_sentence(""));
}

#[test]
fn splits_markdown_into_paragraphs() {
    let paragraphs = parse_markdown_paragraphs("# Title\n\nFirst line\nsecond line.\n\nAnother one.\n");
    assert_eq!(paragraphs, vec!["First line second line.", "Another one."]);
}

#[test]
fn collects_markdown_and_json_documents() {
    let mut collector = CorpusCollector::new();
    collector.add_markdown("# words\nalpha\n");
    collector
        .add_json(r#"{"items":["beta gamma"]}"#)
        .expect("json should parse");
    let report = collector.finish(vec![
        PathBuf::from("nested/more.json"),
        PathBuf::from("words.md"),
    ]);

    assert_eq!(report.files.len(), 2);
    assert!(report.glosses.iter().any(|word| word == "alpha"));
    assert!(report.glosses.iter().any(|word| word == "beta"));
    assert!(report.glosses.iter().any(|word| word == "gamma"));
    assert!(report.sentences.iter().any(|sentence| sentence == "beta gamma"));
    assert!(report.api_sources.is_empty());
}

#[test]
fn collector_files_come_out_sorted() {
    let report = CorpusCollector::new().finish(vec![PathBuf::from("b.md"), PathBuf::from("a.md")]);
    assert_eq!(report.files, vec![PathBuf::from("a.md"), PathBuf::from("b.md")]);
}

#[test]
fn failed_json_document_adds_nothing() {
    let mut collector = CorpusCollector::new();
    collector.add_markdown("alpha\n");
    assert!(collector.add_json(r#"["broken"#).is_err());
    let report = collector.finish(Vec::new());
    assert_eq!(report.glosses, vec!["alpha"]);
    assert!(report.sentences.is_empty());
}

fn report(glosses: &[&str], sentences: &[&str], files: &[&str]) -> CorpusLoadReport {
    CorpusLoadReport {
        files: files.iter().map(PathBuf::from).collect(),
        glosses: glosses.iter().map(|s| s.to_string()).collect(),
        sentences: sentences.iter().map(|s| s.to_string()).collect(),
        api_sources: Vec::new(),
    }
}

#[test]
fn merge_keeps_distinct_sorted_strings_and_files() {
    let merged = report(&["you", "i"], &["B.", "A."], &["b.md", "a.md"])
        .merge(report(&["see", "i"], &["A."], &["a.md"]));
    assert_eq!(merged.glosses, vec!["i", "see", "you"]);
    assert_eq!(merged.sentences, vec!["A.", "B."]);
    assert_eq!(merged.files, vec![PathBuf::from("a.md"), PathBuf::from("b.md")]);
}

#[test]
fn merge_order_does_not_matter() {
    let a = report(&["moon", "fire"], &["Z.", "A."], &[]);
    let b = report(&["king", "fire"], &["M."], &[]);
    let ab = report(&["moon", "fire"], &["Z.", "A."], &[]).merge(report(&["king", "fire"], &["M."], &[]));
    let ba = b.merge(a);
    assert_eq!(ab.glosses, ba.glosses);
    assert_eq!(ab.sentences, ba.sentences);
}

#[test]
fn merging_with_itself_changes_nothing() {
    let sorted = report(&["fire", "king"], &["A.", "B."], &[]);
    let merged = report(&["fire", "king"], &["A.", "B."], &[]).merge(sorted);
    assert_eq!(merged.glosses, vec!["fire", "king"]);
    assert_eq!(merged.sentences, vec!["A.", "B."]);
    let with_empty = report(&["fire", "king"], &[], &[]).merge(CorpusLoadReport::default());
    assert_eq!(with_empty.glosses, vec!["fire", "king"]);
}

#[test]
fn limit_keeps_leading_items() {
    let limited = report(&["a", "b", "c"], &["x.", "y."], &[]).limit(2, 5);
    assert_eq!(limited.glosses, vec!["a", "b"]);
    assert_eq!(limited.sentences, vec!["x.", "y."]);
    let twice = report(&["a", "b", "c"], &[], &[]).limit(2, 0).limit(1, 0);
    assert_eq!(twice.glosses, vec!["a"]);
}

#[test]
fn merge_groups_freely() {
    let left = report(&["c", "a"], &[], &[])
        .merge(report(&["b"], &[], &[]))
        .merge(report(&["a", "d"], &[], &[]));
    let right = report(&["c", "a"], &[], &[])
        .merge(report(&["b"], &[], &[]).merge(report(&["a", "d"], &[], &[])));
    assert_eq!(left.glosses, right.glosses);
    assert_eq!(left.glosses, vec!["a", "b", "c", "d"]);
}

#[test]
fn directory_without_corpus_files_is_an_error() {
    let result = CorpusCollector::new().finish_directory(Vec::new(), "data");
    assert_eq!(
        result,
        Err("no supported .md or .json corpus files were found in data".to_owned())
    );
    let mut collector = CorpusCollector::new();
    collector.add_markdown("alpha\n");
    let report = collector
        .finish_directory(vec![PathBuf::from("data/a.md")], "data")
        .expect("a file was read");
    assert_eq!(report.glosses, vec!["alpha"]);
}

#[test]
fn merged_files_come_from_the_inputs() {
    let merged = report(&[], &[], &["c.md", "a.md"]).merge(report(&[], &[], &["b.md"]));
    assert_eq!(
        merged.files,
        vec![PathBuf::from("a.md"), PathBuf::from("b.md"), PathBuf::from("c.md")]
    );
    assert!(CorpusLoadReport::default().merge(CorpusLoadReport::default()).files.is_empty());
}

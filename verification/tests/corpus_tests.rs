use serde_json::Value;
use vox::corpus::{
    corpus_layout, extract_records, parse_records, record_location, CorpusLayout, JsonArena, JsonNode,
};
use vox::oreo_config::OreoError;

/// Lays a parsed JSON value out as an arena, root first.
fn arena_of(value: &Value) -> JsonArena {
    fn add(value: &Value, nodes: &mut Vec<JsonNode>) -> usize {
        let at = nodes.len();
        nodes.push(JsonNode::Null);
        let node = match value {
            Value::Null => JsonNode::Null,
            Value::Bool(b) => JsonNode::Bool(*b),
            Value::Number(n) => JsonNode::Number(n.as_i64()),
            Value::String(s) => JsonNode::Str(s.clone()),
            Value::Array(items) => JsonNode::Array(items.iter().map(|item| add(item, nodes)).collect()),
            Value::Object(map) => JsonNode::Object(
                map.iter().map(|(key, item)| (key.clone(), add(item, nodes))).collect(),
            ),
        };
        nodes[at] = node;
        at
    }
    let mut nodes = Vec::new();
    add(value, &mut nodes);
    JsonArena { nodes }
}

#[test]
fn extracts_docid_and_text_fields() {
    let docs = parse_records(
        r#"{"docid":"m-1","text":"Goods and Services Tax explained."}
{"doc_id":42,"passage":"जीएसटी एक अप्रत्यक्ष कर है।"}
"#,
        "msmarco",
    )
    .expect("parse");
    assert_eq!(docs.len(), 2);
    assert_eq!(docs[0].id, "m-1");
    assert_eq!(docs[0].text, "Goods and Services Tax explained.");
    assert_eq!(docs[1].id, "42");
    assert_eq!(docs[1].source, "msmarco");
}

#[test]
fn supports_nested_positive_passages_and_collection_layout() {
    let jsonl = r#"{"qid":"q1","positive_passages":[{"docid":"d9","text":"Chennai metro water board issues tax cards."}]}"#;
    let docs = parse_records(jsonl, "queries").expect("parse");
    assert_eq!(docs.len(), 1);
    assert_eq!(docs[0].id, "d9");

    let collection =
        r#"{"version":"1.0","docs":[{"docid":"c1","text":"A"},{"docid":"c2","text":"B"}]}"#;
    let docs = parse_records(collection, "collection").expect("parse");
    assert_eq!(docs.len(), 2);
    assert_eq!(docs[1].id, "c2");
}

#[test]
fn skips_records_without_usable_text() {
    let docs = parse_records("{\"docid\":\"x\"}\n{\"docid\":\"y\",\"text\":\"real\"}", "f")
        .expect("parse");
    assert_eq!(docs.len(), 1);
    assert_eq!(docs[0].id, "y");
}

#[test]
fn records_without_ids_should_be_named_by_position() {
    let docs = parse_records(
        "[{\"text\":\"one\"},{\"body\":[\"two\",{\"text\":\"three\"}]},{\"id\":-7,\"content\":\"four\"}]",
        "arr",
    )
    .expect("parse");
    assert_eq!(docs.len(), 3);
    assert_eq!(docs[0].id, "arr-0");
    assert_eq!(docs[1].id, "arr-1");
    assert_eq!(docs[1].text, "two three");
    assert_eq!(docs[2].id, "-7");
}

#[test]
fn passage_lists_without_ids_should_stay_one_record() {
    let value: Value = serde_json::from_str(
        r#"{"id":"r1","passages":["first part", {"text":"second part"}]}"#,
    )
    .expect("json");
    let pairs = extract_records(&arena_of(&value), 0);
    assert_eq!(pairs, vec![("r1".to_owned(), "first part second part".to_owned())]);
}

#[test]
fn corpus_layout_should_number_non_blank_lines() {
    assert_eq!(
        corpus_layout("a\r\n\n  b  \n"),
        CorpusLayout::Lines(vec![(1, "a".to_owned()), (3, "b".to_owned())])
    );
    assert_eq!(corpus_layout("  [1]"), CorpusLayout::Whole("[1]".to_owned()));
    assert_eq!(record_location("corpus", 12), "corpus:12");
}

#[test]
fn malformed_lines_should_report_their_location() {
    let err = parse_records("{\"id\":\"a\",\"text\":\"x\"}\n{oops", "f").expect_err("bad json");
    match err {
        OreoError::Corpus { location, message } => {
            assert_eq!(location, "f:2");
            assert!(!message.is_empty());
        }
        other => panic!("unexpected error {other:?}"),
    }
    let err = parse_records("  [ {\"id\": 1,", "whole").expect_err("bad json");
    assert!(matches!(err, OreoError::Corpus { ref location, .. } if location == "whole"));
}

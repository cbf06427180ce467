use yurl::input::{chunk_document, yaml_document_json, Chunk, StdinReader};

fn texts(lines: &[&str]) -> Vec<String> {
    let mut r = StdinReader::new();
    let mut out = Vec::new();
    for l in lines {
        match r.feed(l) {
            Some(Chunk::Json(s)) => out.push(format!("json:{s}")),
            Some(Chunk::Yaml(s)) => out.push(format!("yaml:{s}")),
            None => {}
        }
    }
    match r.finish() {
        Some(Chunk::Json(s)) => out.push(format!("json:{s}")),
        Some(Chunk::Yaml(s)) => out.push(format!("yaml:{s}")),
        None => {}
    }
    out
}

#[test]
fn jsonl_lines_are_documents() {
    assert_eq!(
        texts(&["\n", "  {\"g\": \"a\"}  \n", "\n", "{\"g\": \"b\"}\n"]),
        vec!["json:{\"g\": \"a\"}".to_string(), "json:{\"g\": \"b\"}".to_string()]
    );
}

#[test]
fn yaml_documents_split_on_separator() {
    assert_eq!(
        texts(&["g: a\n", "h: {x: 1}\n", "---\n", "---\n", "p: b\n"]),
        vec!["yaml:g: a\nh: {x: 1}".to_string(), "yaml:p: b".to_string()]
    );
}

#[test]
fn nothing_after_finish() {
    let mut r = StdinReader::new();
    assert!(r.finish().is_none());
    assert!(r.feed("{\"g\": 1}\n").is_none());
}

#[test]
fn documents_as_request_text() {
    assert_eq!(chunk_document(Chunk::Json("{g: x}".to_string())), Ok("{g: x}".to_string()));
    assert_eq!(
        chunk_document(Chunk::Yaml("g: http://x\nh:\n  a: b".to_string())),
        Ok("{\"g\":\"http://x\",\"h\":{\"a\":\"b\"}}".to_string())
    );
    assert_eq!(yaml_document_json("n: 1"), Ok("{\"n\":1}".to_string()));
    assert!(yaml_document_json("a: [1, 2").is_err());
}

#[test]
fn reader_hands_on_yaml_documents_as_json() {
    let mut r = StdinReader::new();
    assert_eq!(r.feed_document("g: http://x\n"), None);
    assert_eq!(r.feed_document("---\n"), Some(Ok("{\"g\":\"http://x\"}".to_string())));
    assert_eq!(r.feed_document("p: 2\n"), None);
    assert_eq!(r.finish_document(), Some(Ok("{\"p\":2}".to_string())));
    let mut j = StdinReader::new();
    assert_eq!(j.feed_document("{\"g\": 1}\n"), Some(Ok("{\"g\": 1}".to_string())));
}

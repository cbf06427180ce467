use yurl::yaml_util::{needs_yaml_quoting, yaml_block_scalar, yaml_flow_key, yaml_flow_scalar};

#[test]
fn flow_scalar_reserved_words() {
    assert_eq!(yaml_flow_scalar("true"), "\"true\"");
    assert_eq!(yaml_flow_scalar("null"), "\"null\"");
    assert_eq!(yaml_flow_scalar("yes"), "\"yes\"");
}

#[test]
fn flow_scalar_numbers() {
    assert_eq!(yaml_flow_scalar("42"), "\"42\"");
    assert_eq!(yaml_flow_scalar("3.14"), "\"3.14\"");
}

#[test]
fn flow_scalar_empty() {
    assert_eq!(yaml_flow_scalar(""), "\"\"");
}

#[test]
fn flow_scalar_plain() {
    assert_eq!(yaml_flow_scalar("hello"), "hello");
    assert_eq!(yaml_flow_scalar("http://example.com"), "http://example.com");
    assert_eq!(yaml_flow_scalar("application/json"), "application/json");
}

#[test]
fn flow_scalar_flow_indicators() {
    assert_eq!(yaml_flow_scalar("a,b"), "\"a,b\"");
    assert_eq!(yaml_flow_scalar("{x}"), "\"{x}\"");
    assert_eq!(yaml_flow_scalar("[1]"), "\"[1]\"");
}

#[test]
fn flow_scalar_newlines_escaped() {
    assert_eq!(yaml_flow_scalar("line1\nline2"), "\"line1\\nline2\"");
}

#[test]
fn block_scalar_quoting() {
    assert_eq!(yaml_block_scalar("true"), "'true'");
    assert_eq!(yaml_block_scalar("hello"), "hello");
    assert_eq!(yaml_block_scalar("a,b"), "'a,b'");
    assert_eq!(yaml_block_scalar("it's"), "it's");
    assert_eq!(yaml_block_scalar("'quoted'"), "'''quoted'''");
}

#[test]
fn quoting_colon_space() {
    assert!(needs_yaml_quoting("key: value"));
    assert!(!needs_yaml_quoting("key:value"));
}

#[test]
fn quoting_leading_special() {
    assert!(needs_yaml_quoting("&anchor"));
    assert!(needs_yaml_quoting("*alias"));
    assert!(needs_yaml_quoting("!tag"));
    assert!(needs_yaml_quoting("-item"));
    assert!(needs_yaml_quoting("# comment"));
}

#[test]
fn to_yaml_flow_quoting() {
    assert_eq!(yaml_flow_scalar("true"), "\"true\"");
    assert_eq!(yaml_flow_scalar("null"), "\"null\"");
    assert_eq!(yaml_flow_scalar("42"), "\"42\"");
    assert_eq!(yaml_flow_scalar(""), "\"\"");
    assert_eq!(yaml_flow_scalar("hello"), "hello");
    assert_eq!(yaml_flow_scalar("http://example.com"), "http://example.com");
    assert_eq!(yaml_flow_scalar("application/json"), "application/json");
    assert_eq!(yaml_flow_scalar("a,b"), "\"a,b\"");
    assert_eq!(yaml_flow_scalar("{x}"), "\"{x}\"");
}

#[test]
fn yaml_flow_key_unquoted_numbers() {
    assert_eq!(yaml_flow_key("1"), "1");
    assert_eq!(yaml_flow_key("2"), "2");
    assert_eq!(yaml_flow_key("get"), "get");
    assert_eq!(yaml_flow_key("true"), "\"true\"");
    assert_eq!(yaml_flow_key(""), "\"\"");
}

#[test]
fn flow_scalar_escapes_quotes_and_tabs() {
    assert_eq!(yaml_flow_scalar("a\t\"b\""), "\"a\\t\\\"b\\\"\"");
}

#[test]
fn block_scalar_empty_is_quoted() {
    assert_eq!(yaml_block_scalar(""), "''");
}

#[test]
fn quoting_trailing_colon_or_space() {
    assert!(needs_yaml_quoting("key:"));
    assert!(needs_yaml_quoting("value "));
    assert!(needs_yaml_quoting("a #b"));
    assert!(!needs_yaml_quoting("a#b"));
}

fn undo_double_quoted(s: &str) -> String {
    let mut out = String::new();
    let mut it = s.chars();
    while let Some(c) = it.next() {
        if c == '\\' {
            match it.next() {
                Some('n') => out.push('\n'),
                Some('r') => out.push('\r'),
                Some('t') => out.push('\t'),
                Some(o) => out.push(o),
                None => {}
            }
        } else {
            out.push(c);
        }
    }
    out
}

#[test]
fn flow_scalar_unescapes_to_input() {
    for s in ["a\"b\\c", "line1\nline2\r\tend", "", "true", "{x: [1]}", "say \"hi\", \\o/"] {
        let q = yaml_flow_scalar(s);
        if s.is_empty() || needs_yaml_quoting(s) {
            assert!(q.starts_with('"') && q.ends_with('"') && q.len() >= 2);
            assert_eq!(undo_double_quoted(&q[1..q.len() - 1]), s);
        } else {
            assert_eq!(q, s);
        }
        assert!(!q.contains('\n') && !q.contains('\r') && !q.contains('\t'));
    }
}

#[test]
fn block_scalar_undoubles_to_input() {
    for s in ["'quoted'", "a: 'b'", "", "null"] {
        let q = yaml_block_scalar(s);
        assert_eq!(q, format!("'{}'", s.replace('\'', "''")));
        assert_eq!(q[1..q.len() - 1].replace("''", "'"), s);
    }
}

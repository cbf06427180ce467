use yurl::error::RequestError;
use yurl::trusted::YttpErrorFields;
use yurl::request::parse_input;

#[test]
fn parse_error_display_plain() {
    let err = RequestError::Parse {
        input: "{broken".to_string(),
        line: Some(1),
        column: Some(8),
        msg: "expected '}'".to_string(),
    };
    let display = err.to_display_string();
    assert!(display.contains("parse error:"));
    assert!(display.contains("expected '}'"));
    assert!(display.contains("line 1"));
    assert!(display.contains("column 8"));
}

#[test]
fn parse_error_colored_has_caret() {
    let err = RequestError::Parse {
        input: "{g: ok, b: {".to_string(),
        line: Some(1),
        column: Some(12),
        msg: "expected '}'".to_string(),
    };
    let colored = err.display_colored(true);
    assert!(colored.contains('^'), "colored: {colored}");
}

#[test]
fn parse_error_no_column_fallback() {
    let err = RequestError::Parse {
        input: "bad".to_string(),
        line: None,
        column: None,
        msg: "invalid input".to_string(),
    };
    let colored = err.display_colored(true);
    assert!(colored.contains("invalid input"));
    assert!(!colored.contains('^'));
}

#[test]
fn structure_error_display() {
    let err = RequestError::Structure { msg: "no HTTP method found".to_string() };
    assert_eq!(err.to_display_string(), "no HTTP method found");
    assert!(err.display_colored(true).contains("no HTTP method found"));
}

#[test]
fn network_error_display() {
    let err = RequestError::Network { msg: "connection refused".to_string() };
    assert!(err.to_display_string().contains("connection refused"));
}

#[test]
fn url_error_display() {
    let err = RequestError::Url { url: "not://[valid".to_string(), msg: "invalid URL".to_string() };
    let display = err.to_display_string();
    assert!(display.contains("invalid URL"));
    assert!(display.contains("not://[valid"));
}

#[test]
fn from_parse_extracts_position() {
    let yttp_err = YttpErrorFields::Parse { msg: "bad json".to_string(), line: Some(1), column: Some(5) };
    let err = RequestError::from_parse("{test", yttp_err);
    match err {
        RequestError::Parse { line, column, msg, input } => {
            assert_eq!(line, Some(1));
            assert_eq!(column, Some(5));
            assert!(msg.contains("bad json"));
            assert_eq!(input, "{test");
        }
        _ => panic!("expected Parse"),
    }
}

#[test]
fn from_parse_request_error_message() {
    let err = RequestError::from_parse("x", YttpErrorFields::Request("no URL found".to_string()));
    match err {
        RequestError::Parse { msg, line, column, .. } => {
            assert_eq!(msg, "request error: no URL found");
            assert_eq!(line, None);
            assert_eq!(column, None);
        }
        _ => panic!("expected Parse"),
    }
}

#[test]
fn display_positions() {
    let e = |line, column| RequestError::Parse { input: String::new(), line, column, msg: "m".to_string() };
    assert_eq!(e(Some(2), Some(3)).to_display_string(), "parse error: m (line 2, column 3)");
    assert_eq!(e(Some(2), None).to_display_string(), "parse error: m (line 2)");
    assert_eq!(e(None, Some(3)).to_display_string(), "parse error: m (column 3)");
    assert_eq!(e(None, None).to_display_string(), "parse error: m");
}

#[test]
fn colored_parse_error_exact_text() {
    let err = RequestError::Parse {
        input: "{a: b".to_string(),
        line: Some(1),
        column: Some(3),
        msg: "oops".to_string(),
    };
    assert_eq!(
        err.display_colored(true),
        "  \x1b[32m{a\x1b[0m\x1b[31m: b\x1b[0m\n  \x1b[31m  ^\x1b[0m \x1b[2moops\x1b[0m"
    );
    assert_eq!(err.display_colored(false), "  {a: b\n    ^ oops");
}

#[test]
fn colored_column_past_end() {
    let err = RequestError::Parse {
        input: "ab".to_string(),
        line: None,
        column: Some(9),
        msg: "m".to_string(),
    };
    assert_eq!(err.display_colored(false), "  ab\n          ^ m");
}

#[test]
fn colored_url_error() {
    let err = RequestError::Url { url: "u".to_string(), msg: "bad".to_string() };
    assert_eq!(err.display_colored(false), "  error: bad (u)");
    assert_eq!(err.display_colored(true), "  \x1b[31merror:\x1b[0m bad (\x1b[2mu\x1b[0m)");
}

#[test]
fn colored_text_splits_at_the_character_holding_the_column() {
    let inside = RequestError::Parse {
        input: "{é: 1".to_string(),
        line: Some(1),
        column: Some(3),
        msg: "x".to_string(),
    };
    let text = inside.display_colored(false);
    assert_eq!(text, "  {é: 1\n    ^ x");
    assert!(text.contains('^'));
    let at_boundary = RequestError::Parse {
        input: "aé".to_string(),
        line: Some(1),
        column: Some(2),
        msg: "bad".to_string(),
    };
    assert_eq!(at_boundary.display_colored(false), "  aé\n   ^ bad");
    let past_end = RequestError::Parse { input: "ab".to_string(), line: None, column: Some(9), msg: "m".to_string() };
    assert!(past_end.display_colored(false).contains("ab"));
}

#[test]
fn parse_input_keeps_position_of_the_failure() {
    match parse_input("{g: [1, 2}") {
        Err(RequestError::Parse { input, msg, .. }) => {
            assert_eq!(input, "{g: [1, 2}");
            assert!(!msg.is_empty());
        }
        _ => panic!("expected Parse"),
    }
}

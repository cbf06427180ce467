use arc_swap::ArcSwap;
use serde_json::Value;
use std::sync::Arc;
use yurl::config::Config;
use yurl::env::Env;
use yurl::error::RequestError;
use yurl::json::{Json, JsonNumber};
use yurl::request::{
    expand_request, expand_request_structured, parse_input, preview_request_curl, preview_request_wire,
    resolve_method, to_yaml_block, to_yaml_flow,
};

fn no_env() -> Env {
    Env { vars: Vec::new() }
}

fn to_json(v: &Value) -> Json {
    match v {
        Value::Null => Json::Null,
        Value::Bool(b) => Json::Bool(*b),
        Value::Number(n) => match (n.as_u64(), n.as_i64()) {
            (Some(u), _) => Json::Number(JsonNumber::PosInt(u)),
            (None, Some(i)) => Json::Number(JsonNumber::NegInt(i)),
            _ => Json::Number(JsonNumber::Float(n.to_string())),
        },
        Value::String(s) => Json::Str(s.clone()),
        Value::Array(a) => Json::Array(a.iter().map(to_json).collect()),
        Value::Object(o) => Json::Object(o.iter().map(|(k, v)| (k.clone(), to_json(v))).collect()),
    }
}

fn config_of(text: &str) -> Config {
    Config::parse(&parse_input(text).unwrap(), &no_env()).unwrap()
}

fn expand(line: &str, config: &Config) -> Result<String, RequestError> {
    let json = parse_input(line)?;
    expand_request(&json, config, &no_env())
}

fn expand_structured(line: &str, config: &Config) -> Result<String, RequestError> {
    let json = parse_input(line)?;
    expand_request_structured(&json, config, &no_env())
}

#[test]
fn expand_request_api_alias_and_headers() {
    let config = config_of(r#"{"api": "localhost:3000", "h": {"X-Debug": "1"}}"#);
    let result = expand(r#"{"g": "api!/toys", "h": {"a!": "bearer!tok"}}"#, &config).unwrap();
    let parsed = yttp::parse(&result).unwrap();
    let obj = parsed.as_object().unwrap();
    assert_eq!(obj.get("get").unwrap(), "http://localhost:3000/toys");
    let h = obj.get("h").unwrap().as_object().unwrap();
    assert_eq!(h.get("X-Debug").unwrap(), "1");
    assert_eq!(h.get("Authorization").unwrap(), "Bearer tok");
}

#[test]
fn expand_request_preserves_body_and_outputs() {
    let config = Config::empty();
    let result = expand(r#"{"p": "https://example.com", "b": {"name": "test"}, "1": "j(s b)"}"#, &config).unwrap();
    let parsed = yttp::parse(&result).unwrap();
    let obj = parsed.as_object().unwrap();
    assert_eq!(obj.get("post").unwrap(), "https://example.com");
    assert_eq!(obj.get("b").unwrap().as_object().unwrap().get("name").unwrap(), "test");
    assert_eq!(obj.get("1").unwrap(), "j(s b)");
}

#[test]
fn expand_request_rule_headers() {
    let config = config_of(r#"{"rules": [{"match": {"u": "**example**"}, "h": {"X-From-Rule": "yes"}}]}"#);
    let result = expand(r#"{"g": "https://example.com/api"}"#, &config).unwrap();
    let parsed = yttp::parse(&result).unwrap();
    let h = parsed.get("h").unwrap().as_object().unwrap();
    assert_eq!(h.get("X-From-Rule").unwrap(), "yes");
}

#[test]
fn config_summary_empty() {
    let config = Config::empty();
    assert_eq!(config.summary(), "(empty)");
}

#[test]
fn config_summary_with_fields() {
    let config = config_of(
        r#"{"api": {"main": "localhost:3000", "staging": "staging.example.com"}, "h": {"X-Test": "1"}, "rules": [{"h": {"X-R": "1"}}], "concurrency": 5}"#,
    );
    let summary = config.summary();
    assert!(summary.contains("api:"));
    assert!(summary.contains("h: 1 header"));
    assert!(summary.contains("rules: 1"));
    assert!(summary.contains("concurrency: 5"));
}

#[test]
fn arcswap_config_replacement() {
    let config = Arc::new(ArcSwap::from_pointee(config_of(r#"{"api": "localhost:3000", "h": {"X-Old": "1"}}"#)));
    let result = expand(r#"{"g": "api!/test"}"#, &config.load()).unwrap();
    assert!(result.contains("localhost:3000"));
    assert!(result.contains("X-Old"));
    config.store(Arc::new(config_of(r#"{"api": "example.com:8080", "h": {"X-New": "2"}}"#)));
    let result = expand(r#"{"g": "api!/test"}"#, &config.load()).unwrap();
    assert!(result.contains("example.com:8080"));
    assert!(result.contains("X-New"));
    assert!(!result.contains("X-Old"));
}

#[test]
fn expand_request_yaml_flow_format() {
    let config = Config::empty();
    let result = expand(r#"{"g": "https://example.com"}"#, &config).unwrap();
    assert!(result.starts_with('{'));
    assert!(result.contains("get:"));
    assert!(!result.contains("\"get\""));
}

#[test]
fn to_yaml_flow_round_trip() {
    let cases = vec![
        r#"{"get": "http://localhost:3000/toys"}"#,
        r#"{"post": "https://example.com", "h": {"Content-Type": "application/json"}, "b": {"name": "test"}}"#,
        r#"{"get": "https://example.com/search?q=hello&limit=10"}"#,
    ];
    for json_str in cases {
        let val: Value = serde_json::from_str(json_str).unwrap();
        let yaml = to_yaml_flow(&to_json(&val));
        let reparsed = yttp::parse(&yaml).unwrap();
        assert_eq!(val, reparsed, "Round-trip failed for: {yaml}");
    }
}

#[test]
fn expand_request_numeric_key_unquoted() {
    let config = Config::empty();
    let result = expand(r#"{"g": "https://example.com", "1": "j(s b)"}"#, &config).unwrap();
    assert!(result.contains("1: "), "numeric key should be unquoted: {result}");
    assert!(!result.contains("\"1\""), "numeric key should not be quoted: {result}");
    let parsed = yttp::parse(&result).unwrap();
    assert_eq!(parsed.get("1").unwrap(), "j(s b)");
}

#[test]
fn expand_request_query_params() {
    let config = Config::empty();
    let result = expand(r#"{"g": "https://example.com/search", "q": {"term": "foo", "limit": 10}}"#, &config).unwrap();
    let parsed = yttp::parse(&result).unwrap();
    let url = parsed.get("get").unwrap().as_str().unwrap();
    assert!(url.contains("term=foo"));
    assert!(url.contains("limit=10"));
    assert!(url.contains("?"));
    assert!(parsed.get("q").is_none());
}

#[test]
fn structured_extracts_query_from_url() {
    let config = Config::empty();
    let result = expand_structured(r#"{"g": "https://example.com/search?a=1&b=2"}"#, &config).unwrap();
    let parsed = yttp::parse(&result).unwrap();
    let url = parsed.get("get").unwrap().as_str().unwrap();
    assert!(!url.contains('?'), "URL should have no query string: {url}");
    assert_eq!(url, "https://example.com/search");
    let q = parsed.get("q").unwrap().as_object().unwrap();
    assert_eq!(q.get("a").unwrap(), "1");
    assert_eq!(q.get("b").unwrap(), "2");
}

#[test]
fn structured_merges_url_and_q_params() {
    let config = Config::empty();
    let result = expand_structured(r#"{"g": "https://example.com/search?a=1", "q": {"b": 2}}"#, &config).unwrap();
    let parsed = yttp::parse(&result).unwrap();
    let url = parsed.get("get").unwrap().as_str().unwrap();
    assert_eq!(url, "https://example.com/search");
    let q = parsed.get("q").unwrap().as_object().unwrap();
    assert_eq!(q.get("a").unwrap(), "1");
    assert_eq!(q.get("b").unwrap().as_i64().unwrap(), 2);
}

#[test]
fn structured_no_query_no_q_key() {
    let config = Config::empty();
    let result = expand_structured(r#"{"g": "https://example.com/path"}"#, &config).unwrap();
    let parsed = yttp::parse(&result).unwrap();
    assert!(parsed.get("q").is_none());
}

#[test]
fn structured_preserves_body_and_outputs() {
    let config = Config::empty();
    let result = expand_structured(r#"{"p": "https://example.com", "b": {"name": "test"}, "1": "j(s b)"}"#, &config).unwrap();
    let parsed = yttp::parse(&result).unwrap();
    assert_eq!(parsed.get("b").unwrap().as_object().unwrap().get("name").unwrap(), "test");
    assert_eq!(parsed.get("1").unwrap(), "j(s b)");
}

#[test]
fn structured_round_trip() {
    let config = Config::empty();
    let result = expand_structured(
        r#"{"g": "https://example.com/search?term=foo", "q": {"limit": 10}, "h": {"X-Test": "1"}}"#,
        &config,
    )
    .unwrap();
    let parsed = yttp::parse(&result).unwrap();
    assert!(parsed.is_object());
    let result2 = expand_structured(&result, &config).unwrap();
    let parsed2 = yttp::parse(&result2).unwrap();
    assert_eq!(parsed, parsed2, "Should be idempotent");
}

#[test]
fn expand_request_parse_error() {
    let config = Config::empty();
    let result = expand("{broken", &config);
    assert!(result.is_err());
    let err = result.unwrap_err();
    match err {
        RequestError::Parse { .. } => {}
        _ => panic!("expected Parse error, got: {}", err.to_display_string()),
    }
}

#[test]
fn expand_request_no_method_ok() {
    let config = Config::empty();
    let result = expand(r#"{"h": {"Accept": "j!"}}"#, &config);
    assert!(result.is_ok());
}

#[test]
fn expand_request_url_not_string_error() {
    let config = Config::empty();
    let result = expand(r#"{"g": {"nested": true}}"#, &config);
    assert!(result.is_err());
    match result.unwrap_err() {
        RequestError::Structure { msg } => {
            assert!(msg.contains("must be a string"), "msg: {msg}");
        }
        other => panic!("expected Structure error, got: {}", other.to_display_string()),
    }
}

#[test]
fn expand_request_exact_flow_text() {
    let config = Config::empty();
    let result = expand(r#"{"g": "example.com/a", "md": {"k": "v"}, "2": "s"}"#, &config).unwrap();
    assert_eq!(result, "{get: https://example.com/a, md: {k: v}, 2: s}");
}

#[test]
fn expand_request_unknown_key_error() {
    let config = Config::empty();
    match expand(r#"{"g": "https://x.io", "zz": 1}"#, &config).unwrap_err() {
        RequestError::Structure { msg } => assert_eq!(msg, "unknown key: zz"),
        other => panic!("unexpected: {}", other.to_display_string()),
    }
}

#[test]
fn expand_request_output_not_string_error() {
    let config = Config::empty();
    match expand(r#"{"g": "https://x.io", "1": 3}"#, &config).unwrap_err() {
        RequestError::Structure { msg } => assert_eq!(msg, "output key '1' must have a string value"),
        other => panic!("unexpected: {}", other.to_display_string()),
    }
}

#[test]
fn expand_request_not_object_error() {
    let config = Config::empty();
    match expand("[1, 2]", &config).unwrap_err() {
        RequestError::Structure { msg } => assert_eq!(msg, "request must be a JSON/YAML object"),
        other => panic!("unexpected: {}", other.to_display_string()),
    }
}

#[test]
fn request_headers_override_config_and_rules() {
    let config = config_of(
        r#"{"h": {"X-A": "config", "X-B": "config"}, "rules": [{"match": {"m": "get"}, "h": {"X-B": "rule", "X-C": "rule"}}]}"#,
    );
    let result = expand(r#"{"g": "https://x.io", "h": {"X-C": "request"}}"#, &config).unwrap();
    assert_eq!(result, "{get: https://x.io, h: {X-A: config, X-B: rule, X-C: request}}");
    let result = expand(r#"{"p": "https://x.io"}"#, &config).unwrap();
    assert_eq!(result, "{post: https://x.io, h: {X-A: config, X-B: config}}");
}

#[test]
fn rule_md_condition() {
    let config = config_of(r#"{"rules": [{"match": {"md.env": "prod"}, "h": {"X-Env": "p"}}]}"#);
    let hit = expand(r#"{"g": "https://x.io", "md": {"env": "prod"}}"#, &config).unwrap();
    assert!(hit.contains("X-Env: p"), "{hit}");
    let miss = expand(r#"{"g": "https://x.io", "md": {"env": "dev"}}"#, &config).unwrap();
    assert!(!miss.contains("X-Env"), "{miss}");
}

#[test]
fn single_star_does_not_cross_slash() {
    let config = config_of(r#"{"rules": [{"match": {"u": "https://x.io/*"}, "h": {"X-S": "1"}}]}"#);
    assert!(expand(r#"{"g": "https://x.io/a"}"#, &config).unwrap().contains("X-S"));
    assert!(!expand(r#"{"g": "https://x.io/a/b"}"#, &config).unwrap().contains("X-S"));
}

#[test]
fn resolve_method_shortcuts() {
    assert_eq!(resolve_method("g"), Some("GET"));
    assert_eq!(resolve_method("GET"), Some("GET"));
    assert_eq!(resolve_method("Post"), Some("POST"));
    assert_eq!(resolve_method("d"), Some("DELETE"));
    assert_eq!(resolve_method("options"), Some("OPTIONS"));
    assert_eq!(resolve_method("fetch"), None);
}

#[test]
fn preview_wire_block_text() {
    let config = Config::empty();
    let json = parse_input(r#"{"p": "https://x.io", "b": {"a": [1, "two"], "n": null}}"#).unwrap();
    let text = preview_request_wire(&json, &config, &no_env()).unwrap();
    assert_eq!(text, "\npost: https://x.io\nb:\n  a:\n    - 1\n    - two\n  n: null\n");
}

#[test]
fn block_yaml_multiline_and_quoting() {
    let v = Json::Object(vec![
        ("text".to_string(), Json::Str("l1\r\nl2\n".to_string())),
        ("yes".to_string(), Json::Str("it's: x".to_string())),
        ("e".to_string(), Json::Array(vec![])),
    ]);
    assert_eq!(to_yaml_block(&v, 0), "\ntext: |\n    l1\n    l2\n'yes': 'it''s: x'\ne:[]\n");
}

#[test]
fn preview_curl_text() {
    let config = Config::empty();
    let json = parse_input(r#"{"p": "https://x.io", "h": {"X-N": 5}, "b": {"k": "v"}}"#).unwrap();
    let text = preview_request_curl(&json, &config, &no_env()).unwrap();
    assert_eq!(text, "curl -X POST 'https://x.io' \\\n  -H 'X-N: 5' \\\n  -d '{\"k\":\"v\"}'");
}

#[test]
fn flow_text_escapes_and_numbers() {
    let v = Json::Array(vec![
        Json::Number(JsonNumber::NegInt(-3)),
        Json::Str("a,b".to_string()),
        Json::Bool(false),
        Json::Null,
    ]);
    assert_eq!(to_yaml_flow(&v), "[-3, \"a,b\", false, null]");
}

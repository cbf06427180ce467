use yurl::config::{config_ok, rule_ok, parse_rule, rule_matches, expand_api_url, is_output_key, parse_qarray_value, Config, Progress, QueryArrayConfig};
use yurl::env::Env;
use yurl::json::Json;
use yurl::json::JsonNumber;
use yurl::request::parse_input;

fn env_with(pairs: &[(&str, Option<&str>)]) -> Env {
    Env { vars: pairs.iter().map(|(k, v)| (k.to_string(), v.map(|s| s.to_string()))).collect() }
}

fn conv(v: &serde_json::Value) -> Json {
    match v {
        serde_json::Value::Null => Json::Null,
        serde_json::Value::Bool(b) => Json::Bool(*b),
        serde_json::Value::Number(n) => match (n.as_u64(), n.as_i64()) {
            (Some(u), _) => Json::Number(JsonNumber::PosInt(u)),
            (None, Some(i)) => Json::Number(JsonNumber::NegInt(i)),
            _ => Json::Number(JsonNumber::Float(n.to_string())),
        },
        serde_json::Value::String(s) => Json::Str(s.clone()),
        serde_json::Value::Array(a) => Json::Array(a.iter().map(conv).collect()),
        serde_json::Value::Object(o) => Json::Object(o.iter().map(|(k, v)| (k.clone(), conv(v))).collect()),
    }
}

/// A configuration document as read from the command line: no shortcut expansion yet.
fn document(text: &str) -> Json {
    conv(&yttp::from_str(text).unwrap())
}

fn header(c: &Config, k: &str) -> Option<String> {
    c.default_headers.iter().find(|(n, _)| n == k).map(|(_, v)| match v {
        Json::Str(s) => s.clone(),
        _ => String::from("<non-string>"),
    })
}

#[test]
fn output_keys() {
    assert!(is_output_key("1"));
    assert!(is_output_key("2"));
    assert!(is_output_key("file://out.txt"));
    assert!(!is_output_key("3"));
    assert!(!is_output_key("file:/x"));
}

#[test]
fn api_url_aliases_and_schemes() {
    let apis = vec![("api".to_string(), "localhost:3000/".to_string()), ("gh".to_string(), "https://api.github.com".to_string())];
    assert_eq!(expand_api_url("api!/toys", &apis), "http://localhost:3000/toys");
    assert_eq!(expand_api_url("gh!/repos", &apis), "https://api.github.com/repos");
    assert_eq!(expand_api_url("nope!/x", &apis), "http://nope!/x");
    assert_eq!(expand_api_url("example.com/a", &apis), "https://example.com/a");
    assert_eq!(expand_api_url("127.0.0.1:8080/a", &apis), "http://127.0.0.1:8080/a");
    assert_eq!(expand_api_url("ftp://a.b", &apis), "ftp://a.b");
}

#[test]
fn env_var_in_config_header() {
    let json = parse_input(r#"{"h": {"X-Test": "$YURL_TEST_HEADER", "X-Plain": "$not-a-var"}}"#).unwrap();
    let c = Config::parse(&json, &env_with(&[("YURL_TEST_HEADER", Some("expanded-value"))])).unwrap();
    assert_eq!(header(&c, "X-Test").as_deref(), Some("expanded-value"));
    assert_eq!(header(&c, "X-Plain").as_deref(), Some("$not-a-var"));
}

#[test]
fn env_var_in_auth_array() {
    let json = document(r#"{"h": {"a!": ["user", "$YURL_TEST_PASS"]}}"#);
    let c = Config::parse(&json, &env_with(&[("YURL_TEST_PASS", Some("pass"))])).unwrap();
    assert_eq!(header(&c, "Authorization").as_deref(), Some("Basic dXNlcjpwYXNz"));
}

#[test]
fn env_var_unset_errors() {
    let json = parse_input(r#"{"h": {"X-Test": "$YURL_NONEXISTENT_VAR"}}"#).unwrap();
    let err = Config::parse(&json, &env_with(&[])).err().unwrap();
    assert_eq!(err, "undefined environment variable: $YURL_NONEXISTENT_VAR");
}

#[test]
fn env_var_not_unicode_errors() {
    let json = parse_input(r#"{"h": {"X-Test": "$BAD"}}"#).unwrap();
    let err = Config::parse(&json, &env_with(&[("BAD", None)])).err().unwrap();
    assert_eq!(err, "environment variable $BAD is not valid UTF-8");
}

#[test]
fn env_var_empty_string_allowed() {
    let json = parse_input(r#"{"h": {"X-Test": "$YURL_EMPTY_VAR"}}"#).unwrap();
    let c = Config::parse(&json, &env_with(&[("YURL_EMPTY_VAR", Some(""))])).unwrap();
    assert_eq!(header(&c, "X-Test").as_deref(), Some(""));
}

#[test]
fn config_fields_parsed() {
    let json = parse_input(
        r#"{"1": "j(b)", "file://x": "b", "3": "b", "concurrency": 0, "progress": 7, "qarray": [";", {"ids": "&", "n": 1}]}"#,
    )
    .unwrap();
    let c = Config::parse(&json, &env_with(&[])).unwrap();
    assert_eq!(c.default_outputs, vec![("1".to_string(), "j(b)".to_string()), ("file://x".to_string(), "b".to_string())]);
    assert_eq!(c.global_concurrency, 1);
    assert_eq!(c.progress, Progress::Known(7));
    assert_eq!(c.qarray.default, ";");
    assert_eq!(c.qarray.overrides, vec![("ids".to_string(), "&".to_string())]);
    assert_eq!(c.summary(), "output: 1, file://x");
}

#[test]
fn progress_true_and_absent() {
    let on = Config::parse(&parse_input(r#"{"progress": true}"#).unwrap(), &env_with(&[])).unwrap();
    assert_eq!(on.progress, Progress::On);
    let off = Config::parse(&parse_input(r#"{"progress": false}"#).unwrap(), &env_with(&[])).unwrap();
    assert_eq!(off.progress, Progress::Off);
}

#[test]
fn qarray_value_forms() {
    let s = parse_qarray_value(&Json::Str("[]".to_string()));
    assert_eq!(s.default, "[]");
    let other = parse_qarray_value(&Json::Bool(true));
    assert_eq!(other.default, ",");
    assert!(other.overrides.is_empty());
}

#[test]
fn qarray_join_strategies() {
    let vals = vec!["a b".to_string(), "c".to_string()];
    let mut q = QueryArrayConfig::new();
    assert_eq!(q.join("tags", &vals), vec!["tags=a+b,c".to_string()]);
    q.default = "&".to_string();
    assert_eq!(q.join("tags", &vals), vec!["tags=a+b".to_string(), "tags=c".to_string()]);
    q.default = "[]".to_string();
    assert_eq!(q.join("tags", &vals), vec!["tags[]=a+b".to_string(), "tags[]=c".to_string()]);
    q.default = ";".to_string();
    q.overrides = vec![("tags".to_string(), "&".to_string())];
    assert_eq!(q.join("tags", &vals), vec!["tags=a+b".to_string(), "tags=c".to_string()]);
    assert_eq!(q.join("other", &vals), vec!["other=a+b;c".to_string()]);
}

#[test]
fn rules_concurrency_and_cache() {
    let json = parse_input(
        r#"{"rules": [{"match": {"u": "**a.io**"}, "concurrency": 2}, {"match": {"m": "post"}, "cache": true}, {"cache": {"ttl": 5}}]}"#,
    )
    .unwrap();
    let env = env_with(&[("HOME", Some("/h"))]);
    let c = Config::parse(&json, &env).unwrap();
    assert_eq!(c.matching_concurrency_rules("GET", "https://a.io/x", &None), vec![0]);
    assert_eq!(c.matching_concurrency_rules("GET", "https://b.io/x", &None), Vec::<usize>::new());
    let post = c.resolve_cache("POST", "https://b.io", &None).unwrap();
    assert_eq!(post.ttl, 0);
    assert_eq!(post.at, "/h/.cache/yurl");
    let get = c.resolve_cache("GET", "https://b.io", &None).unwrap();
    assert_eq!(get.ttl, 5);
}

#[test]
fn rule_needs_every_criterion() {
    let env = Env { vars: Vec::new() };
    let rule = parse_rule(&parse_input("{match: {u: '**/toys', m: post}, h: {X-A: '1'}}").unwrap(), &env).unwrap();
    assert!(rule_matches(&rule, "POST", "https://a.io/toys", &None));
    assert!(!rule_matches(&rule, "GET", "https://a.io/toys", &None));
    assert!(!rule_matches(&rule, "POST", "https://a.io/cats", &None));
}

#[test]
fn config_shapes_checked() {
    let ok = parse_input("{api: http://a, rules: [{match: {m: GET}, cache: {keys: [m, u, h.x-a]}}]}").unwrap();
    assert!(config_ok(&ok));
    let bad_key = parse_input("{rules: [{cache: {keys: [m, zz]}}]}").unwrap();
    assert!(!config_ok(&bad_key));
    let bad_rule = parse_input("{rules: [5]}").unwrap();
    assert!(!config_ok(&bad_rule));
    assert!(!config_ok(&Json::Str("x".to_string())));
    assert!(rule_ok(&parse_input("{cache: true}").unwrap()));
    assert!(!rule_ok(&Json::Null));
}

#[test]
fn api_url_expansion_is_idempotent() {
    let apis = vec![("api".to_string(), "localhost:3000/".to_string()), ("gh".to_string(), "https://api.github.com".to_string())];
    for u in ["api!/toys", "gh!/repos", "example.com/a", "127.0.0.1:8080/a", "ftp://a.b", "localhost"] {
        let once = expand_api_url(u, &apis);
        assert!(once.contains("://"));
        assert_eq!(expand_api_url(&once, &apis), once);
    }
}

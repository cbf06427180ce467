use yurl::json::Json;
use yurl::shortcut::{expand_headers, expand_key, expand_value, extract_shortcut_headers};

fn s(x: &str) -> Json {
    Json::Str(x.to_string())
}

fn text(j: &Json) -> &str {
    match j {
        Json::Str(x) => x.as_str(),
        _ => panic!("not a string"),
    }
}

#[test]
fn value_shortcuts() {
    assert_eq!(expand_value("basic!user:pass"), "Basic dXNlcjpwYXNz");
    assert_eq!(expand_value("bearer!tok"), "Bearer tok");
    assert_eq!(expand_value("j!"), "application/json");
    assert_eq!(expand_value("form!"), "application/x-www-form-urlencoded");
    assert_eq!(expand_value("m!"), "multipart/form-data");
    assert_eq!(expand_value("h!"), "text/html");
    assert_eq!(expand_value("t!"), "text/plain");
    assert_eq!(expand_value("x!"), "application/xml");
    assert_eq!(expand_value("a!/pdf"), "application/pdf");
    assert_eq!(expand_value("t!/csv"), "text/csv");
    assert_eq!(expand_value("i!/png"), "image/png");
    assert_eq!(expand_value("plain"), "plain");
}

#[test]
fn key_shortcuts() {
    assert_eq!(expand_key("a!"), Some("Authorization"));
    assert_eq!(expand_key("auth!"), Some("Authorization"));
    assert_eq!(expand_key("c!"), Some("Content-Type"));
    assert_eq!(expand_key("ct!"), Some("Content-Type"));
    assert_eq!(expand_key("Accept"), None);
}

#[test]
fn headers_renamed_and_expanded() {
    let mut h = vec![("c!".to_string(), s("j!")), ("Accept".to_string(), s("t!/csv")), ("a!".to_string(), s("bearer!x"))];
    expand_headers(&mut h);
    let names: Vec<&str> = h.iter().map(|(k, _)| k.as_str()).collect();
    // removing a key moves the last entry into its place, as an insertion-ordered map does
    assert_eq!(names, vec!["Content-Type", "Accept", "Authorization"]);
    assert_eq!(text(&h[0].1), "application/json");
    assert_eq!(text(&h[1].1), "text/csv");
    assert_eq!(text(&h[2].1), "Bearer x");
}

#[test]
fn extract_shortcut_keys() {
    let o = vec![("g".to_string(), s("u")), ("ct!".to_string(), s("f!")), ("a!".to_string(), Json::Bool(true))];
    let h = extract_shortcut_headers(&o);
    assert_eq!(h.len(), 1);
    assert_eq!(h[0].0, "Content-Type");
    assert_eq!(text(&h[0].1), "application/x-www-form-urlencoded");
}

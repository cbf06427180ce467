use yurl::atom::{RequestData, ResponseData, StatusParts, UrlParts};
use yurl::json::Json;
use yurl::template::{expand_path, expand_path_checked, resolve_var};

fn data() -> (ResponseData, RequestData) {
    let resp = ResponseData {
        status_line: "HTTP/1.1 200 OK".to_string(),
        status_parts: StatusParts { code: "200".to_string(), text: "OK".to_string(), version: "HTTP/1.1".to_string() },
        headers_raw: "a: b\r\n".to_string(),
        headers_json: Vec::new(),
        body_bytes: b"hi".to_vec(),
    };
    let req = RequestData {
        method: "GET".to_string(),
        url: "https://x.io/p".to_string(),
        url_parts: UrlParts {
            scheme: "https".to_string(),
            host: "x.io".to_string(),
            port: String::new(),
            path: "p".to_string(),
            query: String::new(),
            fragment: String::new(),
        },
        headers_raw: String::new(),
        headers_json: Vec::new(),
        body_json: None,
        idx: 7,
        md: Some(Json::Object(vec![("env".to_string(), Json::Str("prod".to_string())), ("n".to_string(), Json::Bool(true))])),
    };
    (resp, req)
}

#[test]
fn template_variables() {
    let (resp, req) = data();
    assert_eq!(expand_path("{{m}}.txt", &resp, &req), "GET.txt");
    assert_eq!(expand_path("out/{{ u.host }}/{{idx}}.json", &resp, &req), "out/x.io/7.json");
    assert_eq!(expand_path("{{md.env}}-{{md.n}}-{{md.none}}", &resp, &req), "prod-true-");
    assert_eq!(expand_path("{{s.code}}{{b}}", &resp, &req), "200aGk=");
    assert_eq!(expand_path("plain", &resp, &req), "plain");
}

#[test]
fn template_errors() {
    let (resp, req) = data();
    assert!(expand_path_checked("{{m", &resp, &req).is_none());
    assert!(expand_path_checked("{{nope}}", &resp, &req).is_none());
    assert_eq!(resolve_var("nope", &resp, &req), None);
    assert_eq!(resolve_var("md", &resp, &req).unwrap(), "{\"env\":\"prod\",\"n\":true}");
}

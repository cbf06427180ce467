use yurl::atom::{build_value_map, can_render, parse_format, render_color, Atom, Format, RequestData, UrlParts};
use yurl::json::{depth_below, to_json_text};
use yurl::cache::{expand_tilde, expires_at, is_expired};
use yurl::help::help_row;
use yurl::json::{Json, JsonNumber};
use yurl::request::Dest;
use yurl::response::{cache_step, cached_response, has_stream, live_response, needs_body_buffer, CacheStep, StoredResponse};

#[test]
fn live_response_status_and_headers() {
    let h = vec![
        ("content-type".to_string(), "text/plain".to_string()),
        ("set-cookie".to_string(), "a=1".to_string()),
        ("set-cookie".to_string(), "b=2".to_string()),
    ];
    let r = live_response("HTTP/1.1", 200, Some("OK"), &h, b"hi".to_vec());
    assert_eq!(r.status_line, "HTTP/1.1 200 OK");
    assert_eq!(r.status_parts.code, "200");
    assert_eq!(r.status_parts.text, "OK");
    assert_eq!(r.status_parts.version, "HTTP/1.1");
    assert_eq!(
        r.headers_raw,
        "content-type: text/plain\r\nset-cookie: a=1\r\nset-cookie: b=2\r\n"
    );
    assert_eq!(r.headers_json.len(), 2);
    assert_eq!(r.headers_json[1].0, "set-cookie");
    assert!(matches!(&r.headers_json[1].1, Json::Str(s) if s == "b=2"));
    assert_eq!(r.body_bytes, b"hi".to_vec());
}

#[test]
fn live_response_unknown_reason() {
    let r = live_response("HTTP/2.0", 599, None, &Vec::new(), Vec::new());
    assert_eq!(r.status_line, "HTTP/2.0 599 <unknown status code>");
    assert_eq!(r.status_parts.text, "");
}

#[test]
fn cached_response_status_line() {
    let h = vec![
        ("x-a".to_string(), Json::Str("1".to_string())),
        ("x-b".to_string(), Json::Bool(true)),
    ];
    let r = cached_response(404, h, b"nope".to_vec());
    assert_eq!(r.status_line, "HTTP/1.1 404");
    assert_eq!(r.status_parts.code, "404");
    assert_eq!(r.status_parts.text, "");
    assert_eq!(r.headers_raw, "x-a: 1\r\nx-b: \r\n");
}

#[test]
fn stream_decisions() {
    let outs = vec![
        (Dest::FileStream("o.bin".to_string()), Format::Raw(Atom::B)),
        (Dest::Stdout, Format::Raw(Atom::S)),
    ];
    assert!(has_stream(&outs));
    assert!(needs_body_buffer(&outs, false));
    let only = vec![(Dest::StdoutStream, Format::Raw(Atom::B))];
    assert!(has_stream(&only));
    assert!(!needs_body_buffer(&only, false));
    assert!(needs_body_buffer(&only, true));
    let none = vec![(Dest::Stdout, Format::Raw(Atom::B))];
    assert!(!has_stream(&none));
}

#[test]
fn cache_expiry() {
    assert_eq!(expires_at(100, 0), 0);
    assert_eq!(expires_at(100, 60), 160);
    assert!(!is_expired(0, 1_000));
    assert!(is_expired(160, 161));
    assert!(!is_expired(160, 160));
}

#[test]
fn tilde_paths() {
    assert_eq!(expand_tilde("~/.cache/yurl", Some("/home/u")), "/home/u/.cache/yurl");
    assert_eq!(expand_tilde("~/x", None), "~/x");
    assert_eq!(expand_tilde("/tmp/~/x", Some("/home/u")), "/tmp/~/x");
}

#[test]
fn help_rows_align() {
    assert_eq!(help_row(".c", 2, "show current config"), format!("  .c{}show current config", " ".repeat(18)));
    assert_eq!(help_row("x".repeat(25).as_str(), 25, "d"), format!("  {} d", "x".repeat(25)));
}

fn request() -> RequestData {
    RequestData {
        method: "GET".to_string(),
        url: "http://h/x".to_string(),
        url_parts: UrlParts {
            scheme: "http".to_string(),
            host: "h".to_string(),
            port: String::new(),
            path: "x".to_string(),
            query: String::new(),
            fragment: String::new(),
        },
        headers_raw: String::new(),
        headers_json: Vec::new(),
        body_json: None,
        idx: 0,
        md: None,
    }
}

#[test]
fn renderable_checks() {
    let req = request();
    let ok = live_response("HTTP/1.1", 200, Some("OK"), &Vec::new(), b"{}".to_vec());
    assert!(can_render(&Format::Json(vec![Atom::SInline, Atom::H, Atom::B]), &ok, &req));
    assert!(can_render(&Format::Raw(Atom::B), &ok, &req));
    let mut bad = live_response("HTTP/1.1", 200, Some("OK"), &Vec::new(), b"raw".to_vec());
    bad.status_parts.code = "x".to_string();
    assert!(can_render(&Format::Raw(Atom::B), &bad, &req));
    assert_eq!(render_color(&Format::Raw(Atom::B), &bad, &req, true), b"raw".to_vec());
    assert_eq!(render_color(&Format::Raw(Atom::S), &bad, &req, true), b"HTTP/1.1 200 OK".to_vec());
    assert!(can_render(&Format::Json(vec![Atom::B, Atom::H]), &bad, &req));
    assert!(!can_render(&Format::Json(vec![Atom::SCode]), &bad, &req));
    assert!(!can_render(&Format::Yaml(vec![Atom::SInline]), &bad, &req));
}

#[test]
fn metadata_map_needs_no_status_code() {
    let mut req = request();
    req.md = Some(Json::Object(vec![
        ("id".to_string(), Json::Number(JsonNumber::PosInt(42))),
        ("tag".to_string(), Json::Str("test".to_string())),
    ]));
    let mut resp = live_response("HTTP/1.1", 200, Some("OK"), &Vec::new(), Vec::new());
    resp.status_parts.code = "n/a".to_string();
    let m = build_value_map(&vec![Atom::MdField("id".to_string())], &resp, &req);
    match m {
        Json::Object(o) => {
            assert_eq!(o.len(), 1);
            assert_eq!(o[0].0, "md");
            assert!(matches!(&o[0].1, Json::Object(f) if f.len() == 1 && f[0].0 == "id"
                && matches!(f[0].1, Json::Number(JsonNumber::PosInt(42)))));
        }
        _ => panic!("expected an object"),
    }
}

#[test]
fn body_atom_encodes_json_text_or_base64() {
    let req = request();
    let body_of = |bytes: &[u8]| {
        let resp = live_response("HTTP/1.1", 200, Some("OK"), &Vec::new(), bytes.to_vec());
        match build_value_map(&vec![Atom::B], &resp, &req) {
            Json::Object(mut o) => o.remove(0).1,
            _ => panic!("expected an object"),
        }
    };
    assert!(matches!(body_of(b"{\"a\": 1}"), Json::Object(o) if o.len() == 1 && o[0].0 == "a"));
    assert!(matches!(body_of(b"plain text"), Json::Str(s) if s == "plain text"));
    assert!(matches!(body_of(&[0xff, 0xfe]), Json::Str(s) if s == "//4="));
}

#[test]
fn nesting_depth_bound() {
    let nested = Json::Array(vec![Json::Object(vec![("a".to_string(), Json::Null)])]);
    assert!(depth_below(&nested, 3));
    assert!(!depth_below(&nested, 2));
    assert!(depth_below(&Json::Null, 1));
    assert!(!depth_below(&Json::Array(Vec::new()), 1));
}

#[test]
fn format_errors_name_the_problem() {
    assert_eq!(parse_format("j(b zz)").err(), Some("unknown atom: zz".to_string()));
    assert_eq!(parse_format(" j(b").err(), Some("unclosed format: j(b (missing closing parenthesis)".to_string()));
    assert_eq!(parse_format("zz").err(), Some("unknown format: zz".to_string()));
    assert!(matches!(parse_format("y(s h)"), Ok(Format::Yaml(_))));
}

#[test]
fn json_text_escapes_strings() {
    let v = Json::Str("a\"\n\u{1}".to_string());
    assert_eq!(to_json_text(&v), "\"a\\\"\\n\\u0001\"");
}

#[test]
fn cache_hit_answers_without_sending() {
    let hit = StoredResponse { status: 200, headers: vec![("a".to_string(), Json::Str("1".to_string()))], body: b"ok".to_vec() };
    match cache_step(Some(hit)) {
        CacheStep::Answer(resp) => {
            assert_eq!(resp.status_line, "HTTP/1.1 200");
            assert_eq!(resp.body_bytes, b"ok".to_vec());
            assert_eq!(resp.headers_raw, "a: 1\r\n");
        }
        CacheStep::Send => panic!("expected an answer"),
    }
    assert!(matches!(cache_step(None), CacheStep::Send));
}

use yurl::atom::{Atom, Format};
use yurl::config::Config;
use yurl::env::Env;
use yurl::error::RequestError;
use yurl::json::Json;
use yurl::plan::{plan_outputs, plan_request, BodyPlan, Part, Plan};
use yurl::request::{parse_input, Dest};

fn no_env() -> Env {
    Env { vars: Vec::new() }
}

fn config_of(text: &str) -> Config {
    Config::parse(&parse_input(text).unwrap(), &no_env()).unwrap()
}

fn plan(line: &str, config: &Config) -> Result<Plan, RequestError> {
    let json = parse_input(line).unwrap();
    plan_request(&json, config, &no_env(), true, false)
}

fn pair(a: &str, b: &str) -> (String, String) {
    (a.to_string(), b.to_string())
}

#[test]
fn default_output_per_mode() {
    let y = plan_outputs(&Vec::new(), &Vec::new(), true, true).unwrap();
    assert_eq!(y.len(), 1);
    assert!(matches!(y[0].0, Dest::Stdout));
    assert!(matches!(&y[0].1, Format::Yaml(a) if a.len() == 3
        && matches!(a[0], Atom::SInline) && matches!(a[1], Atom::H) && matches!(a[2], Atom::B)));
    let j = plan_outputs(&Vec::new(), &Vec::new(), false, true).unwrap();
    assert!(matches!(&j[0].1, Format::Json(a) if a.len() == 3));
}

#[test]
fn request_outputs_replace_config_outputs() {
    let own = vec![pair("2", "s")];
    let defaults = vec![pair("1", "b"), pair("file://out.txt", "h")];
    let r = plan_outputs(&own, &defaults, true, true).unwrap();
    assert_eq!(r.len(), 1);
    assert!(matches!(r[0].0, Dest::Stderr));
    let d = plan_outputs(&Vec::new(), &defaults, true, true).unwrap();
    assert_eq!(d.len(), 2);
}

#[test]
fn raw_body_streams_when_sequential() {
    let own = vec![pair("1", "b"), pair("file://o.bin", "b"), pair("2", "h")];
    let r = plan_outputs(&own, &Vec::new(), true, false).unwrap();
    assert!(matches!(r[0].0, Dest::StdoutStream));
    assert!(matches!(&r[1].0, Dest::FileStream(p) if p == "o.bin"));
    assert!(matches!(r[2].0, Dest::Stderr));
    let c = plan_outputs(&own, &Vec::new(), true, true).unwrap();
    assert!(matches!(c[0].0, Dest::Stdout));
    assert!(matches!(&c[1].0, Dest::FilePath(p) if p == "o.bin"));
}

#[test]
fn bad_output_format_is_an_error() {
    let own = vec![pair("1", "j(zz)")];
    assert!(plan_outputs(&own, &Vec::new(), true, false).is_err());
}

#[test]
fn plan_json_body_and_headers() {
    let c = config_of("{api: https://api.example.com, h: {X-A: '1'}}");
    let p = plan("{p: api!/toys, h: {X-B: '2'}, b: {name: Fox}}", &c).unwrap();
    assert_eq!(p.method, "POST");
    assert_eq!(p.url, "https://api.example.com/toys");
    assert_eq!(p.sent_headers, vec![pair("X-A", "1"), pair("X-B", "2")]);
    assert_eq!(p.headers_raw, "X-A: 1\r\nX-B: 2\r\n");
    assert!(matches!(&p.body_plan, BodyPlan::Json(Json::Object(o)) if o.len() == 1));
    assert_eq!(p.url_parts.host, "api.example.com");
    assert_eq!(p.url_parts.path, "toys");
}

#[test]
fn plan_form_body() {
    let c = Config::empty();
    let p = plan("{p: http://h/x, h: {ct!: f!}, b: {a: '1', n: 2}}", &c).unwrap();
    assert!(matches!(&p.body_plan, BodyPlan::Form(f) if *f == vec![pair("a", "1"), pair("n", "2")]));
}

#[test]
fn plan_multipart_drops_content_type() {
    let c = Config::empty();
    let p = plan("{p: http://h/x, h: {ct!: m!}, b: {f: 'file:///tmp/a.txt', t: hi}}", &c).unwrap();
    assert!(p.sent_headers.is_empty());
    match &p.body_plan {
        BodyPlan::Multipart(parts) => {
            assert_eq!(parts.len(), 2);
            assert!(matches!(&parts[0], Part::File(n, path) if n == "f" && path == "/tmp/a.txt"));
            assert!(matches!(&parts[1], Part::Text(n, v) if n == "t" && v == "hi"));
        }
        _ => panic!("expected multipart"),
    }
}

#[test]
fn plan_without_method_is_an_error() {
    let c = Config::empty();
    let e = match plan("{h: {a: b}}", &c) {
        Err(e) => e,
        Ok(_) => panic!("expected an error"),
    };
    assert!(matches!(e, RequestError::Structure { ref msg } if msg.contains("no HTTP method")));
}

#[test]
fn plan_unknown_key_is_an_error() {
    let c = Config::empty();
    let e = match plan("{g: http://h/x, zz: 1}", &c) {
        Err(e) => e,
        Ok(_) => panic!("expected an error"),
    };
    assert!(matches!(e, RequestError::Structure { ref msg } if msg == "unknown key: zz"));
}

#[test]
fn plan_splits_the_url() {
    let c = Config::empty();
    let json = parse_input("{g: localhost:3000/x}").unwrap();
    let p = plan_request(&json, &c, &no_env(), false, false).unwrap();
    assert_eq!(p.url, "http://localhost:3000/x");
    assert_eq!(p.url_parts.port, "3000");
}

#[test]
fn config_copy_keeps_everything() {
    let c = config_of("{api: https://a.example, h: {X-A: '1'}, concurrency: 3, rules: [{match: {m: GET}, concurrency: 1}]}");
    let d = c.copy();
    assert_eq!(d.summary(), c.summary());
    assert_eq!(d.global_concurrency, 3);
    assert_eq!(d.rules.len(), 1);
}

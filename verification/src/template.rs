//! `{{var}}` placeholders in output file paths.
use vstd::prelude::*;
use crate::atom::{RequestData, ResponseData, md_field_text, md_text, md_field_to_string, md_to_string, opt_json_view};
use crate::json::{json_text, to_json_text};
use crate::text::{
    chars_of, decimal, find_chars, first_occurrence, is_prefix, owned, push_str, str_eq, starts_with,
    string_from_range, trim, trim_chars, usize_to_decimal, string_from_chars,
};
use crate::trusted::{base64_encode, base64_standard};

verus! {

/// The text a template variable stands for: the response body in base64, response
/// headers and status parts, request method, URL and its parts, request headers and
/// body, the request index, the metadata or one of its fields.
pub open spec fn var_text(key: Seq<char>, resp: &ResponseData, req: &RequestData) -> Option<Seq<char>> {
    if key == "b"@ {
        Some(base64_standard(resp.body_bytes@))
    } else if key == "h"@ {
        Some(resp.headers_raw@)
    } else if key == "s"@ {
        Some(resp.status_line@)
    } else if key == "s.code"@ {
        Some(resp.status_parts.code@)
    } else if key == "s.text"@ {
        Some(resp.status_parts.text@)
    } else if key == "s.version"@ {
        Some(resp.status_parts.version@)
    } else if key == "m"@ {
        Some(req.method@)
    } else if key == "u"@ {
        Some(req.url@)
    } else if key == "ah"@ {
        Some(req.headers_raw@)
    } else if key == "ab"@ {
        Some(match req.body_json {
            Some(v) => json_text(v@),
            None => Seq::empty(),
        })
    } else if key == "u.scheme"@ {
        Some(req.url_parts.scheme@)
    } else if key == "u.host"@ {
        Some(req.url_parts.host@)
    } else if key == "u.port"@ {
        Some(req.url_parts.port@)
    } else if key == "u.path"@ {
        Some(req.url_parts.path@)
    } else if key == "u.query"@ {
        Some(req.url_parts.query@)
    } else if key == "u.fragment"@ {
        Some(req.url_parts.fragment@)
    } else if key == "idx"@ {
        Some(decimal(req.idx as nat))
    } else if key == "md"@ {
        Some(md_text(opt_json_view(req.md)))
    } else if is_prefix("md."@, key) {
        Some(md_field_text(opt_json_view(req.md), key.skip(3)))
    } else {
        None
    }
}

/// A template with each `{{ var }}` replaced by its text; `None` for an unclosed
/// `{{` or an unknown variable.
#[verifier::opaque]
pub open spec fn expanded_template(t: Seq<char>, resp: &ResponseData, req: &RequestData) -> Option<Seq<char>>
    decreases t.len(),
{
    match first_occurrence(t, "{{"@) {
        None => Some(t),
        Some(s) => {
            let after = t.subrange(s + 2, t.len() as int);
            match first_occurrence(after, "}}"@) {
                None => None,
                Some(e) => match var_text(trim(after.take(e)), resp, req) {
                    None => None,
                    Some(v) => if 0 <= s && s + 2 <= t.len() && 0 <= e && e + 2 <= after.len() {
                        match expanded_template(after.subrange(e + 2, after.len() as int), resp, req) {
                            Some(r) => Some(t.take(s) + v + r),
                            None => None,
                        }
                    } else {
                        None
                    },
                },
            }
        },
    }
}

/// The text of a template variable; `None` for an unknown one.
pub fn resolve_var(key: &str, resp: &ResponseData, req: &RequestData) -> (r: Option<String>)
    requires
        resp.body_bytes@.len() <= usize::MAX / 2,
    ensures
        match r {
            Some(s) => var_text(key@, resp, req) == Some(s@),
            None => var_text(key@, resp, req) is None,
        },
{
    proof {
        reveal_strlit("b");
        reveal_strlit("h");
        reveal_strlit("s");
        reveal_strlit("s.code");
        reveal_strlit("s.text");
        reveal_strlit("s.version");
        reveal_strlit("m");
        reveal_strlit("u");
        reveal_strlit("ah");
        reveal_strlit("ab");
        reveal_strlit("u.scheme");
        reveal_strlit("u.host");
        reveal_strlit("u.port");
        reveal_strlit("u.path");
        reveal_strlit("u.query");
        reveal_strlit("u.fragment");
        reveal_strlit("idx");
        reveal_strlit("md");
        reveal_strlit("md.");
    }
    if str_eq(key, "b") {
        Some(base64_encode(resp.body_bytes.as_slice()))
    } else if str_eq(key, "h") {
        Some(resp.headers_raw.clone())
    } else if str_eq(key, "s") {
        Some(resp.status_line.clone())
    } else if str_eq(key, "s.code") {
        Some(resp.status_parts.code.clone())
    } else if str_eq(key, "s.text") {
        Some(resp.status_parts.text.clone())
    } else if str_eq(key, "s.version") {
        Some(resp.status_parts.version.clone())
    } else if str_eq(key, "m") {
        Some(req.method.clone())
    } else if str_eq(key, "u") {
        Some(req.url.clone())
    } else if str_eq(key, "ah") {
        Some(req.headers_raw.clone())
    } else if str_eq(key, "ab") {
        Some(match &req.body_json {
            Some(v) => to_json_text(v),
            None => String::new(),
        })
    } else if str_eq(key, "u.scheme") {
        Some(req.url_parts.scheme.clone())
    } else if str_eq(key, "u.host") {
        Some(req.url_parts.host.clone())
    } else if str_eq(key, "u.port") {
        Some(req.url_parts.port.clone())
    } else if str_eq(key, "u.path") {
        Some(req.url_parts.path.clone())
    } else if str_eq(key, "u.query") {
        Some(req.url_parts.query.clone())
    } else if str_eq(key, "u.fragment") {
        Some(req.url_parts.fragment.clone())
    } else if str_eq(key, "idx") {
        Some(usize_to_decimal(req.idx))
    } else if str_eq(key, "md") {
        Some(md_to_string(&req.md))
    } else if starts_with(key, "md.") {
        let v = chars_of(key);
        let field = string_from_range(&v, 3, v.len());
        assert(field@ == key@.skip(3));
        Some(md_field_to_string(&req.md, field.as_str()))
    } else {
        None
    }
}

/// One step of expansion at `pos`: the rest has no placeholder, a bad placeholder, or a
/// first placeholder whose expansion with the text before it ends at a later position.
enum Step {
    Done,
    Fail,
    Piece(String, usize),
}

fn template_step(t: &Vec<char>, pos: usize, resp: &ResponseData, req: &RequestData) -> (r: Step)
    requires
        pos <= t@.len(),
        resp.body_bytes@.len() <= usize::MAX / 2,
    ensures
        match r {
            Step::Done => expanded_template(t@.subrange(pos as int, t@.len() as int), resp, req) == Some(
                t@.subrange(pos as int, t@.len() as int),
            ),
            Step::Fail => expanded_template(t@.subrange(pos as int, t@.len() as int), resp, req) is None,
            Step::Piece(p, n) => pos < n <= t@.len() && expanded_template(
                t@.subrange(pos as int, t@.len() as int),
                resp,
                req,
            ) == match expanded_template(t@.subrange(n as int, t@.len() as int), resp, req) {
                Some(x) => Some(p@ + x),
                None => None::<Seq<char>>,
            },
        },
{
    let open = chars_of("{{");
    let close = chars_of("}}");
    proof {
        reveal_strlit("{{");
        reveal_strlit("}}");
        reveal(expanded_template);
    }
    let rest = string_from_range(t, pos, t.len());
    let rv = chars_of(rest.as_str());
    match find_chars(&rv, &open) {
        None => Step::Done,
        Some(s) => {
            let after = string_from_range(&rv, s + 2, rv.len());
            let av = chars_of(after.as_str());
            match find_chars(&av, &close) {
                None => Step::Fail,
                Some(e) => {
                    let raw = string_from_range(&av, 0, e);
                    let keyv = trim_chars(&chars_of(raw.as_str()));
                    let key = string_from_chars(&keyv);
                    assert(raw@ == av@.take(e as int));
                    match resolve_var(key.as_str(), resp, req) {
                        None => Step::Fail,
                        Some(v) => {
                            let mut piece = string_from_range(&rv, 0, s);
                            push_str(&mut piece, v.as_str());
                            proof {
                                assert(rv@.take(s as int) == rv@.subrange(0, s as int));
                                assert(av@.subrange(e + 2, av@.len() as int) =~= t@.subrange(
                                    pos + s + 4 + e,
                                    t@.len() as int,
                                ));
                            }
                            Step::Piece(piece, pos + s + 4 + e)
                        },
                    }
                },
            }
        },
    }
}

/// Expand `{{var}}` placeholders; `None` where the template has an unclosed `{{` or an
/// unknown variable.
pub fn expand_path_checked(template: &str, resp: &ResponseData, req: &RequestData) -> (r: Option<String>)
    requires
        resp.body_bytes@.len() <= usize::MAX / 2,
    ensures
        match r {
            Some(s) => expanded_template(template@, resp, req) == Some(s@),
            None => expanded_template(template@, resp, req) is None,
        },
{
    let t = chars_of(template);
    let mut result = String::new();
    let mut pos: usize = 0;
    assert(t@.subrange(0, t@.len() as int) == t@);
    loop
        invariant
            pos <= t@.len(),
            t@ == template@,
            resp.body_bytes@.len() <= usize::MAX / 2,
            expanded_template(template@, resp, req) == match expanded_template(
                t@.subrange(pos as int, t@.len() as int),
                resp,
                req,
            ) {
                Some(x) => Some(result@ + x),
                None => None::<Seq<char>>,
            },
        decreases t@.len() - pos,
    {
        match template_step(&t, pos, resp, req) {
            Step::Done => {
                let rest = string_from_range(&t, pos, t.len());
                push_str(&mut result, rest.as_str());
                return Some(result);
            },
            Step::Fail => {
                return None;
            },
            Step::Piece(p, n) => {
                let ghost before = result@;
                push_str(&mut result, p.as_str());
                proof {
                    match expanded_template(t@.subrange(n as int, t@.len() as int), resp, req) {
                        Some(x) => {
                            assert(before + (p@ + x) =~= result@ + x);
                        },
                        None => {},
                    }
                }
                pos = n;
            },
        }
    }
}

/// Expand `{{var}}` placeholders in a string.
pub fn expand_path(template: &str, resp: &ResponseData, req: &RequestData) -> (r: String)
    requires
        resp.body_bytes@.len() <= usize::MAX / 2,
        expanded_template(template@, resp, req) is Some,
    ensures
        expanded_template(template@, resp, req) == Some(r@),
{
    match expand_path_checked(template, resp, req) {
        Some(s) => s,
        None => String::new(),
    }
}

} // verus!

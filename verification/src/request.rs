//! Request documents: method keys, output destinations, resolution against the
//! configuration, and the YAML renderings of a resolved request.
use vstd::prelude::*;
use crate::atom::{Atom, AtomV, Format, FormatV, format_parsed, parse_format, format_result_view};
use crate::config::{
    Config, ConfigV, output_key, pairs_view, api_url, expand_api_url, is_output_key, opt_json_view,
    resolved_headers, joined, strings_view, join_strings,
};
use crate::env::Env;
use crate::error::{RequestError, RequestErrorV, parse_error_view};
use crate::json::{
    Json, JsonNumber, JsonV, NumV, ObjV, entries_view, lemma_entries_view, lemma_seq_view, num_text, seq_view,
    push_num_text, obj_put, obj_insert, copy_entries,
};
use crate::text::{chars_of, ends_with, find_chars, occurs_in, push_str, starts_with, str_eq, string_from_range, is_prefix, is_suffix};
use crate::trusted::{yttp_document, yttp_outcome, yttp_parse, lowercased, to_lower, append_query, split_query, url_with_query, url_split};
use crate::text::{owned, trim_start, trim_start_str, lines_of, split_lines};
use crate::yaml_util::{yaml_quoting_needed, sq_escape, needs_yaml_quoting, push_sq_escaped};
use crate::json::{json_depth, items_depth, members_depth, lemma_items_depth, lemma_members_depth, json_text, to_json_text, json_keys_unique};
use crate::config::{QueryArrayV, merged, merge_headers};
use crate::yaml_util::{flow_key, flow_scalar, yaml_flow_key, yaml_flow_scalar};

verus! {

/// The method a request key names: `get`/`g`, `post`/`p`, `put`, `delete`/`d`, `patch`,
/// `head`, `options`, `trace`, in any case.
pub open spec fn method_named(k: Seq<char>) -> Option<Seq<char>> {
    if k == "get"@ || k == "g"@ {
        Some("GET"@)
    } else if k == "post"@ || k == "p"@ {
        Some("POST"@)
    } else if k == "put"@ {
        Some("PUT"@)
    } else if k == "delete"@ || k == "d"@ {
        Some("DELETE"@)
    } else if k == "patch"@ {
        Some("PATCH"@)
    } else if k == "head"@ {
        Some("HEAD"@)
    } else if k == "options"@ {
        Some("OPTIONS"@)
    } else if k == "trace"@ {
        Some("TRACE"@)
    } else {
        None
    }
}

/// The HTTP method a request key names.
pub fn resolve_method(key: &str) -> (r: Option<&'static str>)
    ensures
        match r {
            Some(m) => method_named(lowercased(key@)) == Some(m@),
            None => method_named(lowercased(key@)) is None,
        },
{
    let l = to_lower(key);
    let k = l.as_str();
    proof {
        reveal_strlit("get");
        reveal_strlit("g");
        reveal_strlit("post");
        reveal_strlit("p");
        reveal_strlit("put");
        reveal_strlit("delete");
        reveal_strlit("d");
        reveal_strlit("patch");
        reveal_strlit("head");
        reveal_strlit("options");
        reveal_strlit("trace");
        reveal_strlit("GET");
        reveal_strlit("POST");
        reveal_strlit("PUT");
        reveal_strlit("DELETE");
        reveal_strlit("PATCH");
        reveal_strlit("HEAD");
        reveal_strlit("OPTIONS");
        reveal_strlit("TRACE");
    }
    if str_eq(k, "get") || str_eq(k, "g") {
        Some("GET")
    } else if str_eq(k, "post") || str_eq(k, "p") {
        Some("POST")
    } else if str_eq(k, "put") {
        Some("PUT")
    } else if str_eq(k, "delete") || str_eq(k, "d") {
        Some("DELETE")
    } else if str_eq(k, "patch") {
        Some("PATCH")
    } else if str_eq(k, "head") {
        Some("HEAD")
    } else if str_eq(k, "options") {
        Some("OPTIONS")
    } else if str_eq(k, "trace") {
        Some("TRACE")
    } else {
        None
    }
}

/// Where an output goes.
#[derive(Debug)]
pub enum Dest {
    Stdout,
    StdoutStream,
    Stderr,
    StderrStream,
    FilePath(String),
    FileStream(String),
}

/// The mathematical content of a `Dest`.
pub enum DestV {
    Stdout,
    StdoutStream,
    Stderr,
    StderrStream,
    FilePath(Seq<char>),
    FileStream(Seq<char>),
}

impl View for Dest {
    type V = DestV;

    open spec fn view(&self) -> DestV {
        match self {
            Dest::Stdout => DestV::Stdout,
            Dest::StdoutStream => DestV::StdoutStream,
            Dest::Stderr => DestV::Stderr,
            Dest::StderrStream => DestV::StderrStream,
            Dest::FilePath(p) => DestV::FilePath(p@),
            Dest::FileStream(p) => DestV::FileStream(p@),
        }
    }
}

/// The destination an output key names: `1`, `2`, or `file://<path>`, streamed when
/// the path ends in `?stream` (which is then removed).
pub open spec fn dest_named(k: Seq<char>) -> DestV {
    if k == "1"@ {
        DestV::Stdout
    } else if k == "2"@ {
        DestV::Stderr
    } else {
        let path = k.skip(7);
        if is_suffix("?stream"@, path) {
            DestV::FileStream(path.take(path.len() - 7))
        } else {
            DestV::FilePath(path)
        }
    }
}

/// The destination an output key names.
pub fn parse_dest(key: &str) -> (r: Dest)
    requires
        output_key(key@),
    ensures
        r@ == dest_named(key@),
{
    proof {
        reveal_strlit("1");
        reveal_strlit("2");
        reveal_strlit("file://");
        reveal_strlit("?stream");
    }
    if str_eq(key, "1") {
        Dest::Stdout
    } else if str_eq(key, "2") {
        Dest::Stderr
    } else {
        let v = chars_of(key);
        let path = string_from_range(&v, 7, v.len());
        assert(path@ == key@.skip(7));
        if ends_with(path.as_str(), "?stream") {
            let pv = chars_of(path.as_str());
            let base = string_from_range(&pv, 0, pv.len() - 7);
            assert(base@ == path@.take(path@.len() - 7));
            Dest::FileStream(base)
        } else {
            Dest::FilePath(path)
        }
    }
}

/// A path template gives each request its own file when it holds `{{idx}}`.
pub open spec fn unique_template(path: Seq<char>) -> bool {
    occurs_in(path, "{{idx}}"@)
}

/// Whether a path template holds `{{idx}}`.
pub fn path_has_unique_template(path: &str) -> (r: bool)
    ensures
        r == unique_template(path@),
{
    let v = chars_of(path);
    let p = chars_of("{{idx}}");
    find_chars(&v, &p).is_some()
}

/// A destination promoted to streaming: only raw bodies stream; a file streams when its
/// path is unique per request or requests run one at a time; stdout and stderr stream
/// when requests run one at a time.
pub open spec fn auto_streamed(d: DestV, fmt: FormatV, concurrent: bool) -> DestV {
    if fmt != FormatV::Raw(AtomV::B) {
        d
    } else {
        match d {
            DestV::FilePath(p) => if unique_template(p) || !concurrent { DestV::FileStream(p) } else { d },
            DestV::Stdout => if !concurrent { DestV::StdoutStream } else { d },
            DestV::Stderr => if !concurrent { DestV::StderrStream } else { d },
            _ => d,
        }
    }
}

/// Promote a destination to streaming when that is safe.
pub fn maybe_auto_stream(dest: &mut Dest, fmt: &Format, concurrent: bool)
    ensures
        final(dest)@ == auto_streamed(old(dest)@, fmt@, concurrent),
{
    match fmt {
        Format::Raw(Atom::B) => {},
        _ => {
            return;
        },
    }
    let promoted = match dest {
        Dest::FilePath(path) => if path_has_unique_template(path.as_str()) || !concurrent {
            Some(Dest::FileStream(path.clone()))
        } else {
            None
        },
        Dest::Stdout => if !concurrent { Some(Dest::StdoutStream) } else { None },
        Dest::Stderr => if !concurrent { Some(Dest::StderrStream) } else { None },
        _ => None,
    };
    if let Some(d) = promoted {
        *dest = d;
    }
}

/// Single-line YAML flow text of a value: scalars quoted where YAML needs it, keys
/// quoted where they are not plain (numbers stay bare), items and members separated by
/// `, `.
pub open spec fn doc_flow(v: JsonV) -> Seq<char>
    decreases v, 1nat,
{
    match v {
        JsonV::Null => "null"@,
        JsonV::Bool(b) => if b { "true"@ } else { "false"@ },
        JsonV::Number(n) => num_text(n),
        JsonV::Str(s) => flow_scalar(s),
        JsonV::Array(a) => seq!['['] + doc_flow_items(a, a.len()) + seq![']'],
        JsonV::Object(o) => seq!['{'] + doc_flow_members(o, o.len()) + seq!['}'],
    }
}

pub open spec fn doc_flow_items(a: Seq<JsonV>, k: nat) -> Seq<char>
    decreases a, k,
{
    if k == 0 || k > a.len() {
        Seq::empty()
    } else if k == 1 {
        doc_flow(a[0])
    } else {
        doc_flow_items(a, (k - 1) as nat) + ", "@ + doc_flow(a[k - 1])
    }
}

pub open spec fn doc_flow_members(o: ObjV, k: nat) -> Seq<char>
    decreases o, k,
{
    if k == 0 || k > o.len() {
        Seq::empty()
    } else if k == 1 {
        flow_key(o[0].0) + ": "@ + doc_flow(o[0].1)
    } else {
        doc_flow_members(o, (k - 1) as nat) + ", "@ + flow_key(o[k - 1].0) + ": "@ + doc_flow(o[k - 1].1)
    }
}

/// Append the YAML flow text of `v`.
#[verifier::loop_isolation(false)]
pub fn push_flow(out: &mut String, v: &Json)
    ensures
        final(out)@ == old(out)@ + doc_flow(v@),
    decreases v,
{
    proof {
        reveal_strlit("null");
        reveal_strlit("true");
        reveal_strlit("false");
        reveal_strlit(", ");
        reveal_strlit(": ");
    }
    match v {
        Json::Null => push_str(out, "null"),
        Json::Bool(b) => if *b { push_str(out, "true") } else { push_str(out, "false") },
        Json::Number(n) => push_num_text(out, n),
        Json::Str(s) => {
            let q = yaml_flow_scalar(s.as_str());
            push_str(out, q.as_str());
        },
        Json::Array(a) => {
            proof { lemma_seq_view(a@); }
            out.push('[');
            let ghost start = out@;
            let mut i: usize = 0;
            while i < a.len()
                invariant
                    i <= a@.len(),
                    out@ == start + doc_flow_items(seq_view(a@), i as nat),
                decreases a@.len() - i,
            {
                proof {
                    assert(decreases_to!(*a => a@));
                    assert(decreases_to!(a@ => a@[i as int]));
                }
                if i > 0 {
                    push_str(out, ", ");
                }
                push_flow(out, &a[i]);
                proof {
                    if i > 0 {
                        assert(out@ =~= start + doc_flow_items(seq_view(a@), (i + 1) as nat));
                    }
                }
                i = i + 1;
            }
            out.push(']');
        },
        Json::Object(o) => {
            proof { lemma_entries_view(o@); }
            out.push('{');
            let ghost start = out@;
            let mut i: usize = 0;
            while i < o.len()
                invariant
                    i <= o@.len(),
                    out@ == start + doc_flow_members(entries_view(o@), i as nat),
                decreases o@.len() - i,
            {
                proof {
                    assert(decreases_to!(*o => o@));
                    assert(decreases_to!(o@ => o@[i as int]));
                    assert(decreases_to!(o@[i as int] => o@[i as int].1));
                }
                if i > 0 {
                    push_str(out, ", ");
                }
                let k = yaml_flow_key(o[i].0.as_str());
                push_str(out, k.as_str());
                push_str(out, ": ");
                push_flow(out, &o[i].1);
                proof {
                    assert(out@ =~= start + doc_flow_members(entries_view(o@), (i + 1) as nat));
                }
                i = i + 1;
            }
            out.push('}');
        },
    }
}

/// Serialize a value as single-line YAML flow text.
pub fn to_yaml_flow(v: &Json) -> (r: String)
    ensures
        r@ == doc_flow(v@),
{
    let mut out = String::new();
    push_flow(&mut out, v);
    out
}


/// What a key of a request document is for.
pub enum KeyRole {
    Method(Seq<char>),
    Output,
    Headers,
    Body,
    Md,
    Query,
    Unknown,
}

/// A key names a method first, else an output, else (in any case) `h`/`headers`,
/// `b`/`body`, `md` or `q`/`query`.
pub open spec fn key_role(k: Seq<char>) -> KeyRole {
    match method_named(lowercased(k)) {
        Some(m) => KeyRole::Method(m),
        None => if output_key(k) {
            KeyRole::Output
        } else {
            let l = lowercased(k);
            if l == "h"@ || l == "headers"@ {
                KeyRole::Headers
            } else if l == "b"@ || l == "body"@ {
                KeyRole::Body
            } else if l == "md"@ {
                KeyRole::Md
            } else if l == "q"@ || l == "query"@ {
                KeyRole::Query
            } else {
                KeyRole::Unknown
            }
        },
    }
}

/// The fields gathered from a request document; a later method key replaces an
/// earlier one.
pub struct FieldsV {
    pub method: Option<Seq<char>>,
    pub url: Option<Seq<char>>,
    pub headers: Option<JsonV>,
    pub body: Option<JsonV>,
    pub md: Option<JsonV>,
    pub query: Option<JsonV>,
    pub outputs: Seq<(Seq<char>, Seq<char>)>,
}

pub open spec fn no_fields() -> FieldsV {
    FieldsV { method: None, url: None, headers: None, body: None, md: None, query: None, outputs: Seq::empty() }
}

/// The first `k` members of a request document read in order; the first bad member
/// gives the error message. When `strict`, an output's format must also parse.
pub open spec fn fields_scan(o: ObjV, k: nat, strict: bool) -> Result<FieldsV, Seq<char>>
    decreases k,
{
    if k == 0 || k > o.len() {
        Ok(no_fields())
    } else {
        match fields_scan(o, (k - 1) as nat, strict) {
            Err(e) => Err(e),
            Ok(f) => {
                let key = o[k - 1].0;
                let v = o[k - 1].1;
                match key_role(key) {
                    KeyRole::Method(m) => match v {
                        JsonV::Str(u) => Ok(FieldsV { method: Some(m), url: Some(u), ..f }),
                        _ => Err("URL for '"@ + key + "' must be a string"@),
                    },
                    KeyRole::Output => match v {
                        JsonV::Str(s) => match format_parsed(s) {
                            Err(e) => if strict {
                                Err(e)
                            } else {
                                Ok(FieldsV { outputs: f.outputs.push((key, s)), ..f })
                            },
                            Ok(_) => Ok(FieldsV { outputs: f.outputs.push((key, s)), ..f }),
                        },
                        _ => Err("output key '"@ + key + "' must have a string value"@),
                    },
                    KeyRole::Headers => Ok(FieldsV { headers: Some(v), ..f }),
                    KeyRole::Body => Ok(FieldsV { body: Some(v), ..f }),
                    KeyRole::Md => Ok(FieldsV { md: Some(v), ..f }),
                    KeyRole::Query => Ok(FieldsV { query: Some(v), ..f }),
                    KeyRole::Unknown => Err("unknown key: "@ + key),
                }
            },
        }
    }
}

/// The fields of a request document, which must be an object.
pub open spec fn request_fields(v: JsonV) -> Result<FieldsV, Seq<char>> {
    match v {
        JsonV::Object(o) => fields_scan(o, o.len(), false),
        _ => Err("request must be a JSON/YAML object"@),
    }
}

/// The fields of a request document about to be sent: outputs must name formats.
pub open spec fn send_fields(v: JsonV) -> Result<FieldsV, Seq<char>> {
    match v {
        JsonV::Object(o) => fields_scan(o, o.len(), true),
        _ => Err("request must be a JSON/YAML object"@),
    }
}

/// The method of a request: the one its key names, `GET` when it has none.
pub open spec fn method_of(f: FieldsV) -> Seq<char> {
    match f.method {
        Some(m) => m,
        None => "GET"@,
    }
}

/// The full URL of a request: its URL (empty when missing) with aliases expanded and
/// a scheme added.
pub open spec fn url_of(f: FieldsV, apis: Seq<(Seq<char>, Seq<char>)>) -> Seq<char> {
    api_url(match f.url {
        Some(u) => u,
        None => Seq::empty(),
    }, apis)
}

/// The mathematical content of a resolved request.
pub struct ResolvedV {
    pub method: Seq<char>,
    pub url: Seq<char>,
    pub query: Option<JsonV>,
    pub headers: ObjV,
    pub body: Option<JsonV>,
    pub md: Option<JsonV>,
    pub outputs: Seq<(Seq<char>, Seq<char>)>,
}

/// A request document resolved against a configuration: method and URL as above, the
/// merged headers, and the rest as given; the error of the first bad member or of the
/// header variables otherwise.
pub open spec fn resolved_request(v: JsonV, c: ConfigV, env: crate::env::EnvV) -> Result<ResolvedV, Seq<char>> {
    match request_fields(v) {
        Err(e) => Err(e),
        Ok(f) => {
            let method = method_of(f);
            let url = url_of(f, c.apis);
            match resolved_headers(c, method, url, f.md, f.headers, env) {
                Err(e) => Err(e),
                Ok(h) => Ok(
                    ResolvedV { method, url, query: f.query, headers: h, body: f.body, md: f.md, outputs: f.outputs },
                ),
            }
        },
    }
}

/// A request resolved against the configuration.
pub struct ResolvedRequest {
    pub method: String,
    pub url: String,
    pub query: Option<Json>,
    pub headers: Vec<(String, Json)>,
    pub body: Option<Json>,
    pub md: Option<Json>,
    pub outputs: Vec<(String, String)>,
}

impl View for ResolvedRequest {
    type V = ResolvedV;

    open spec fn view(&self) -> ResolvedV {
        ResolvedV {
            method: self.method@,
            url: self.url@,
            query: opt_json_view(self.query),
            headers: entries_view(self.headers@),
            body: opt_json_view(self.body),
            md: opt_json_view(self.md),
            outputs: pairs_view(self.outputs@),
        }
    }
}

proof fn lemma_scan_err(o: ObjV, i: nat, k: nat, strict: bool)
    requires
        1 <= i <= k <= o.len(),
        fields_scan(o, i, strict) is Err,
    ensures
        fields_scan(o, k, strict) == fields_scan(o, i, strict),
    decreases k - i,
{
    if k > i {
        lemma_scan_err(o, i, (k - 1) as nat, strict);
    }
}

/// Gathered request fields.
pub struct Fields {
    pub method: Option<&'static str>,
    pub url: Option<String>,
    pub headers: Option<Json>,
    pub body: Option<Json>,
    pub md: Option<Json>,
    pub query: Option<Json>,
    pub outputs: Vec<(String, String)>,
}

pub open spec fn fields_view(f: Fields) -> FieldsV {
    FieldsV {
        method: match f.method {
            Some(m) => Some(m@),
            None => None,
        },
        url: crate::config::opt_str_view(f.url),
        headers: opt_json_view(f.headers),
        body: opt_json_view(f.body),
        md: opt_json_view(f.md),
        query: opt_json_view(f.query),
        outputs: pairs_view(f.outputs@),
    }
}

fn quoted_message(before: &str, key: &str, after: &str) -> (r: String)
    ensures
        r@ == before@ + key@ + after@,
{
    let mut m = String::new();
    push_str(&mut m, before);
    push_str(&mut m, key);
    push_str(&mut m, after);
    m
}

/// Read the members of a request document.
#[verifier::loop_isolation(false)]
pub fn scan_fields(json: &Json, strict: bool) -> (r: Result<Fields, String>)
    ensures
        match r {
            Ok(f) => (if strict { send_fields(json@) } else { request_fields(json@) }) == Ok::<FieldsV, Seq<char>>(fields_view(f)),
            Err(e) => (if strict { send_fields(json@) } else { request_fields(json@) }) == Err::<FieldsV, Seq<char>>(e@),
        },
{
    proof {
        reveal_strlit("request must be a JSON/YAML object");
        reveal_strlit("URL for '");
        reveal_strlit("' must be a string");
        reveal_strlit("output key '");
        reveal_strlit("' must have a string value");
        reveal_strlit("unknown key: ");
        reveal_strlit("h");
        reveal_strlit("headers");
        reveal_strlit("b");
        reveal_strlit("body");
        reveal_strlit("md");
        reveal_strlit("q");
        reveal_strlit("query");
        reveal_strlit("");
    }
    let o = match json {
        Json::Object(o) => o,
        _ => {
            return Err(quoted_message("request must be a JSON/YAML object", "", ""));
        },
    };
    proof {
        lemma_entries_view(o@);
        reveal_strlit("");
    }
    let mut f = Fields { method: None, url: None, headers: None, body: None, md: None, query: None, outputs: Vec::new() };
    assert(pairs_view(f.outputs@) =~= Seq::<(Seq<char>, Seq<char>)>::empty());
    let mut i: usize = 0;
    while i < o.len()
        invariant
            i <= o@.len(),
            fields_scan(entries_view(o@), i as nat, strict) == Ok::<FieldsV, Seq<char>>(fields_view(f)),
        decreases o@.len() - i,
    {
        let key = o[i].0.as_str();
        let val = &o[i].1;
        let ghost kv = o@[i as int].0@;
        assert(entries_view(o@)[i as int] == (kv, val@));
        let ghost before = f.outputs@;
        if let Some(m) = resolve_method(key) {
            match val {
                Json::Str(u) => {
                    f.method = Some(m);
                    f.url = Some(u.clone());
                },
                _ => {
                    proof { lemma_scan_err(entries_view(o@), (i + 1) as nat, o@.len() as nat, strict); }
                    return Err(quoted_message("URL for '", key, "' must be a string"));
                },
            }
        } else if is_output_key(key) {
            match val {
                Json::Str(s) => {
                    if strict {
                        if let Err(e) = parse_format(s.as_str()) {
                            proof { lemma_scan_err(entries_view(o@), (i + 1) as nat, o@.len() as nat, strict); }
                            return Err(e);
                        }
                    }
                    f.outputs.push((o[i].0.clone(), s.clone()));
                    assert(pairs_view(f.outputs@) =~= pairs_view(before).push((kv, s@)));
                },
                _ => {
                    proof { lemma_scan_err(entries_view(o@), (i + 1) as nat, o@.len() as nat, strict); }
                    return Err(quoted_message("output key '", key, "' must have a string value"));
                },
            }
        } else {
            let l = to_lower(key);
            let ls = l.as_str();
            if str_eq(ls, "h") || str_eq(ls, "headers") {
                f.headers = Some(val.copy());
            } else if str_eq(ls, "b") || str_eq(ls, "body") {
                f.body = Some(val.copy());
            } else if str_eq(ls, "md") {
                f.md = Some(val.copy());
            } else if str_eq(ls, "q") || str_eq(ls, "query") {
                f.query = Some(val.copy());
            } else {
                proof { lemma_scan_err(entries_view(o@), (i + 1) as nat, o@.len() as nat, strict); }
                return Err(quoted_message("unknown key: ", key, ""));
            }
        }
        i = i + 1;
    }
    Ok(f)
}


/// Resolve a request document against the configuration: its method, full URL, merged
/// headers, and the rest as given.
pub fn resolve_request(json: &Json, config: &Config, env: &Env) -> (r: Result<ResolvedRequest, RequestError>)
    ensures
        match r {
            Ok(x) => resolved_request(json@, config@, env@) == Ok::<ResolvedV, Seq<char>>(x@),
            Err(e) => resolved_request(json@, config@, env@) matches Err(m) && e@ == (RequestErrorV::Structure { msg: m }),
        },
{
    proof {
        reveal_strlit("GET");
    }
    let f = match scan_fields(json, false) {
        Ok(f) => f,
        Err(m) => {
            return Err(RequestError::Structure { msg: m });
        },
    };
    let method: &str = match f.method {
        Some(m) => m,
        None => "GET",
    };
    let raw_url = match &f.url {
        Some(u) => u.clone(),
        None => String::new(),
    };
    let url = expand_api_url(raw_url.as_str(), &config.apis);
    match config.resolve_headers(method, url.as_str(), &f.md, &f.headers, env) {
        Ok(h) => Ok(
            ResolvedRequest {
                method: owned(method),
                url,
                query: f.query,
                headers: h,
                body: f.body,
                md: f.md,
                outputs: f.outputs,
            },
        ),
        Err(m) => Err(RequestError::Structure { msg: m }),
    }
}

/// The full URL a request document would be sent to, when its members are well formed.
pub fn request_target(json: &Json, config: &Config) -> (r: Option<String>)
    ensures
        match r {
            Some(u) => request_fields(json@) matches Ok(f) && u@ == url_of(f, config@.apis),
            None => request_fields(json@) is Err,
        },
{
    match scan_fields(json, false) {
        Ok(f) => {
            let raw_url = match &f.url {
                Some(u) => u.clone(),
                None => String::new(),
            };
            Some(expand_api_url(raw_url.as_str(), &config.apis))
        },
        Err(_) => None,
    }
}

/// The URL with the request's `q` object appended as a query string.
pub open spec fn appended_url(url: Seq<char>, q: Option<JsonV>, qa: QueryArrayV) -> Seq<char> {
    match q {
        Some(v) => if v matches JsonV::Object(o) && o.len() > 0 {
            url_with_query(url, v, qa.default, qa.overrides)
        } else {
            url
        },
        None => url,
    }
}

/// Output destinations inserted as string members, in order.
pub open spec fn outputs_inserted(base: ObjV, outs: Seq<(Seq<char>, Seq<char>)>) -> ObjV
    decreases outs.len(),
{
    if outs.len() == 0 {
        base
    } else {
        obj_insert(outputs_inserted(base, outs.drop_last()), outs.last().0, JsonV::Str(outs.last().1))
    }
}

/// The members after the method: `h` when there are headers, then `b`, `md`, and the
/// outputs.
pub open spec fn with_tail(d: ObjV, r: ResolvedV) -> ObjV {
    let d1 = if r.headers.len() > 0 { obj_insert(d, "h"@, JsonV::Object(r.headers)) } else { d };
    let d2 = match r.body {
        Some(b) => obj_insert(d1, "b"@, b),
        None => d1,
    };
    let d3 = match r.md {
        Some(m) => obj_insert(d2, "md"@, m),
        None => d2,
    };
    outputs_inserted(d3, r.outputs)
}

/// A resolved request with its query in the URL: `{method: url, h, b, md, outputs}`.
pub open spec fn wire_document(r: ResolvedV, url: Seq<char>) -> ObjV {
    with_tail(seq![(lowercased(r.method), JsonV::Str(url))], r)
}

/// Query pairs as string members (a repeated key keeps its first place and last
/// value), then the members of the request's `q` object merged in.
pub open spec fn query_members(pairs: Seq<(Seq<char>, Seq<char>)>, q: Option<JsonV>) -> ObjV {
    let base = outputs_inserted(Seq::empty(), pairs);
    match q {
        Some(JsonV::Object(qo)) => merged(base, qo),
        _ => base,
    }
}

/// A resolved request with its query as a `q` object: `{method: base_url, q, h, b, md,
/// outputs}`, `q` only when it has members.
pub open spec fn structured_document(r: ResolvedV, base: Seq<char>, q: ObjV) -> ObjV {
    let d = seq![(lowercased(r.method), JsonV::Str(base))];
    with_tail(if q.len() > 0 { obj_insert(d, "q"@, JsonV::Object(q)) } else { d }, r)
}

/// The URL without query string and the query pairs, when the URL parses.
pub open spec fn url_and_pairs(url: Seq<char>) -> (Seq<char>, Seq<(Seq<char>, Seq<char>)>) {
    match url_split(url) {
        Some(x) => x,
        None => (url, Seq::empty()),
    }
}

fn insert_outputs(d: &mut Vec<(String, Json)>, outs: &Vec<(String, String)>)
    ensures
        entries_view(final(d)@) == outputs_inserted(entries_view(old(d)@), pairs_view(outs@)),
{
    let ghost d0 = entries_view(d@);
    let mut i: usize = 0;
    while i < outs.len()
        invariant
            i <= outs@.len(),
            entries_view(d@) == outputs_inserted(d0, pairs_view(outs@).take(i as int)),
        decreases outs@.len() - i,
    {
        proof {
            assert(pairs_view(outs@).take(i + 1).drop_last() == pairs_view(outs@).take(i as int));
            assert(pairs_view(outs@).take(i + 1).last() == (outs@[i as int].0@, outs@[i as int].1@));
        }
        obj_put(d, outs[i].0.clone(), Json::Str(outs[i].1.clone()));
        i = i + 1;
    }
    assert(pairs_view(outs@).take(outs@.len() as int) == pairs_view(outs@));
}

fn add_tail(d: &mut Vec<(String, Json)>, r: &ResolvedRequest)
    ensures
        entries_view(final(d)@) == with_tail(entries_view(old(d)@), r@),
{
    proof {
        reveal_strlit("h");
        reveal_strlit("b");
        reveal_strlit("md");
        lemma_entries_view(r.headers@);
    }
    if r.headers.len() > 0 {
        obj_put(d, owned("h"), Json::Object(copy_entries(&r.headers)));
    }
    if let Some(b) = &r.body {
        obj_put(d, owned("b"), b.copy());
    }
    if let Some(m) = &r.md {
        obj_put(d, owned("md"), m.copy());
    }
    insert_outputs(d, &r.outputs);
}

fn method_member(r: &ResolvedRequest, url: &str) -> (d: Vec<(String, Json)>)
    ensures
        entries_view(d@) == seq![(lowercased(r@.method), JsonV::Str(url@))],
{
    let d = vec![(to_lower(r.method.as_str()), Json::Str(owned(url)))];
    proof {
        lemma_entries_view(d@);
        assert(entries_view(d@) =~= seq![(lowercased(r@.method), JsonV::Str(url@))]);
    }
    d
}

/// The wire document of a resolved request whose query is already in `url`.
pub fn wire_document_of(r: &ResolvedRequest, url: &str) -> (j: Json)
    ensures
        j@ == JsonV::Object(wire_document(r@, url@)),
{
    let mut d = method_member(r, url);
    add_tail(&mut d, r);
    Json::Object(d)
}

/// The structured document of a resolved request, given its URL without query and
/// the URL's query pairs.
pub fn structured_document_of(r: &ResolvedRequest, base: &str, pairs: &Vec<(String, String)>) -> (j: Json)
    ensures
        j@ == JsonV::Object(structured_document(r@, base@, query_members(pairs_view(pairs@), r@.query))),
{
    proof {
        reveal_strlit("q");
    }
    let mut q: Vec<(String, Json)> = Vec::new();
    proof {
        lemma_entries_view(q@);
    }
    insert_outputs(&mut q, pairs);
    if let Some(Json::Object(qo)) = &r.query {
        merge_headers(&mut q, qo);
    }
    let mut d = method_member(r, base);
    proof {
        lemma_entries_view(q@);
    }
    if q.len() > 0 {
        obj_put(&mut d, owned("q"), Json::Object(q));
    }
    add_tail(&mut d, r);
    Json::Object(d)
}

/// The URL with the request's query appended.
pub fn url_with_request_query(r: &ResolvedRequest, config: &Config) -> (u: String)
    ensures
        u@ == appended_url(r@.url, r@.query, config@.qarray),
{
    append_query(r.url.as_str(), &r.query, &config.qarray)
}

/// The URL without query and its query pairs, when it parses; else the URL itself and
/// no pairs.
pub fn split_url(url: &str) -> (r: (String, Vec<(String, String)>))
    ensures
        (r.0@, pairs_view(r.1@)) == url_and_pairs(url@),
{
    match split_query(url) {
        Some(x) => x,
        None => {
            let v: Vec<(String, String)> = Vec::new();
            assert(pairs_view(v@) =~= Seq::<(Seq<char>, Seq<char>)>::empty());
            (owned(url), v)
        },
    }
}

/// The flow text of a request resolved against the configuration, with query
/// parameters in the URL.
pub fn expand_request(json: &Json, config: &Config, env: &Env) -> (r: Result<String, RequestError>)
    ensures
        match r {
            Ok(s) => resolved_request(json@, config@, env@) matches Ok(x) && s@ == doc_flow(
                JsonV::Object(wire_document(x, appended_url(x.url, x.query, config@.qarray))),
            ),
            Err(e) => resolved_request(json@, config@, env@) matches Err(m) && e@ == (RequestErrorV::Structure { msg: m }),
        },
{
    let x = resolve_request(json, config, env)?;
    let url = url_with_request_query(&x, config);
    Ok(to_yaml_flow(&wire_document_of(&x, url.as_str())))
}

/// The flow text of a request resolved against the configuration, with query
/// parameters (from the URL and from `q`) in a `q` object.
pub fn expand_request_structured(json: &Json, config: &Config, env: &Env) -> (r: Result<String, RequestError>)
    ensures
        match r {
            Ok(s) => resolved_request(json@, config@, env@) matches Ok(x) && s@ == doc_flow(
                JsonV::Object(structured_document(
                    x,
                    url_and_pairs(x.url).0,
                    query_members(url_and_pairs(x.url).1, x.query),
                )),
            ),
            Err(e) => resolved_request(json@, config@, env@) matches Err(m) && e@ == (RequestErrorV::Structure { msg: m }),
        },
{
    let x = resolve_request(json, config, env)?;
    let (base, pairs) = split_url(x.url.as_str());
    Ok(to_yaml_flow(&structured_document_of(&x, base.as_str(), &pairs)))
}


/// Two spaces per level.
pub open spec fn indent_of(level: nat) -> Seq<char> {
    Seq::new(2 * level, |i: int| ' ')
}

/// Single-quoted, quotes doubled, when YAML needs quoting; as it is otherwise.
pub open spec fn sq_if_needed(s: Seq<char>) -> Seq<char> {
    if yaml_quoting_needed(s) {
        seq!['\''] + sq_escape(s) + seq!['\'']
    } else {
        s
    }
}

/// The lines of a literal block, each indented one step past `prefix`.
pub open spec fn literal_lines(lines: Seq<Seq<char>>, prefix: Seq<char>) -> Seq<char>
    decreases lines.len(),
{
    if lines.len() == 0 {
        Seq::empty()
    } else {
        literal_lines(lines.drop_last(), prefix) + prefix + "  "@ + lines.last() + seq!['\n']
    }
}

/// Multi-line YAML block text of a value at an indentation level; every value ends
/// with a newline, and a non-empty collection starts on a new line.
pub open spec fn doc_block(v: JsonV, level: nat) -> Seq<char>
    decreases v, 1nat,
{
    match v {
        JsonV::Null => "null\n"@,
        JsonV::Bool(b) => if b { "true\n"@ } else { "false\n"@ },
        JsonV::Number(n) => num_text(n) + seq!['\n'],
        JsonV::Str(s) => if s.contains('\n') {
            "|\n"@ + literal_lines(lines_of(s), indent_of(level))
        } else {
            sq_if_needed(s) + seq!['\n']
        },
        JsonV::Array(a) => if a.len() == 0 {
            "[]\n"@
        } else {
            seq!['\n'] + block_list(a, level, a.len())
        },
        JsonV::Object(o) => if o.len() == 0 {
            "{}\n"@
        } else {
            seq!['\n'] + block_map(o, level, o.len())
        },
    }
}

/// The first `k` items as `- ` entries, each item's block text with leading
/// whitespace removed.
pub open spec fn block_list(a: Seq<JsonV>, level: nat, k: nat) -> Seq<char>
    decreases a, k,
{
    if k == 0 || k > a.len() {
        Seq::empty()
    } else {
        block_list(a, level, (k - 1) as nat) + indent_of(level) + "- "@ + trim_start(doc_block(a[k - 1], level + 1))
    }
}

/// The first `k` members as `key:` entries; a collection value follows the colon
/// directly, a scalar after a space.
pub open spec fn block_map(o: ObjV, level: nat, k: nat) -> Seq<char>
    decreases o, k,
{
    if k == 0 || k > o.len() {
        Seq::empty()
    } else {
        block_map(o, level, (k - 1) as nat) + indent_of(level) + sq_if_needed(o[k - 1].0) + (if o[k - 1].1 is Object
            || o[k - 1].1 is Array {
            seq![':']
        } else {
            ": "@
        }) + doc_block(o[k - 1].1, level + 1)
    }
}

fn push_indent(out: &mut String, level: usize)
    ensures
        final(out)@ == old(out)@ + indent_of(level as nat),
{
    let mut i: usize = 0;
    while i < level
        invariant
            i <= level,
            out@ == old(out)@ + indent_of(i as nat),
        decreases level - i,
    {
        out.push(' ');
        out.push(' ');
        proof {
            assert(indent_of((i + 1) as nat) =~= indent_of(i as nat).push(' ').push(' '));
        }
        i = i + 1;
    }
}

fn sq_if_needed_text(s: &str) -> (r: String)
    ensures
        r@ == sq_if_needed(s@),
{
    let v = chars_of(s);
    if needs_yaml_quoting(s) {
        let mut out = String::new();
        out.push('\'');
        push_sq_escaped(&mut out, &v);
        out.push('\'');
        out
    } else {
        owned(s)
    }
}

fn render_str_block(s: &str, prefix: &str, Ghost(level): Ghost<nat>) -> (r: String)
    requires
        prefix@ == indent_of(level),
    ensures
        r@ == doc_block(JsonV::Str(s@), level),
{
    proof {
        reveal_strlit("|\n");
        reveal_strlit("  ");
    }
    let cv = chars_of(s);
    if crate::text::contains_char(&cv, '\n') {
        let lines = split_lines(s);
        let mut out = owned("|\n");
        let ghost start = out@;
        let ghost lv = lines@.map_values(|x: String| x@);
        let mut i: usize = 0;
        while i < lines.len()
            invariant
                i <= lines@.len(),
                prefix@ == indent_of(level),
                lv == lines@.map_values(|x: String| x@),
                out@ == start + literal_lines(lv.take(i as int), indent_of(level)),
            decreases lines@.len() - i,
        {
            proof {
                assert(lv.take(i + 1).drop_last() == lv.take(i as int));
                assert(lv.take(i + 1).last() == lines@[i as int]@);
            }
            push_str(&mut out, prefix);
            push_str(&mut out, "  ");
            push_str(&mut out, lines[i].as_str());
            out.push('\n');
            proof {
                assert(out@ =~= start + literal_lines(lv.take(i + 1), indent_of(level)));
            }
            i = i + 1;
        }
        assert(lv.take(lines@.len() as int) == lv);
        out
    } else {
        let mut out = sq_if_needed_text(s);
        out.push('\n');
        out
    }
}

/// The YAML block text of `v` at an indentation level.
#[verifier::rlimit(40)]
#[verifier::loop_isolation(false)]
fn render_block(v: &Json, prefix: &str, Ghost(level): Ghost<nat>) -> (r: String)
    requires
        prefix@ == indent_of(level),
    ensures
        r@ == doc_block(v@, level),
    decreases v,
{
    proof {
        reveal_strlit("null\n");
        reveal_strlit("true\n");
        reveal_strlit("false\n");
        reveal_strlit("|\n");
        reveal_strlit("  ");
        reveal_strlit("[]\n");
        reveal_strlit("{}\n");
        reveal_strlit("- ");
        reveal_strlit(": ");
    }
    match v {
        Json::Null => owned("null\n"),
        Json::Bool(b) => if *b { owned("true\n") } else { owned("false\n") },
        Json::Number(n) => {
            let mut out = String::new();
            push_num_text(&mut out, n);
            out.push('\n');
            out
        },
        Json::Str(s) => render_str_block(s.as_str(), prefix, Ghost(level)),
        Json::Array(a) => {
            proof { lemma_seq_view(a@); }
            if a.len() == 0 {
                return owned("[]\n");
            }
            let mut out = String::new();
            out.push('\n');
            let ghost start = out@;
            let mut inner = owned(prefix);
            push_str(&mut inner, "  ");
            assert(inner@ =~= indent_of(level + 1));
            let mut i: usize = 0;
            while i < a.len()
                invariant
                    i <= a@.len(),
                    out@ == start + block_list(seq_view(a@), level, i as nat),
                decreases a@.len() - i,
            {
                proof {
                    assert(decreases_to!(*a => a@));
                    assert(decreases_to!(a@ => a@[i as int]));
                }
                let child = render_block(&a[i], inner.as_str(), Ghost(level + 1));
                let t = trim_start_str(child.as_str());
                push_str(&mut out, prefix);
                push_str(&mut out, "- ");
                push_str(&mut out, t.as_str());
                proof {
                    assert(out@ =~= start + block_list(seq_view(a@), level, (i + 1) as nat));
                }
                i = i + 1;
            }
            out
        },
        Json::Object(o) => {
            proof { lemma_entries_view(o@); }
            if o.len() == 0 {
                return owned("{}\n");
            }
            let mut out = String::new();
            out.push('\n');
            let ghost start = out@;
            let mut inner = owned(prefix);
            push_str(&mut inner, "  ");
            assert(inner@ =~= indent_of(level + 1));
            let mut i: usize = 0;
            while i < o.len()
                invariant
                    i <= o@.len(),
                    out@ == start + block_map(entries_view(o@), level, i as nat),
                decreases o@.len() - i,
            {
                proof {
                    assert(decreases_to!(*o => o@));
                    assert(decreases_to!(o@ => o@[i as int]));
                    assert(decreases_to!(o@[i as int] => o@[i as int].1));
                }
                push_str(&mut out, prefix);
                let key = sq_if_needed_text(o[i].0.as_str());
                push_str(&mut out, key.as_str());
                let collection = match &o[i].1 {
                    Json::Object(_) => true,
                    Json::Array(_) => true,
                    _ => false,
                };
                if collection {
                    out.push(':');
                } else {
                    push_str(&mut out, ": ");
                }
                let child = render_block(&o[i].1, inner.as_str(), Ghost(level + 1));
                push_str(&mut out, child.as_str());
                proof {
                    assert(out@ =~= start + block_map(entries_view(o@), level, (i + 1) as nat));
                }
                i = i + 1;
            }
            out
        },
    }
}

/// Serialize a value as multi-line block YAML at an indentation level.
pub fn to_yaml_block(v: &Json, indent: usize) -> (r: String)
    ensures
        r@ == doc_block(v@, indent as nat),
{
    let mut prefix = String::new();
    push_indent(&mut prefix, indent);
    proof {
        reveal_strlit("");
    }
    render_block(v, prefix.as_str(), Ghost(indent as nat))
}


/// Block text of a request resolved against the configuration, with query
/// parameters in the URL.
pub fn preview_request_wire(json: &Json, config: &Config, env: &Env) -> (r: Result<String, RequestError>)
    ensures
        match r {
            Ok(s) => resolved_request(json@, config@, env@) matches Ok(x) && s@ == doc_block(
                JsonV::Object(wire_document(x, appended_url(x.url, x.query, config@.qarray))),
                0,
            ),
            Err(e) => resolved_request(json@, config@, env@) matches Err(m) && e@ == (RequestErrorV::Structure { msg: m }),
        },
{
    let x = resolve_request(json, config, env)?;
    let url = url_with_request_query(&x, config);
    Ok(to_yaml_block(&wire_document_of(&x, url.as_str()), 0))
}

/// Block text of a request resolved against the configuration, with query
/// parameters in a `q` object.
pub fn preview_request_structured(json: &Json, config: &Config, env: &Env) -> (r: Result<String, RequestError>)
    ensures
        match r {
            Ok(s) => resolved_request(json@, config@, env@) matches Ok(x) && s@ == doc_block(
                JsonV::Object(structured_document(
                    x,
                    url_and_pairs(x.url).0,
                    query_members(url_and_pairs(x.url).1, x.query),
                )),
                0,
            ),
            Err(e) => resolved_request(json@, config@, env@) matches Err(m) && e@ == (RequestErrorV::Structure { msg: m }),
        },
{
    let x = resolve_request(json, config, env)?;
    let (base, pairs) = split_url(x.url.as_str());
    Ok(to_yaml_block(&structured_document_of(&x, base.as_str(), &pairs), 0))
}

/// A value as curl shows it: a string as it is, anything else as compact JSON.
pub open spec fn curl_value(v: JsonV) -> Seq<char> {
    match v {
        JsonV::Str(s) => s,
        _ => json_text(v),
    }
}

/// One `-H` line for each header, in order.
pub open spec fn curl_header_lines(h: ObjV) -> Seq<Seq<char>>
    decreases h.len(),
{
    if h.len() == 0 {
        Seq::empty()
    } else {
        curl_header_lines(h.drop_last()).push("  -H '"@ + h.last().0 + ": "@ + curl_value(h.last().1) + "'"@)
    }
}

/// The lines of a curl command for a resolved request sent to `url`: the method and
/// URL, a `-H` line for each header, a `-d` line for a body.
pub open spec fn curl_lines(x: ResolvedV, url: Seq<char>) -> Seq<Seq<char>> {
    let first = seq!["curl -X "@ + x.method + " '"@ + url + "'"@];
    let lines = first + curl_header_lines(x.headers);
    match x.body {
        Some(b) => lines.push("  -d '"@ + curl_value(b) + "'"@),
        None => lines,
    }
}

fn curl_value_text(v: &Json) -> (r: String)
    ensures
        r@ == curl_value(v@),
{
    match v {
        Json::Str(s) => s.clone(),
        _ => to_json_text(v),
    }
}

/// The curl command for a resolved request sent to `url`.
pub fn curl_command(x: &ResolvedRequest, url: &str) -> (r: String)
    ensures
        r@ == joined(curl_lines(x@, url@), " \\\n"@),
{
    proof {
        lemma_entries_view(x.headers@);
        reveal_strlit("curl -X ");
        reveal_strlit(" '");
        reveal_strlit("'");
        reveal_strlit("  -H '");
        reveal_strlit(": ");
        reveal_strlit("  -d '");
    }
    let mut parts: Vec<String> = Vec::new();
    let mut first = owned("curl -X ");
    push_str(&mut first, x.method.as_str());
    push_str(&mut first, " '");
    push_str(&mut first, url);
    push_str(&mut first, "'");
    parts.push(first);
    let ghost p0 = strings_view(parts@);
    assert(p0 =~= seq!["curl -X "@ + x@.method + " '"@ + url@ + "'"@]);
    let mut i: usize = 0;
    while i < x.headers.len()
        invariant
            i <= x.headers@.len(),
            entries_view(x.headers@).len() == x.headers@.len(),
            forall|j: int| 0 <= j < x.headers@.len() ==> #[trigger] entries_view(x.headers@)[j] == (
                x.headers@[j].0@,
                x.headers@[j].1@,
            ),
            strings_view(parts@) == p0 + curl_header_lines(entries_view(x.headers@).take(i as int)),
        decreases x.headers@.len() - i,
    {
        proof {
            assert(entries_view(x.headers@).take(i + 1).drop_last() == entries_view(x.headers@).take(i as int));
            assert(entries_view(x.headers@).take(i + 1).last() == (x.headers@[i as int].0@, x.headers@[i as int].1@));
        }
        let mut line = owned("  -H '");
        push_str(&mut line, x.headers[i].0.as_str());
        push_str(&mut line, ": ");
        push_str(&mut line, curl_value_text(&x.headers[i].1).as_str());
        push_str(&mut line, "'");
        let ghost before = strings_view(parts@);
        parts.push(line);
        assert(strings_view(parts@) =~= before.push(line@));
        i = i + 1;
    }
    assert(entries_view(x.headers@).take(x.headers@.len() as int) == entries_view(x.headers@));
    if let Some(b) = &x.body {
        let mut line = owned("  -d '");
        push_str(&mut line, curl_value_text(b).as_str());
        push_str(&mut line, "'");
        let ghost before = strings_view(parts@);
        parts.push(line);
        assert(strings_view(parts@) =~= before.push(line@));
    }
    assert(strings_view(parts@) =~= curl_lines(x@, url@));
    join_strings(&parts, " \\\n")
}

/// A curl command for a request resolved against the configuration.
pub fn preview_request_curl(json: &Json, config: &Config, env: &Env) -> (r: Result<String, RequestError>)
    ensures
        match r {
            Ok(s) => resolved_request(json@, config@, env@) matches Ok(x) && s@ == joined(
                curl_lines(x, appended_url(x.url, x.query, config@.qarray)),
                " \\\n"@,
            ),
            Err(e) => resolved_request(json@, config@, env@) matches Err(m) && e@ == (RequestErrorV::Structure { msg: m }),
        },
{
    let x = resolve_request(json, config, env)?;
    let url = url_with_request_query(&x, config);
    Ok(curl_command(&x, url.as_str()))
}


/// Read a request or configuration document (JSON or YAML, header shortcuts expanded).
pub fn parse_input(s: &str) -> (r: Result<Json, RequestError>)
    ensures
        match r {
            Ok(j) => yttp_document(s@) == Some(j@) && json_keys_unique(j@),
            Err(e) => yttp_outcome(s@) matches Err(f) && e@ == parse_error_view(s@, f),
        },
{
    match yttp_parse(s) {
        Ok(j) => Ok(j),
        Err(f) => Err(RequestError::from_parse(s, f)),
    }
}

} // verus!

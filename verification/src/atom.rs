//! Output format atoms (`b`, `h`, `s.code`, `md.field`, ...) and format specs
//! (`j(...)`, `y(...)`, or a single raw atom).
use vstd::prelude::*;
use vstd::utf8::encode_utf8;
use vstd::string::StrSliceExecFns;
use crate::json::{
    copy_entries, entries_view, json_text, lemma_entries_view, obj_get, obj_insert, obj_lookup,
    obj_put, obj_view, to_json_text, Json, JsonNumber, JsonV, NumV, ObjV,
};
use crate::format_json::{keys_view, pretty_json, to_pretty_json};
use crate::format_yaml::{to_yaml, yaml_text};
use crate::json::json_depth;
use crate::trusted::{encode_body, encoded_body};
use crate::text::{
    decimal, parse_u16, u16_text, usize_to_decimal,
    chars_of, is_prefix, is_suffix, owned, push_str, split_words, starts_with, str_eq, string_from_chars,
    string_from_range, trim, trim_chars, words,
};

verus! {

/// A piece of a request or response that an output can show.
pub enum Atom {
    /// response body
    B,
    /// response headers
    H,
    /// response status line
    S,
    /// status as an inline object `{v, c, t}`
    SInline,
    /// request method
    M,
    /// request URL
    U,
    UScheme,
    UHost,
    UPort,
    UPath,
    UQuery,
    UFragment,
    /// request body
    Ib,
    /// request headers
    Ih,
    SCode,
    SText,
    SVersion,
    /// request index
    Idx,
    /// request metadata
    Md,
    /// one metadata field
    MdField(String),
}

pub enum AtomV {
    B, H, S, SInline, M, U, UScheme, UHost, UPort, UPath, UQuery, UFragment, Ib, Ih, SCode, SText,
    SVersion, Idx, Md, MdField(Seq<char>),
}

impl View for Atom {
    type V = AtomV;

    open spec fn view(&self) -> AtomV {
        match self {
            Atom::B => AtomV::B,
            Atom::H => AtomV::H,
            Atom::S => AtomV::S,
            Atom::SInline => AtomV::SInline,
            Atom::M => AtomV::M,
            Atom::U => AtomV::U,
            Atom::UScheme => AtomV::UScheme,
            Atom::UHost => AtomV::UHost,
            Atom::UPort => AtomV::UPort,
            Atom::UPath => AtomV::UPath,
            Atom::UQuery => AtomV::UQuery,
            Atom::UFragment => AtomV::UFragment,
            Atom::Ib => AtomV::Ib,
            Atom::Ih => AtomV::Ih,
            Atom::SCode => AtomV::SCode,
            Atom::SText => AtomV::SText,
            Atom::SVersion => AtomV::SVersion,
            Atom::Idx => AtomV::Idx,
            Atom::Md => AtomV::Md,
            Atom::MdField(f) => AtomV::MdField(f@),
        }
    }
}

/// How an output is written: one raw atom, or several atoms as a JSON or YAML object.
pub enum Format {
    Raw(Atom),
    Json(Vec<Atom>),
    Yaml(Vec<Atom>),
}

pub enum FormatV {
    Raw(AtomV),
    Json(Seq<AtomV>),
    Yaml(Seq<AtomV>),
}

pub open spec fn atoms_view(v: Seq<Atom>) -> Seq<AtomV> {
    v.map_values(|a: Atom| a@)
}

impl View for Format {
    type V = FormatV;

    open spec fn view(&self) -> FormatV {
        match self {
            Format::Raw(a) => FormatV::Raw(a@),
            Format::Json(v) => FormatV::Json(atoms_view(v@)),
            Format::Yaml(v) => FormatV::Yaml(atoms_view(v@)),
        }
    }
}

/// The atom a name denotes.
pub open spec fn atom_named(s: Seq<char>) -> Option<AtomV> {
    if s == "b"@ || s == "o.b"@ {
        Some(AtomV::B)
    } else if s == "h"@ || s == "o.h"@ {
        Some(AtomV::H)
    } else if s == "s"@ || s == "o.s"@ {
        Some(AtomV::S)
    } else if s == "s!"@ {
        Some(AtomV::SInline)
    } else if s == "s.code"@ || s == "s.c"@ || s == "o.s.code"@ {
        Some(AtomV::SCode)
    } else if s == "s.text"@ || s == "s.t"@ || s == "o.s.text"@ {
        Some(AtomV::SText)
    } else if s == "s.version"@ || s == "s.v"@ || s == "o.s.version"@ {
        Some(AtomV::SVersion)
    } else if s == "m"@ {
        Some(AtomV::M)
    } else if s == "u"@ {
        Some(AtomV::U)
    } else if s == "u.scheme"@ {
        Some(AtomV::UScheme)
    } else if s == "u.host"@ {
        Some(AtomV::UHost)
    } else if s == "u.port"@ {
        Some(AtomV::UPort)
    } else if s == "u.path"@ {
        Some(AtomV::UPath)
    } else if s == "u.query"@ {
        Some(AtomV::UQuery)
    } else if s == "u.fragment"@ {
        Some(AtomV::UFragment)
    } else if s == "i.b"@ {
        Some(AtomV::Ib)
    } else if s == "i.h"@ {
        Some(AtomV::Ih)
    } else if s == "idx"@ {
        Some(AtomV::Idx)
    } else if s == "md"@ {
        Some(AtomV::Md)
    } else if is_prefix("md."@, s) {
        Some(AtomV::MdField(s.skip(3)))
    } else {
        None
    }
}

pub open spec fn opt_atom_view(a: Option<Atom>) -> Option<AtomV> {
    match a {
        Some(x) => Some(x@),
        None => None,
    }
}

/// Parse an atom name.
pub fn parse_atom(s: &str) -> (r: Option<Atom>)
    ensures
        opt_atom_view(r) == atom_named(s@),
{
    if str_eq(s, "b") || str_eq(s, "o.b") {
        Some(Atom::B)
    } else if str_eq(s, "h") || str_eq(s, "o.h") {
        Some(Atom::H)
    } else if str_eq(s, "s") || str_eq(s, "o.s") {
        Some(Atom::S)
    } else if str_eq(s, "s!") {
        Some(Atom::SInline)
    } else if str_eq(s, "s.code") || str_eq(s, "s.c") || str_eq(s, "o.s.code") {
        Some(Atom::SCode)
    } else if str_eq(s, "s.text") || str_eq(s, "s.t") || str_eq(s, "o.s.text") {
        Some(Atom::SText)
    } else if str_eq(s, "s.version") || str_eq(s, "s.v") || str_eq(s, "o.s.version") {
        Some(Atom::SVersion)
    } else if str_eq(s, "m") {
        Some(Atom::M)
    } else if str_eq(s, "u") {
        Some(Atom::U)
    } else if str_eq(s, "u.scheme") {
        Some(Atom::UScheme)
    } else if str_eq(s, "u.host") {
        Some(Atom::UHost)
    } else if str_eq(s, "u.port") {
        Some(Atom::UPort)
    } else if str_eq(s, "u.path") {
        Some(Atom::UPath)
    } else if str_eq(s, "u.query") {
        Some(Atom::UQuery)
    } else if str_eq(s, "u.fragment") {
        Some(Atom::UFragment)
    } else if str_eq(s, "i.b") {
        Some(Atom::Ib)
    } else if str_eq(s, "i.h") {
        Some(Atom::Ih)
    } else if str_eq(s, "idx") {
        Some(Atom::Idx)
    } else if str_eq(s, "md") {
        Some(Atom::Md)
    } else if starts_with(s, "md.") {
        let v = chars_of(s);
        proof { reveal_strlit("md."); }
        let f = string_from_range(&v, 3, v.len());
        assert(f@ == s@.skip(3));
        Some(Atom::MdField(f))
    } else {
        None
    }
}

/// The result of parsing a list of atom names: the atoms, or the message for the first
/// unknown name.
pub open spec fn atom_list(names: Seq<Seq<char>>) -> Result<Seq<AtomV>, Seq<char>>
    decreases names.len(),
{
    if names.len() == 0 {
        Ok(Seq::empty())
    } else {
        match atom_named(names[0]) {
            None => Err("unknown atom: "@ + names[0]),
            Some(a) => match atom_list(names.skip(1)) {
                Ok(rest) => Ok(seq![a] + rest),
                Err(e) => Err(e),
            },
        }
    }
}

proof fn lemma_atom_list_step(names: Seq<Seq<char>>, i: int, done: Seq<AtomV>)
    requires
        0 <= i < names.len(),
        atom_list(names) == (match atom_list(names.skip(i)) {
            Ok(rest) => Ok(done + rest),
            Err(e) => Err(e),
        }),
    ensures
        atom_named(names[i]) is None ==> atom_list(names) == Err::<Seq<AtomV>, Seq<char>>(
            "unknown atom: "@ + names[i],
        ),
        atom_named(names[i]) matches Some(a) ==> atom_list(names) == (match atom_list(
            names.skip(i + 1),
        ) {
            Ok(rest) => Ok(done.push(a) + rest),
            Err(e) => Err(e),
        }),
{
    let t = names.skip(i);
    assert(t[0] == names[i]);
    assert(t.skip(1) == names.skip(i + 1));
    if let Some(a) = atom_named(names[i]) {
        match atom_list(names.skip(i + 1)) {
            Ok(rest) => {
                assert(done + (seq![a] + rest) == done.push(a) + rest);
            },
            Err(e) => {},
        }
    }
}

pub open spec fn atoms_result_view(r: Result<Vec<Atom>, String>) -> Result<Seq<AtomV>, Seq<char>> {
    match r {
        Ok(v) => Ok(atoms_view(v@)),
        Err(m) => Err(m@),
    }
}

pub open spec fn format_result_view(r: Result<Format, String>) -> Result<FormatV, Seq<char>> {
    match r {
        Ok(f) => Ok(f@),
        Err(m) => Err(m@),
    }
}

/// Parse whitespace-separated atom names.
pub fn parse_atom_list(inner: &str) -> (r: Result<Vec<Atom>, String>)
    ensures
        atoms_result_view(r) == atom_list(words(inner@)),
{
    let chars = chars_of(inner);
    let names = split_words(&chars);
    let ghost ws = words(inner@);
    let mut out: Vec<Atom> = Vec::new();
    let mut i: usize = 0;
    assert(ws.skip(0) == ws);
    while i < names.len()
        invariant
            i <= names@.len(),
            ws == words(inner@),
            names@.len() == ws.len(),
            forall|k: int| 0 <= k < names@.len() ==> #[trigger] names@[k]@ == ws[k],
            atom_list(ws) == (match atom_list(ws.skip(i as int)) {
                Ok(rest) => Ok(atoms_view(out@) + rest),
                Err(e) => Err(e),
            }),
        decreases names@.len() - i,
    {
        let name = string_from_chars(&names[i]);
        proof {
            lemma_atom_list_step(ws, i as int, atoms_view(out@));
        }
        match parse_atom(name.as_str()) {
            Some(a) => {
                let ghost av = a@;
                let ghost before = out@;
                out.push(a);
                assert(atoms_view(out@) =~= atoms_view(before).push(av));
            },
            None => {
                let mut msg = owned("unknown atom: ");
                push_str(&mut msg, name.as_str());
                assert(msg@ == "unknown atom: "@ + ws[i as int]);
                return Err(msg);
            },
        }
        i = i + 1;
    }
    proof {
        assert(ws.skip(i as int) =~= Seq::<Seq<char>>::empty());
        assert(atoms_view(out@) + Seq::<AtomV>::empty() == atoms_view(out@));
    }
    Ok(out)
}

/// The meaning of a format spec.
pub open spec fn format_parsed(s: Seq<char>) -> Result<FormatV, Seq<char>> {
    let t = trim(s);
    if is_prefix("j("@, t) && is_suffix(")"@, t) {
        match atom_list(words(t.subrange(2, t.len() - 1))) {
            Ok(a) => Ok(FormatV::Json(a)),
            Err(e) => Err(e),
        }
    } else if is_prefix("y("@, t) && is_suffix(")"@, t) {
        match atom_list(words(t.subrange(2, t.len() - 1))) {
            Ok(a) => Ok(FormatV::Yaml(a)),
            Err(e) => Err(e),
        }
    } else if is_prefix("j("@, t) || is_prefix("y("@, t) {
        Err("unclosed format: "@ + t + " (missing closing parenthesis)"@)
    } else {
        match atom_named(t) {
            Some(a) => Ok(FormatV::Raw(a)),
            None => Err("unknown format: "@ + t),
        }
    }
}

/// Parse a format spec: `j(atoms)`, `y(atoms)` or one atom.
pub fn parse_format(s: &str) -> (r: Result<Format, String>)
    ensures
        format_result_view(r) == format_parsed(s@),
{
    let v = chars_of(s);
    let tv = trim_chars(&v);
    let t = string_from_chars(&tv);
    let ts = t.as_str();
    proof {
        reveal_strlit("j(");
        reveal_strlit("y(");
        reveal_strlit(")");
    }
    let is_j = starts_with(ts, "j(");
    let is_y = starts_with(ts, "y(");
    let closed = crate::text::ends_with(ts, ")");
    if (is_j || is_y) && closed {
        assert(tv@.len() >= 3) by {
            assert(tv@.subrange(tv@.len() - 1, tv@.len() as int)[0] == tv@[tv@.len() - 1]);
            assert(tv@.subrange(0, 2)[1] == tv@[1]);
            if tv@.len() < 3 {
                assert(tv@[tv@.len() - 1] == ')');
                assert(tv@[1] == '(');
            }
        }
        let inner = string_from_range(&tv, 2, tv.len() - 1);
        let atoms = parse_atom_list(inner.as_str());
        match atoms {
            Ok(a) => if is_j { Ok(Format::Json(a)) } else { Ok(Format::Yaml(a)) },
            Err(e) => Err(e),
        }
    } else if is_j || is_y {
        let mut msg = owned("unclosed format: ");
        push_str(&mut msg, ts);
        push_str(&mut msg, " (missing closing parenthesis)");
        Err(msg)
    } else {
        match parse_atom(ts) {
            Some(a) => Ok(Format::Raw(a)),
            None => {
                let mut msg = owned("unknown format: ");
                push_str(&mut msg, ts);
                Err(msg)
            },
        }
    }
}

/// Parts of the request URL.
pub struct UrlParts {
    pub scheme: String,
    pub host: String,
    pub port: String,
    pub path: String,
    pub query: String,
    pub fragment: String,
}

/// Parts of the response status line.
pub struct StatusParts {
    pub code: String,
    pub text: String,
    pub version: String,
}

/// What the outputs can show of a response.
pub struct ResponseData {
    pub status_line: String,
    pub status_parts: StatusParts,
    pub headers_raw: String,
    pub headers_json: Vec<(String, Json)>,
    pub body_bytes: Vec<u8>,
}

/// What the outputs can show of a request.
pub struct RequestData {
    pub method: String,
    pub url: String,
    pub url_parts: UrlParts,
    pub headers_raw: String,
    pub headers_json: Vec<(String, Json)>,
    pub body_json: Option<Json>,
    pub idx: usize,
    pub md: Option<Json>,
}

pub open spec fn opt_json_view(j: Option<Json>) -> Option<JsonV> {
    match j {
        Some(v) => Some(v@),
        None => None,
    }
}

impl ResponseData {
    /// The status code is a decimal `u16`, as a real response's is.
    pub open spec fn wf(&self) -> bool {
        u16_text(self.status_parts.code@) is Some
    }
}

/// The metadata as text: a string as it is, any other value as compact JSON.
pub open spec fn md_text(md: Option<JsonV>) -> Seq<char> {
    match md {
        Some(JsonV::Str(s)) => s,
        Some(v) => json_text(v),
        None => Seq::empty(),
    }
}

/// One metadata field as text; empty when the metadata is not an object or lacks it.
pub open spec fn md_field_text(md: Option<JsonV>, field: Seq<char>) -> Seq<char> {
    match md {
        Some(JsonV::Object(o)) => match obj_get(o, field) {
            Some(JsonV::Str(s)) => s,
            Some(v) => json_text(v),
            None => Seq::empty(),
        },
        _ => Seq::empty(),
    }
}

/// The response body as a structured value: the JSON document the bytes hold, else
/// their UTF-8 text, else their standard base64 text.
pub open spec fn body_value(resp: &ResponseData) -> JsonV {
    encoded_body(resp.body_bytes@)
}

pub open spec fn status_code_value(resp: &ResponseData) -> JsonV {
    JsonV::Number(NumV::PosInt(u16_text(resp.status_parts.code@).unwrap() as u64))
}

/// What reading an atom's structured value needs: a numeric status code for the status
/// code (alone or inline), and a body small enough to encode for the body.
pub open spec fn atom_readable(a: AtomV, resp: &ResponseData) -> bool {
    &&& (a is SInline || a is SCode) ==> resp.wf()
    &&& a is B ==> resp.body_bytes@.len() <= usize::MAX / 2
}

pub open spec fn atoms_readable(atoms: Seq<AtomV>, resp: &ResponseData) -> bool {
    forall|i: int| 0 <= i < atoms.len() ==> atom_readable(#[trigger] atoms[i], resp)
}

/// The structured value an atom stands for.
pub open spec fn atom_value(a: AtomV, resp: &ResponseData, req: &RequestData) -> JsonV {
    match a {
        AtomV::B => body_value(resp),
        AtomV::H => JsonV::Object(obj_view(resp.headers_json@)),
        AtomV::S => JsonV::Str(resp.status_line@),
        AtomV::SInline => JsonV::Object(
            seq![
                ("v"@, JsonV::Str(resp.status_parts.version@)),
                ("c"@, status_code_value(resp)),
                ("t"@, JsonV::Str(resp.status_parts.text@)),
            ],
        ),
        AtomV::SCode => status_code_value(resp),
        AtomV::SText => JsonV::Str(resp.status_parts.text@),
        AtomV::SVersion => JsonV::Str(resp.status_parts.version@),
        AtomV::M => JsonV::Str(req.method@),
        AtomV::U => JsonV::Str(req.url@),
        AtomV::UScheme => JsonV::Str(req.url_parts.scheme@),
        AtomV::UHost => JsonV::Str(req.url_parts.host@),
        AtomV::UPort => JsonV::Str(req.url_parts.port@),
        AtomV::UPath => JsonV::Str(req.url_parts.path@),
        AtomV::UQuery => JsonV::Str(req.url_parts.query@),
        AtomV::UFragment => JsonV::Str(req.url_parts.fragment@),
        AtomV::Ib => match req.body_json {
            Some(v) => v@,
            None => JsonV::Null,
        },
        AtomV::Ih => JsonV::Object(obj_view(req.headers_json@)),
        AtomV::Idx => JsonV::Number(NumV::PosInt(req.idx as u64)),
        AtomV::Md => match req.md {
            Some(v) => v@,
            None => JsonV::Null,
        },
        AtomV::MdField(f) => match req.md {
            Some(m) => match m@ {
                JsonV::Object(o) => match obj_get(o, f) {
                    Some(v) => v,
                    None => JsonV::Null,
                },
                _ => JsonV::Null,
            },
            None => JsonV::Null,
        },
    }
}

fn json_str(s: &String) -> (r: Json)
    ensures
        r@ == JsonV::Str(s@),
{
    Json::Str(s.clone())
}

fn status_code_json(resp: &ResponseData) -> (r: Json)
    requires
        resp.wf(),
    ensures
        r@ == status_code_value(resp),
{
    let c = parse_u16(resp.status_parts.code.as_str());
    Json::Number(JsonNumber::PosInt(c.unwrap() as u64))
}

fn body_json_value(resp: &ResponseData) -> (r: Json)
    requires
        resp.body_bytes@.len() <= usize::MAX / 2,
    ensures
        r@ == body_value(resp),
{
    encode_body(resp.body_bytes.as_slice())
}

/// The structured value an atom stands for.
pub fn atom_json_value(atom: &Atom, resp: &ResponseData, req: &RequestData) -> (r: Json)
    requires
        atom_readable(atom@, resp),
    ensures
        r@ == atom_value(atom@, resp, req),
{
    match atom {
        Atom::B => body_json_value(resp),
        Atom::H => {
            let h = copy_entries(&resp.headers_json);
            Json::Object(h)
        },
        Atom::S => json_str(&resp.status_line),
        Atom::SInline => {
            let mut m: Vec<(String, Json)> = Vec::new();
            m.push((owned("v"), json_str(&resp.status_parts.version)));
            m.push((owned("c"), status_code_json(resp)));
            m.push((owned("t"), json_str(&resp.status_parts.text)));
            proof {
                lemma_entries_view(m@);
                assert(entries_view(m@) =~= seq![
                    ("v"@, JsonV::Str(resp.status_parts.version@)),
                    ("c"@, status_code_value(resp)),
                    ("t"@, JsonV::Str(resp.status_parts.text@)),
                ]);
            }
            Json::Object(m)
        },
        Atom::SCode => status_code_json(resp),
        Atom::SText => json_str(&resp.status_parts.text),
        Atom::SVersion => json_str(&resp.status_parts.version),
        Atom::M => json_str(&req.method),
        Atom::U => json_str(&req.url),
        Atom::UScheme => json_str(&req.url_parts.scheme),
        Atom::UHost => json_str(&req.url_parts.host),
        Atom::UPort => json_str(&req.url_parts.port),
        Atom::UPath => json_str(&req.url_parts.path),
        Atom::UQuery => json_str(&req.url_parts.query),
        Atom::UFragment => json_str(&req.url_parts.fragment),
        Atom::Ib => match &req.body_json {
            Some(v) => v.copy(),
            None => Json::Null,
        },
        Atom::Ih => {
            let h = copy_entries(&req.headers_json);
            Json::Object(h)
        },
        Atom::Idx => Json::Number(JsonNumber::PosInt(req.idx as u64)),
        Atom::Md => match &req.md {
            Some(v) => v.copy(),
            None => Json::Null,
        },
        Atom::MdField(f) => match &req.md {
            Some(Json::Object(o)) => match obj_lookup(o, f.as_str()) {
                Some(v) => v.copy(),
                None => Json::Null,
            },
            _ => Json::Null,
        },
    }
}

/// The key under which a plain (not grouped) atom appears in a structured output.
pub open spec fn plain_key(a: AtomV) -> Seq<char> {
    match a {
        AtomV::B => "b"@,
        AtomV::H => "h"@,
        AtomV::S => "s"@,
        AtomV::SInline => "s"@,
        AtomV::M => "m"@,
        AtomV::U => "u"@,
        AtomV::Ib => "i.b"@,
        AtomV::Ih => "i.h"@,
        AtomV::Idx => "idx"@,
        _ => "md"@,
    }
}

/// The accumulated top-level map and the `md`, `s` and `u` groups.
pub struct Groups {
    pub map: ObjV,
    pub md: ObjV,
    pub s: ObjV,
    pub u: ObjV,
}

/// One atom added to the groups: metadata fields, status parts and URL parts go to their
/// group, every other atom to the top-level map.
pub open spec fn group_step(g: Groups, a: AtomV, resp: &ResponseData, req: &RequestData) -> Groups {
    let v = atom_value(a, resp, req);
    match a {
        AtomV::MdField(f) => Groups { md: obj_insert(g.md, f, v), ..g },
        AtomV::SCode => Groups { s: obj_insert(g.s, "c"@, v), ..g },
        AtomV::SText => Groups { s: obj_insert(g.s, "t"@, v), ..g },
        AtomV::SVersion => Groups { s: obj_insert(g.s, "v"@, v), ..g },
        AtomV::UScheme => Groups { u: obj_insert(g.u, "scheme"@, v), ..g },
        AtomV::UHost => Groups { u: obj_insert(g.u, "host"@, v), ..g },
        AtomV::UPort => Groups { u: obj_insert(g.u, "port"@, v), ..g },
        AtomV::UPath => Groups { u: obj_insert(g.u, "path"@, v), ..g },
        AtomV::UQuery => Groups { u: obj_insert(g.u, "query"@, v), ..g },
        AtomV::UFragment => Groups { u: obj_insert(g.u, "fragment"@, v), ..g },
        _ => Groups { map: obj_insert(g.map, plain_key(a), v), ..g },
    }
}

pub open spec fn groups_of(atoms: Seq<AtomV>, resp: &ResponseData, req: &RequestData) -> Groups
    decreases atoms.len(),
{
    if atoms.len() == 0 {
        Groups { map: Seq::empty(), md: Seq::empty(), s: Seq::empty(), u: Seq::empty() }
    } else {
        group_step(groups_of(atoms.drop_last(), resp, req), atoms.last(), resp, req)
    }
}

/// The object a `j(...)` or `y(...)` format shows: the atoms in order, then the
/// non-empty `md`, `s` and `u` groups.
pub open spec fn value_map(atoms: Seq<AtomV>, resp: &ResponseData, req: &RequestData) -> JsonV {
    let g = groups_of(atoms, resp, req);
    let m1 = if g.md.len() > 0 { obj_insert(g.map, "md"@, JsonV::Object(g.md)) } else { g.map };
    let m2 = if g.s.len() > 0 { obj_insert(m1, "s"@, JsonV::Object(g.s)) } else { m1 };
    let m3 = if g.u.len() > 0 { obj_insert(m2, "u"@, JsonV::Object(g.u)) } else { m2 };
    JsonV::Object(m3)
}

fn plain_key_of(a: &Atom) -> (r: String)
    ensures
        r@ == plain_key(a@),
{
    match a {
        Atom::B => owned("b"),
        Atom::H => owned("h"),
        Atom::S => owned("s"),
        Atom::SInline => owned("s"),
        Atom::M => owned("m"),
        Atom::U => owned("u"),
        Atom::Ib => owned("i.b"),
        Atom::Ih => owned("i.h"),
        Atom::Idx => owned("idx"),
        _ => owned("md"),
    }
}

/// Build the object that a structured format shows for these atoms.
pub fn build_value_map(atoms: &Vec<Atom>, resp: &ResponseData, req: &RequestData) -> (r: Json)
    requires
        atoms_readable(atoms_view(atoms@), resp),
    ensures
        r@ == value_map(atoms_view(atoms@), resp, req),
{
    let ghost av = atoms_view(atoms@);
    let mut map: Vec<(String, Json)> = Vec::new();
    let mut md: Vec<(String, Json)> = Vec::new();
    let mut sf: Vec<(String, Json)> = Vec::new();
    let mut uf: Vec<(String, Json)> = Vec::new();
    proof {
        lemma_entries_view(map@);
        assert(av.take(0) =~= Seq::<AtomV>::empty());
    }
    let mut i: usize = 0;
    while i < atoms.len()
        invariant
            atoms_readable(av, resp),
            av == atoms_view(atoms@),
            i <= atoms@.len(),
            groups_of(av.take(i as int), resp, req) == (Groups {
                map: obj_view(map@),
                md: obj_view(md@),
                s: obj_view(sf@),
                u: obj_view(uf@),
            }),
        decreases atoms@.len() - i,
    {
        let a = &atoms[i];
        proof {
            assert(av.take(i + 1).drop_last() == av.take(i as int));
            assert(av.take(i + 1).last() == a@);
            assert(atom_readable(av[i as int], resp));
        }
        let v = atom_json_value(a, resp, req);
        match a {
            Atom::MdField(f) => obj_put(&mut md, f.clone(), v),
            Atom::SCode => obj_put(&mut sf, owned("c"), v),
            Atom::SText => obj_put(&mut sf, owned("t"), v),
            Atom::SVersion => obj_put(&mut sf, owned("v"), v),
            Atom::UScheme => obj_put(&mut uf, owned("scheme"), v),
            Atom::UHost => obj_put(&mut uf, owned("host"), v),
            Atom::UPort => obj_put(&mut uf, owned("port"), v),
            Atom::UPath => obj_put(&mut uf, owned("path"), v),
            Atom::UQuery => obj_put(&mut uf, owned("query"), v),
            Atom::UFragment => obj_put(&mut uf, owned("fragment"), v),
            _ => {
                let k = plain_key_of(a);
                obj_put(&mut map, k, v);
            },
        }
        i = i + 1;
    }
    proof {
        assert(av.take(i as int) == av);
        lemma_entries_view(md@);
        lemma_entries_view(sf@);
        lemma_entries_view(uf@);
    }
    if md.len() > 0 {
        obj_put(&mut map, owned("md"), Json::Object(md));
    }
    if sf.len() > 0 {
        obj_put(&mut map, owned("s"), Json::Object(sf));
    }
    if uf.len() > 0 {
        obj_put(&mut map, owned("u"), Json::Object(uf));
    }
    Json::Object(map)
}

/// Whether the status is shown inline: `["s"]` when the atoms hold `s!`, else empty.
pub open spec fn inline_key_list(atoms: Seq<AtomV>) -> Seq<Seq<char>> {
    if exists|i: int| 0 <= i < atoms.len() && atoms[i] == AtomV::SInline {
        seq!["s"@]
    } else {
        Seq::empty()
    }
}

/// The keys whose values are rendered inline (flow style).
pub fn inline_keys(atoms: &Vec<Atom>) -> (r: Vec<String>)
    ensures
        r@.len() == inline_key_list(atoms_view(atoms@)).len(),
        forall|k: int| 0 <= k < r@.len() ==> #[trigger] r@[k]@ == inline_key_list(atoms_view(atoms@))[k],
{
    let mut keys: Vec<String> = Vec::new();
    let mut i: usize = 0;
    while i < atoms.len()
        invariant
            i <= atoms@.len(),
            keys@.len() == 0,
            forall|j: int| 0 <= j < i ==> atoms_view(atoms@)[j] != AtomV::SInline,
        decreases atoms@.len() - i,
    {
        if let Atom::SInline = &atoms[i] {
            keys.push(owned("s"));
            assert(atoms_view(atoms@)[i as int] == AtomV::SInline);
            assert(inline_key_list(atoms_view(atoms@)) == seq!["s"@]);
            return keys;
        }
        i = i + 1;
    }
    assert(inline_key_list(atoms_view(atoms@)) == Seq::<Seq<char>>::empty());
    keys
}

/// The metadata as text: a string as it is, any other value as compact JSON.
pub fn md_to_string(md: &Option<Json>) -> (r: String)
    ensures
        r@ == md_text(opt_json_view(*md)),
{
    match md {
        Some(Json::Str(s)) => s.clone(),
        Some(v) => to_json_text(v),
        None => String::new(),
    }
}

/// One metadata field as text.
pub fn md_field_to_string(md: &Option<Json>, field: &str) -> (r: String)
    ensures
        r@ == md_field_text(opt_json_view(*md), field@),
{
    match md {
        Some(Json::Object(o)) => match obj_lookup(o, field) {
            Some(Json::Str(s)) => s.clone(),
            Some(v) => to_json_text(v),
            None => String::new(),
        },
        _ => String::new(),
    }
}

/// The raw bytes an atom shows outside a structured format.
pub open spec fn atom_bytes(a: AtomV, resp: &ResponseData, req: &RequestData) -> Seq<u8> {
    match a {
        AtomV::B => resp.body_bytes@,
        AtomV::H => encode_utf8(resp.headers_raw@),
        AtomV::S | AtomV::SInline => encode_utf8(resp.status_line@),
        AtomV::SCode => encode_utf8(resp.status_parts.code@),
        AtomV::SText => encode_utf8(resp.status_parts.text@),
        AtomV::SVersion => encode_utf8(resp.status_parts.version@),
        AtomV::M => encode_utf8(req.method@),
        AtomV::U => encode_utf8(req.url@),
        AtomV::UScheme => encode_utf8(req.url_parts.scheme@),
        AtomV::UHost => encode_utf8(req.url_parts.host@),
        AtomV::UPort => encode_utf8(req.url_parts.port@),
        AtomV::UPath => encode_utf8(req.url_parts.path@),
        AtomV::UQuery => encode_utf8(req.url_parts.query@),
        AtomV::UFragment => encode_utf8(req.url_parts.fragment@),
        AtomV::Ib => match req.body_json {
            Some(v) => encode_utf8(json_text(v@)),
            None => Seq::empty(),
        },
        AtomV::Ih => encode_utf8(req.headers_raw@),
        AtomV::Idx => encode_utf8(decimal(req.idx as nat)),
        AtomV::Md => encode_utf8(md_text(opt_json_view(req.md))),
        AtomV::MdField(f) => encode_utf8(md_field_text(opt_json_view(req.md), f)),
    }
}

fn bytes_of(s: &str) -> (r: Vec<u8>)
    ensures
        r@ == encode_utf8(s@),
{
    s.as_bytes_vec()
}

/// The raw bytes an atom shows outside a structured format.
pub fn atom_raw(atom: &Atom, resp: &ResponseData, req: &RequestData) -> (r: Vec<u8>)
    ensures
        r@ == atom_bytes(atom@, resp, req),
{
    match atom {
        Atom::B => resp.body_bytes.clone(),
        Atom::H => bytes_of(resp.headers_raw.as_str()),
        Atom::S | Atom::SInline => bytes_of(resp.status_line.as_str()),
        Atom::SCode => bytes_of(resp.status_parts.code.as_str()),
        Atom::SText => bytes_of(resp.status_parts.text.as_str()),
        Atom::SVersion => bytes_of(resp.status_parts.version.as_str()),
        Atom::M => bytes_of(req.method.as_str()),
        Atom::U => bytes_of(req.url.as_str()),
        Atom::UScheme => bytes_of(req.url_parts.scheme.as_str()),
        Atom::UHost => bytes_of(req.url_parts.host.as_str()),
        Atom::UPort => bytes_of(req.url_parts.port.as_str()),
        Atom::UPath => bytes_of(req.url_parts.path.as_str()),
        Atom::UQuery => bytes_of(req.url_parts.query.as_str()),
        Atom::UFragment => bytes_of(req.url_parts.fragment.as_str()),
        Atom::Ib => match &req.body_json {
            Some(v) => {
                let t = to_json_text(v);
                bytes_of(t.as_str())
            },
            None => Vec::new(),
        },
        Atom::Ih => bytes_of(req.headers_raw.as_str()),
        Atom::Idx => {
            let t = usize_to_decimal(req.idx);
            bytes_of(t.as_str())
        },
        Atom::Md => {
            let t = md_to_string(&req.md);
            bytes_of(t.as_str())
        },
        Atom::MdField(f) => {
            let t = md_field_to_string(&req.md, f.as_str());
            bytes_of(t.as_str())
        },
    }
}

/// What an output shows: a raw atom's bytes, or the atoms' object as pretty JSON or
/// YAML, with the status inline when `s!` is among them.
pub open spec fn rendered(fmt: FormatV, resp: &ResponseData, req: &RequestData, color: bool) -> Seq<u8> {
    match fmt {
        FormatV::Raw(a) => atom_bytes(a, resp, req),
        FormatV::Json(atoms) => encode_utf8(
            pretty_json(value_map(atoms, resp, req), inline_key_list(atoms), color),
        ),
        FormatV::Yaml(atoms) => encode_utf8(
            yaml_text(value_map(atoms, resp, req), inline_key_list(atoms), color),
        ),
    }
}

/// The data can be rendered in this format: always for a raw atom; for a structured
/// format, its atoms can be read and the value nests less deeply than the machine can
/// count.
pub open spec fn renderable(fmt: FormatV, resp: &ResponseData, req: &RequestData) -> bool {
    match fmt {
        FormatV::Raw(_) => true,
        FormatV::Json(atoms) => atoms_readable(atoms, resp) && json_depth(value_map(atoms, resp, req)) < usize::MAX,
        FormatV::Yaml(atoms) => atoms_readable(atoms, resp) && json_depth(value_map(atoms, resp, req)) < usize::MAX,
    }
}

/// Whether the atoms' structured values can be read from this response.
pub fn atoms_can_be_read(atoms: &Vec<Atom>, resp: &ResponseData) -> (r: bool)
    ensures
        r == atoms_readable(atoms_view(atoms@), resp),
{
    let code_ok = parse_u16(resp.status_parts.code.as_str()).is_some();
    let body_ok = resp.body_bytes.len() <= usize::MAX / 2;
    let mut i: usize = 0;
    while i < atoms.len()
        invariant
            i <= atoms@.len(),
            code_ok == resp.wf(),
            body_ok == (resp.body_bytes@.len() <= usize::MAX / 2),
            forall|j: int| 0 <= j < i ==> atom_readable(#[trigger] atoms_view(atoms@)[j], resp),
        decreases atoms@.len() - i,
    {
        let ok = match &atoms[i] {
            Atom::SInline | Atom::SCode => code_ok,
            Atom::B => body_ok,
            _ => true,
        };
        if !ok {
            assert(!atom_readable(atoms_view(atoms@)[i as int], resp));
            return false;
        }
        assert(atom_readable(atoms_view(atoms@)[i as int], resp));
        i = i + 1;
    }
    true
}

/// Whether an output can be rendered (see `renderable`).
pub fn can_render(fmt: &Format, resp: &ResponseData, req: &RequestData) -> (r: bool)
    ensures
        r == renderable(fmt@, resp, req),
{
    match fmt {
        Format::Raw(_) => true,
        Format::Json(atoms) => {
            if !atoms_can_be_read(atoms, resp) {
                return false;
            }
            let m = build_value_map(atoms, resp, req);
            crate::json::depth_below(&m, usize::MAX)
        },
        Format::Yaml(atoms) => {
            if !atoms_can_be_read(atoms, resp) {
                return false;
            }
            let m = build_value_map(atoms, resp, req);
            crate::json::depth_below(&m, usize::MAX)
        },
    }
}

/// Render an output without colors.
pub fn render(fmt: &Format, resp: &ResponseData, req: &RequestData) -> (r: Vec<u8>)
    requires
        renderable(fmt@, resp, req),
    ensures
        r@ == rendered(fmt@, resp, req, false),
{
    render_color(fmt, resp, req, false)
}

/// Render an output, with ANSI colors in structured formats when `color` is set.
pub fn render_color(fmt: &Format, resp: &ResponseData, req: &RequestData, color: bool) -> (r: Vec<u8>)
    requires
        renderable(fmt@, resp, req),
    ensures
        r@ == rendered(fmt@, resp, req, color),
{
    match fmt {
        Format::Raw(atom) => atom_raw(atom, resp, req),
        Format::Json(atoms) => {
            let val = build_value_map(atoms, resp, req);
            let keys = inline_keys(atoms);
            assert(keys_view(keys@) =~= inline_key_list(atoms_view(atoms@)));
            let out = to_pretty_json(&val, &keys, color);
            bytes_of(out.as_str())
        },
        Format::Yaml(atoms) => {
            let val = build_value_map(atoms, resp, req);
            let keys = inline_keys(atoms);
            assert(keys_view(keys@) =~= inline_key_list(atoms_view(atoms@)));
            let out = to_yaml(&val, &keys, color);
            bytes_of(out.as_str())
        },
    }
}

} // verus!

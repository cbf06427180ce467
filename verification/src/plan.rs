//! What sending a request involves, decided before any I/O: its outputs, method, URL,
//! headers as sent, and how the body is encoded.
use vstd::prelude::*;
use crate::atom::{Atom, AtomV, Format, FormatV, UrlParts, format_parsed, parse_format, format_result_view, atoms_view};
use crate::cache::{eq_ignore_case, header_ci, find_header_ci};
use crate::config::{Config, ConfigV, output_key, pairs_view, expand_api_url, opt_json_view, resolved_headers};
use crate::env::{Env, EnvV};
use crate::error::{RequestError, RequestErrorV};
use crate::json::{Json, JsonV, ObjV, entries_view, lemma_entries_view, obj_insert, obj_put, json_text, to_json_text};
use crate::request::{
    Dest, DestV, FieldsV, appended_url, auto_streamed, dest_named, fields_scan, key_role, KeyRole, maybe_auto_stream,
    method_of, parse_dest, scan_fields, send_fields, url_of, curl_value,
};
use crate::text::{chars_of, is_prefix, owned, push_str, starts_with, string_from_range};
use crate::trusted::{append_query, lowercased, to_lower, UrlPieces, parse_url_pieces, url_pieces};
use crate::text::{decimal, u64_to_decimal, before_char};
use crate::request::{outputs_inserted, Fields, fields_view, request_fields, url_with_request_query};
use crate::config::opt_str_view;
use crate::error::error_text;

verus! {

/// The format used when neither the request nor the configuration names outputs: the
/// status inline, headers and body, as YAML or JSON.
pub open spec fn default_format(yaml_mode: bool) -> FormatV {
    let atoms = seq![AtomV::SInline, AtomV::H, AtomV::B];
    if yaml_mode { FormatV::Yaml(atoms) } else { FormatV::Json(atoms) }
}

/// The first `k` output keys with their formats parsed; the first bad format gives the
/// error.
pub open spec fn parsed_outputs(outs: Seq<(Seq<char>, Seq<char>)>, k: nat) -> Result<Seq<(DestV, FormatV)>, Seq<char>>
    decreases k,
{
    if k == 0 || k > outs.len() {
        Ok(Seq::empty())
    } else {
        match parsed_outputs(outs, (k - 1) as nat) {
            Err(e) => Err(e),
            Ok(p) => match format_parsed(outs[k - 1].1) {
                Ok(f) => Ok(p.push((dest_named(outs[k - 1].0), f))),
                Err(e) => Err(e),
            },
        }
    }
}

/// The outputs of a request: its own when it names any (they replace the defaults
/// entirely), else the configuration's, else the default format on stdout.
pub open spec fn planned_outputs(own: Seq<(Seq<char>, Seq<char>)>, defaults: Seq<(Seq<char>, Seq<char>)>, yaml_mode: bool) -> Result<Seq<(DestV, FormatV)>, Seq<char>> {
    if own.len() > 0 {
        parsed_outputs(own, own.len())
    } else if defaults.len() == 0 {
        Ok(seq![(DestV::Stdout, default_format(yaml_mode))])
    } else {
        parsed_outputs(defaults, defaults.len())
    }
}

/// Each destination promoted to streaming where that is safe.
pub open spec fn streamed(outs: Seq<(DestV, FormatV)>, concurrent: bool) -> Seq<(DestV, FormatV)> {
    outs.map_values(|o: (DestV, FormatV)| (auto_streamed(o.0, o.1, concurrent), o.1))
}

/// Every key names an output.
pub open spec fn output_keys(outs: Seq<(Seq<char>, Seq<char>)>) -> bool {
    forall|i: int| 0 <= i < outs.len() ==> output_key(#[trigger] outs[i].0)
}

pub open spec fn outputs_view(v: Seq<(Dest, Format)>) -> Seq<(DestV, FormatV)> {
    v.map_values(|o: (Dest, Format)| (o.0@, o.1@))
}

proof fn lemma_parsed_outputs_err(outs: Seq<(Seq<char>, Seq<char>)>, i: nat, k: nat)
    requires
        1 <= i <= k <= outs.len(),
        parsed_outputs(outs, i) is Err,
    ensures
        parsed_outputs(outs, k) == parsed_outputs(outs, i),
    decreases k - i,
{
    if k > i {
        lemma_parsed_outputs_err(outs, i, (k - 1) as nat);
    }
}

fn parse_outputs(outs: &Vec<(String, String)>) -> (r: Result<Vec<(Dest, Format)>, String>)
    requires
        output_keys(pairs_view(outs@)),
    ensures
        match r {
            Ok(v) => parsed_outputs(pairs_view(outs@), outs@.len() as nat) == Ok::<Seq<(DestV, FormatV)>, Seq<char>>(outputs_view(v@)),
            Err(e) => parsed_outputs(pairs_view(outs@), outs@.len() as nat) == Err::<Seq<(DestV, FormatV)>, Seq<char>>(e@),
        },
{
    let ghost ov = pairs_view(outs@);
    let mut r: Vec<(Dest, Format)> = Vec::new();
    let mut i: usize = 0;
    assert(outputs_view(r@) =~= Seq::<(DestV, FormatV)>::empty());
    while i < outs.len()
        invariant
            i <= outs@.len(),
            ov == pairs_view(outs@),
            output_keys(ov),
            parsed_outputs(ov, i as nat) == Ok::<Seq<(DestV, FormatV)>, Seq<char>>(outputs_view(r@)),
        decreases outs@.len() - i,
    {
        assert(ov[i as int] == (outs@[i as int].0@, outs@[i as int].1@));
        assert(output_key(ov[i as int].0));
        match parse_format(outs[i].1.as_str()) {
            Ok(f) => {
                let d = parse_dest(outs[i].0.as_str());
                let ghost before = outputs_view(r@);
                r.push((d, f));
                assert(outputs_view(r@) =~= before.push((d@, f@)));
            },
            Err(e) => {
                proof {
                    lemma_parsed_outputs_err(ov, (i + 1) as nat, outs@.len() as nat);
                }
                return Err(e);
            },
        }
        i = i + 1;
    }
    Ok(r)
}

fn default_outputs(yaml_mode: bool) -> (r: Vec<(Dest, Format)>)
    ensures
        outputs_view(r@) == seq![(DestV::Stdout, default_format(yaml_mode))],
{
    let atoms = vec![Atom::SInline, Atom::H, Atom::B];
    assert(atoms_view(atoms@) =~= seq![AtomV::SInline, AtomV::H, AtomV::B]);
    let f = if yaml_mode { Format::Yaml(atoms) } else { Format::Json(atoms) };
    let r = vec![(Dest::Stdout, f)];
    assert(outputs_view(r@) =~= seq![(DestV::Stdout, default_format(yaml_mode))]);
    r
}

/// The outputs of a request, promoted to streaming where that is safe.
pub fn plan_outputs(own: &Vec<(String, String)>, defaults: &Vec<(String, String)>, yaml_mode: bool, concurrent: bool) -> (r: Result<Vec<(Dest, Format)>, String>)
    requires
        output_keys(pairs_view(own@)),
        output_keys(pairs_view(defaults@)),
    ensures
        match r {
            Ok(v) => planned_outputs(pairs_view(own@), pairs_view(defaults@), yaml_mode) matches Ok(p)
                && outputs_view(v@) == streamed(p, concurrent),
            Err(e) => planned_outputs(pairs_view(own@), pairs_view(defaults@), yaml_mode) == Err::<Seq<(DestV, FormatV)>, Seq<char>>(e@),
        },
{
    let outs = if own.len() > 0 {
        parse_outputs(own)?
    } else if defaults.len() == 0 {
        default_outputs(yaml_mode)
    } else {
        parse_outputs(defaults)?
    };
    let ghost before = outputs_view(outs@);
    let mut rest = outs;
    let mut result: Vec<(Dest, Format)> = Vec::new();
    assert(before.skip(0) == before);
    while rest.len() > 0
        invariant
            result@.len() <= before.len(),
            outputs_view(rest@) == before.skip(result@.len() as int),
            forall|j: int| 0 <= j < result@.len() ==> #[trigger] outputs_view(result@)[j] == (
                auto_streamed(before[j].0, before[j].1, concurrent),
                before[j].1,
            ),
        decreases rest@.len(),
    {
        let ghost n = result@.len();
        let ghost old_rest = rest@;
        assert(outputs_view(rest@).len() == rest@.len());
        assert(n < before.len());
        let e = rest.remove(0);
        proof {
            assert(outputs_view(old_rest)[0] == (old_rest[0].0@, old_rest[0].1@));
            assert(before.skip(n as int)[0] == before[n as int]);
            assert(before[n as int] == (e.0@, e.1@));
            assert(outputs_view(rest@) =~= outputs_view(old_rest).drop_first());
        }
        let (mut d, f) = e;
        let ghost d0 = d@;
        maybe_auto_stream(&mut d, &f, concurrent);
        let ghost r0 = outputs_view(result@);
        result.push((d, f));
        proof {
            assert(outputs_view(result@) =~= r0.push((auto_streamed(d0, f@, concurrent), f@)));
            assert(before.skip(n as int).drop_first() =~= before.skip((n + 1) as int));
            assert(outputs_view(rest@) =~= before.skip((n + 1) as int));
        }
    }
    assert(outputs_view(result@) =~= streamed(before, concurrent));
    Ok(result)
}


/// One part of a multipart body: a file to read, or a text field.
#[derive(Debug)]
pub enum Part {
    File(String, String),
    Text(String, String),
}

pub enum PartV {
    File(Seq<char>, Seq<char>),
    Text(Seq<char>, Seq<char>),
}

impl View for Part {
    type V = PartV;

    open spec fn view(&self) -> PartV {
        match self {
            Part::File(n, p) => PartV::File(n@, p@),
            Part::Text(n, t) => PartV::Text(n@, t@),
        }
    }
}

/// How a request body is sent.
#[derive(Debug)]
pub enum BodyPlan {
    /// No body.
    Absent,
    /// The value as JSON.
    Json(Json),
    /// Form fields, each value as text.
    Form(Vec<(String, String)>),
    /// A form body that is not an object: sent as its string.
    FormRaw(Json),
    /// Multipart parts.
    Multipart(Vec<Part>),
    /// A multipart body that is not an object: nothing is sent.
    Dropped,
}

pub enum BodyPlanV {
    Absent,
    Json(JsonV),
    Form(Seq<(Seq<char>, Seq<char>)>),
    FormRaw(JsonV),
    Multipart(Seq<PartV>),
    Dropped,
}

impl View for BodyPlan {
    type V = BodyPlanV;

    open spec fn view(&self) -> BodyPlanV {
        match self {
            BodyPlan::Absent => BodyPlanV::Absent,
            BodyPlan::Json(j) => BodyPlanV::Json(j@),
            BodyPlan::Form(f) => BodyPlanV::Form(pairs_view(f@)),
            BodyPlan::FormRaw(j) => BodyPlanV::FormRaw(j@),
            BodyPlan::Multipart(p) => BodyPlanV::Multipart(p@.map_values(|x: Part| x@)),
            BodyPlan::Dropped => BodyPlanV::Dropped,
        }
    }
}

/// The Content-Type of merged headers, lower-cased: the first header so named in any
/// ASCII case, empty when it is missing or not a string.
pub open spec fn content_type_of(h: ObjV) -> Seq<char> {
    lowercased(match header_ci(h, "content-type"@) {
        Some(JsonV::Str(s)) => s,
        _ => Seq::empty(),
    })
}

/// A Content-Type header is not sent for a multipart body: the client sets its own.
pub open spec fn header_dropped(k: Seq<char>, ct: Seq<char>) -> bool {
    eq_ignore_case(k, "content-type"@) && is_prefix("multipart/form-data"@, ct)
}

/// The headers as sent, in order: each value as text.
pub open spec fn sent_headers(h: ObjV, ct: Seq<char>) -> Seq<(Seq<char>, Seq<char>)>
    decreases h.len(),
{
    if h.len() == 0 {
        Seq::empty()
    } else {
        let p = sent_headers(h.drop_last(), ct);
        if header_dropped(h.last().0, ct) {
            p
        } else {
            p.push((h.last().0, curl_value(h.last().1)))
        }
    }
}

/// The raw header block: `name: value` lines ending in CRLF.
pub open spec fn raw_headers(s: Seq<(Seq<char>, Seq<char>)>) -> Seq<char>
    decreases s.len(),
{
    if s.len() == 0 {
        Seq::empty()
    } else {
        raw_headers(s.drop_last()) + s.last().0 + ": "@ + s.last().1 + "\r\n"@
    }
}

pub open spec fn form_params(o: ObjV) -> Seq<(Seq<char>, Seq<char>)> {
    o.map_values(|e: (Seq<char>, JsonV)| (e.0, curl_value(e.1)))
}

pub open spec fn part_of(e: (Seq<char>, JsonV)) -> PartV {
    match e.1 {
        JsonV::Str(s) => if is_prefix("file://"@, s) { PartV::File(e.0, s.skip(7)) } else { PartV::Text(e.0, s) },
        v => PartV::Text(e.0, json_text(v)),
    }
}

/// How the body is sent, by Content-Type: form fields, multipart parts, else JSON.
pub open spec fn body_plan(body: Option<JsonV>, ct: Seq<char>) -> BodyPlanV {
    match body {
        None => BodyPlanV::Absent,
        Some(b) => if is_prefix("application/x-www-form-urlencoded"@, ct) {
            match b {
                JsonV::Object(o) => BodyPlanV::Form(form_params(o)),
                _ => BodyPlanV::FormRaw(b),
            }
        } else if is_prefix("multipart/form-data"@, ct) {
            match b {
                JsonV::Object(o) => BodyPlanV::Multipart(o.map_values(|e: (Seq<char>, JsonV)| part_of(e))),
                _ => BodyPlanV::Dropped,
            }
        } else {
            BodyPlanV::Json(b)
        },
    }
}

/// `s` without leading `/`s.
pub open spec fn trim_leading_slashes(s: Seq<char>) -> Seq<char>
    decreases s.len(),
{
    if s.len() > 0 && s[0] == '/' {
        trim_leading_slashes(s.drop_first())
    } else {
        s
    }
}

pub open spec fn or_empty(s: Option<Seq<char>>) -> Seq<char> {
    match s {
        Some(x) => x,
        None => Seq::empty(),
    }
}

/// The URL parts a request shows: scheme, host, port, path without leading slashes,
/// query and fragment, absent ones empty; or the parse error.
pub open spec fn url_parts_of(url: Seq<char>) -> Result<Seq<Seq<char>>, Seq<char>> {
    match url_pieces(url) {
        Ok(p) => Ok(seq![
            p.0,
            or_empty(p.1),
            match p.2 {
                Some(n) => decimal(n as nat),
                None => Seq::empty(),
            },
            trim_leading_slashes(p.3),
            or_empty(p.4),
            or_empty(p.5),
        ]),
        Err(e) => Err(e),
    }
}

pub open spec fn url_parts_view(p: UrlParts) -> Seq<Seq<char>> {
    seq![p.scheme@, p.host@, p.port@, p.path@, p.query@, p.fragment@]
}

fn or_empty_text(s: Option<String>) -> (r: String)
    ensures
        r@ == or_empty(opt_str_view(s)),
{
    match s {
        Some(x) => x,
        None => String::new(),
    }
}

/// The URL parts of a request URL.
pub fn url_parts(url: &str) -> (r: Result<UrlParts, String>)
    ensures
        match r {
            Ok(p) => url_parts_of(url@) == Ok::<Seq<Seq<char>>, Seq<char>>(url_parts_view(p)),
            Err(e) => url_parts_of(url@) == Err::<Seq<Seq<char>>, Seq<char>>(e@),
        },
{
    let p = parse_url_pieces(url)?;
    let pv = chars_of(p.path.as_str());
    let mut a: usize = 0;
    assert(pv@.skip(0) == pv@);
    while a < pv.len() && pv[a] == '/'
        invariant
            a <= pv@.len(),
            trim_leading_slashes(pv@) == trim_leading_slashes(pv@.skip(a as int)),
        decreases pv@.len() - a,
    {
        assert(pv@.skip(a as int).drop_first() == pv@.skip(a + 1));
        a = a + 1;
    }
    let path = string_from_range(&pv, a, pv.len());
    assert(path@ == pv@.skip(a as int));
    let port = match p.port {
        Some(n) => u64_to_decimal(n as u64),
        None => String::new(),
    };
    let parts = UrlParts {
        scheme: p.scheme,
        host: or_empty_text(p.host),
        port,
        path,
        query: or_empty_text(p.query),
        fragment: or_empty_text(p.fragment),
    };
    assert(url_parts_view(parts) =~= url_parts_of(url@)->Ok_0);
    Ok(parts)
}

fn content_type(h: &Vec<(String, Json)>) -> (r: String)
    ensures
        r@ == content_type_of(entries_view(h@)),
{
    proof {
        reveal_strlit("content-type");
        reveal_strlit("");
    }
    let found = find_header_ci(h, "content-type");
    let s: &str = match found {
        Some(Json::Str(x)) => x.as_str(),
        _ => "",
    };
    proof {
        assert(s@ == match header_ci(entries_view(h@), "content-type"@) {
            Some(JsonV::Str(x)) => x,
            _ => Seq::<char>::empty(),
        });
    }
    to_lower(s)
}

/// Headers as sent, with the raw header block.
fn sent(h: &Vec<(String, Json)>, ct: &str) -> (r: (Vec<(String, String)>, String))
    ensures
        pairs_view(r.0@) == sent_headers(entries_view(h@), ct@),
        r.1@ == raw_headers(sent_headers(entries_view(h@), ct@)),
{
    proof {
        lemma_entries_view(h@);
        reveal_strlit("content-type");
        reveal_strlit("multipart/form-data");
        reveal_strlit(": ");
        reveal_strlit("\r\n");
    }
    let multipart = starts_with(ct, "multipart/form-data");
    let mut out: Vec<(String, String)> = Vec::new();
    let mut raw = String::new();
    let mut i: usize = 0;
    while i < h.len()
        invariant
            i <= h@.len(),
            multipart == is_prefix("multipart/form-data"@, ct@),
            entries_view(h@).len() == h@.len(),
            forall|j: int| 0 <= j < h@.len() ==> #[trigger] entries_view(h@)[j] == (h@[j].0@, h@[j].1@),
            pairs_view(out@) == sent_headers(entries_view(h@).take(i as int), ct@),
            raw@ == raw_headers(pairs_view(out@)),
        decreases h@.len() - i,
    {
        proof {
            assert(entries_view(h@).take(i + 1).drop_last() == entries_view(h@).take(i as int));
            assert(entries_view(h@).take(i + 1).last() == (h@[i as int].0@, h@[i as int].1@));
            reveal_strlit("content-type");
            reveal_strlit(": ");
            reveal_strlit("\r\n");
        }
        let dropped = multipart && crate::cache::chars_eq_ignore_case_pub(h[i].0.as_str(), "content-type");
        if !dropped {
            let v = match &h[i].1 {
                Json::Str(s) => s.clone(),
                other => to_json_text(other),
            };
            push_str(&mut raw, h[i].0.as_str());
            push_str(&mut raw, ": ");
            push_str(&mut raw, v.as_str());
            push_str(&mut raw, "\r\n");
            let ghost before = pairs_view(out@);
            out.push((h[i].0.clone(), v));
            assert(pairs_view(out@) =~= before.push((h@[i as int].0@, curl_value(h@[i as int].1@))));
            assert(pairs_view(out@).drop_last() =~= before);
            assert(raw@ =~= raw_headers(pairs_view(out@)));
        }
        i = i + 1;
    }
    assert(entries_view(h@).take(h@.len() as int) == entries_view(h@));
    (out, raw)
}

fn sent_object(s: &Vec<(String, String)>) -> (r: Vec<(String, Json)>)
    ensures
        entries_view(r@) == outputs_inserted(Seq::empty(), pairs_view(s@)),
{
    let mut d: Vec<(String, Json)> = Vec::new();
    proof {
        lemma_entries_view(d@);
    }
    let ghost d0 = entries_view(d@);
    let mut i: usize = 0;
    while i < s.len()
        invariant
            i <= s@.len(),
            d0 == Seq::<(Seq<char>, JsonV)>::empty(),
            entries_view(d@) == outputs_inserted(d0, pairs_view(s@).take(i as int)),
        decreases s@.len() - i,
    {
        proof {
            assert(pairs_view(s@).take(i + 1).drop_last() == pairs_view(s@).take(i as int));
            assert(pairs_view(s@).take(i + 1).last() == (s@[i as int].0@, s@[i as int].1@));
        }
        obj_put(&mut d, s[i].0.clone(), Json::Str(s[i].1.clone()));
        i = i + 1;
    }
    assert(pairs_view(s@).take(s@.len() as int) == pairs_view(s@));
    d
}

fn plan_body(body: &Option<Json>, ct: &str) -> (r: BodyPlan)
    ensures
        r@ == body_plan(opt_json_view(*body), ct@),
{
    proof {
        reveal_strlit("application/x-www-form-urlencoded");
        reveal_strlit("multipart/form-data");
        reveal_strlit("file://");
    }
    match body {
        None => BodyPlan::Absent,
        Some(b) => {
            if starts_with(ct, "application/x-www-form-urlencoded") {
                match b {
                    Json::Object(o) => {
                        proof { lemma_entries_view(o@); }
                        let mut f: Vec<(String, String)> = Vec::new();
                        let mut i: usize = 0;
                        while i < o.len()
                            invariant
                                i <= o@.len(),
                                f@.len() == i,
                                entries_view(o@).len() == o@.len(),
                                forall|j: int| 0 <= j < o@.len() ==> #[trigger] entries_view(o@)[j] == (o@[j].0@, o@[j].1@),
                                forall|j: int| 0 <= j < i ==> (#[trigger] f@[j]).0@ == o@[j].0@ && f@[j].1@ == curl_value(o@[j].1@),
                            decreases o@.len() - i,
                        {
                            let v = match &o[i].1 {
                                Json::Str(s) => s.clone(),
                                other => to_json_text(other),
                            };
                            f.push((o[i].0.clone(), v));
                            i = i + 1;
                        }
                        assert(pairs_view(f@) =~= form_params(entries_view(o@)));
                        BodyPlan::Form(f)
                    },
                    _ => BodyPlan::FormRaw(b.copy()),
                }
            } else if starts_with(ct, "multipart/form-data") {
                match b {
                    Json::Object(o) => {
                        proof { lemma_entries_view(o@); }
                        let mut parts: Vec<Part> = Vec::new();
                        let mut i: usize = 0;
                        while i < o.len()
                            invariant
                                i <= o@.len(),
                                parts@.len() == i,
                                entries_view(o@).len() == o@.len(),
                                forall|j: int| 0 <= j < o@.len() ==> #[trigger] entries_view(o@)[j] == (o@[j].0@, o@[j].1@),
                                forall|j: int| 0 <= j < i ==> (#[trigger] parts@[j])@ == part_of(entries_view(o@)[j]),
                            decreases o@.len() - i,
                        {
                            proof {
                                reveal_strlit("file://");
                            }
                            let name = o[i].0.clone();
                            let p = match &o[i].1 {
                                Json::Str(s) => if starts_with(s.as_str(), "file://") {
                                    let sv = chars_of(s.as_str());
                                    Part::File(name, string_from_range(&sv, 7, sv.len()))
                                } else {
                                    Part::Text(name, s.clone())
                                },
                                other => Part::Text(name, to_json_text(other)),
                            };
                            parts.push(p);
                            i = i + 1;
                        }
                        assert(parts@.map_values(|x: Part| x@) =~= entries_view(o@).map_values(|e: (Seq<char>, JsonV)| part_of(e)));
                        BodyPlan::Multipart(parts)
                    },
                    _ => BodyPlan::Dropped,
                }
            } else {
                BodyPlan::Json(b.copy())
            }
        },
    }
}


/// Everything decided about sending a request.
pub struct Plan {
    pub outputs: Vec<(Dest, Format)>,
    pub method: String,
    pub url: String,
    /// The merged headers.
    pub headers: Vec<(String, Json)>,
    pub content_type: String,
    /// The headers as sent, each value as text.
    pub sent_headers: Vec<(String, String)>,
    pub headers_raw: String,
    pub headers_json: Vec<(String, Json)>,
    pub body: Option<Json>,
    pub md: Option<Json>,
    pub body_plan: BodyPlan,
    pub url_parts: UrlParts,
}

pub struct PlanV {
    pub outputs: Seq<(DestV, FormatV)>,
    pub method: Seq<char>,
    pub url: Seq<char>,
    pub headers: ObjV,
    pub content_type: Seq<char>,
    pub sent_headers: Seq<(Seq<char>, Seq<char>)>,
    pub headers_raw: Seq<char>,
    pub headers_json: ObjV,
    pub body: Option<JsonV>,
    pub md: Option<JsonV>,
    pub body_plan: BodyPlanV,
    pub url_parts: Seq<Seq<char>>,
}

impl View for Plan {
    type V = PlanV;

    open spec fn view(&self) -> PlanV {
        PlanV {
            outputs: outputs_view(self.outputs@),
            method: self.method@,
            url: self.url@,
            headers: entries_view(self.headers@),
            content_type: self.content_type@,
            sent_headers: pairs_view(self.sent_headers@),
            headers_raw: self.headers_raw@,
            headers_json: entries_view(self.headers_json@),
            body: opt_json_view(self.body),
            md: opt_json_view(self.md),
            body_plan: self.body_plan@,
            url_parts: url_parts_view(self.url_parts),
        }
    }
}

/// The URL a request is sent to: aliases expanded, scheme added, query appended.
pub open spec fn send_url(f: FieldsV, c: ConfigV) -> Seq<char> {
    appended_url(url_of(f, c.apis), f.query, c.qarray)
}

pub open spec fn no_method_message() -> Seq<char> {
    "no HTTP method found (use g, p, put, d, patch, ...)"@
}

/// The plan for sending a request document: its outputs, method, URL and headers,
/// the headers as sent and the body encoding; or the error that stops it, in the
/// order in which it is found.
pub open spec fn planned(v: JsonV, c: ConfigV, env: EnvV, yaml_mode: bool, concurrent: bool) -> Result<PlanV, RequestErrorV> {
    match send_fields(v) {
        Err(m) => Err(RequestErrorV::Structure { msg: m }),
        Ok(f) => match planned_outputs(f.outputs, c.default_outputs, yaml_mode) {
            Err(m) => Err(RequestErrorV::Structure { msg: m }),
            Ok(outs) => match f.method {
                None => Err(RequestErrorV::Structure { msg: no_method_message() }),
                Some(m) => {
                    let url = send_url(f, c);
                    match resolved_headers(c, m, url, f.md, f.headers, env) {
                        Err(e) => Err(RequestErrorV::Structure { msg: e }),
                        Ok(h) => {
                            let ct = content_type_of(h);
                            let sent = sent_headers(h, ct);
                            match url_parts_of(url) {
                                Err(e) => Err(RequestErrorV::Url { url, msg: e }),
                                Ok(parts) => Ok(
                                    PlanV {
                                        outputs: streamed(outs, concurrent),
                                        method: m,
                                        url,
                                        headers: h,
                                        content_type: ct,
                                        sent_headers: sent,
                                        headers_raw: raw_headers(sent),
                                        headers_json: outputs_inserted(Seq::empty(), sent),
                                        body: f.body,
                                        md: f.md,
                                        body_plan: body_plan(f.body, ct),
                                        url_parts: parts,
                                    },
                                ),
                            }
                        },
                    }
                },
            },
        },
    }
}

proof fn lemma_scan_output_keys(o: ObjV, k: nat, strict: bool)
    ensures
        fields_scan(o, k, strict) matches Ok(f) ==> output_keys(f.outputs),
    decreases k,
{
    if k > 0 && k <= o.len() {
        lemma_scan_output_keys(o, (k - 1) as nat, strict);
        if let Ok(f) = fields_scan(o, k, strict) {
            let p = fields_scan(o, (k - 1) as nat, strict)->Ok_0;
            if key_role(o[k - 1].0) is Output {
                assert forall|i: int| 0 <= i < f.outputs.len() implies output_key(#[trigger] f.outputs[i].0) by {
                    if i < p.outputs.len() {
                        assert(f.outputs[i] == p.outputs[i]);
                    }
                }
            } else {
                assert(f.outputs == p.outputs);
            }
        }
    }
}

fn no_method_error() -> (r: RequestError)
    ensures
        r@ == (RequestErrorV::Structure { msg: no_method_message() }),
{
    RequestError::Structure { msg: owned("no HTTP method found (use g, p, put, d, patch, ...)") }
}

/// Decide how a request document is sent.
pub fn plan_request(json: &Json, config: &Config, env: &Env, yaml_mode: bool, concurrent: bool) -> (r: Result<Plan, RequestError>)
    requires
        output_keys(config@.default_outputs),
    ensures
        match r {
            Ok(p) => planned(json@, config@, env@, yaml_mode, concurrent) == Ok::<PlanV, RequestErrorV>(p@),
            Err(e) => planned(json@, config@, env@, yaml_mode, concurrent) == Err::<PlanV, RequestErrorV>(e@),
        },
{
    let f = match scan_fields(json, true) {
        Ok(f) => f,
        Err(m) => {
            return Err(RequestError::Structure { msg: m });
        },
    };
    proof {
        if let JsonV::Object(o) = json@ {
            lemma_scan_output_keys(o, o.len(), true);
        }
    }
    let outputs = match plan_outputs(&f.outputs, &config.default_outputs, yaml_mode, concurrent) {
        Ok(o) => o,
        Err(m) => {
            return Err(RequestError::Structure { msg: m });
        },
    };
    let method: &str = match f.method {
        Some(m) => m,
        None => {
            return Err(no_method_error());
        },
    };
    let raw_url = match &f.url {
        Some(u) => u.clone(),
        None => String::new(),
    };
    let base = expand_api_url(raw_url.as_str(), &config.apis);
    let url = append_query(base.as_str(), &f.query, &config.qarray);
    let headers = match config.resolve_headers(method, url.as_str(), &f.md, &f.headers, env) {
        Ok(h) => h,
        Err(m) => {
            return Err(RequestError::Structure { msg: m });
        },
    };
    let ct = content_type(&headers);
    let (sent_h, raw) = sent(&headers, ct.as_str());
    let hj = sent_object(&sent_h);
    let bp = plan_body(&f.body, ct.as_str());
    let parts = match url_parts(url.as_str()) {
        Ok(p) => p,
        Err(e) => {
            return Err(RequestError::Url { url, msg: e });
        },
    };
    Ok(
        Plan {
            outputs,
            method: owned(method),
            url,
            headers,
            content_type: ct,
            sent_headers: sent_h,
            headers_raw: raw,
            headers_json: hj,
            body: f.body,
            md: f.md,
            body_plan: bp,
            url_parts: parts,
        },
    )
}

} // verus!

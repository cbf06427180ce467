//! What the outputs see of a response, whether it came over the wire or from the cache,
//! and which outputs need the body as it streams in.
use vstd::prelude::*;
use crate::atom::{ResponseData, StatusParts, opt_json_view};
use crate::cache::str_or_empty;
use crate::config::pairs_view;
use crate::json::{Json, JsonV, ObjV, entries_view, lemma_entries_view, obj_put};
use crate::plan::raw_headers;
use crate::request::{Dest, DestV, outputs_inserted};
use crate::atom::{Format, FormatV};
use crate::text::{decimal, owned, push_str, u64_to_decimal, lemma_u16_decimal};

verus! {

/// What an HTTP status shows after its code: the reason phrase, or a placeholder for a
/// code that has none.
pub open spec fn reason_text(reason: Option<Seq<char>>) -> Seq<char> {
    match reason {
        Some(r) => r,
        None => "<unknown status code>"@,
    }
}

/// The header block of a cached response: each value that is a string, as it is; any
/// other value as nothing.
pub open spec fn cached_header_lines(h: ObjV) -> Seq<(Seq<char>, Seq<char>)> {
    h.map_values(|e: (Seq<char>, JsonV)| (e.0, str_or_empty(e.1)))
}

fn header_block(h: &Vec<(String, String)>) -> (r: String)
    ensures
        r@ == raw_headers(pairs_view(h@)),
{
    proof {
        reveal_strlit(": ");
        reveal_strlit("\r\n");
    }
    let mut r = String::new();
    let mut i: usize = 0;
    while i < h.len()
        invariant
            i <= h@.len(),
            r@ == raw_headers(pairs_view(h@).take(i as int)),
        decreases h@.len() - i,
    {
        proof {
            assert(pairs_view(h@).take(i + 1).drop_last() == pairs_view(h@).take(i as int));
            assert(pairs_view(h@).take(i + 1).last() == (h@[i as int].0@, h@[i as int].1@));
        }
        push_str(&mut r, h[i].0.as_str());
        push_str(&mut r, ": ");
        push_str(&mut r, h[i].1.as_str());
        push_str(&mut r, "\r\n");
        i = i + 1;
    }
    assert(pairs_view(h@).take(h@.len() as int) == pairs_view(h@));
    r
}

fn header_object(h: &Vec<(String, String)>) -> (r: Vec<(String, Json)>)
    ensures
        entries_view(r@) == outputs_inserted(Seq::empty(), pairs_view(h@)),
{
    let mut d: Vec<(String, Json)> = Vec::new();
    proof {
        lemma_entries_view(d@);
    }
    let ghost d0 = entries_view(d@);
    let mut i: usize = 0;
    while i < h.len()
        invariant
            i <= h@.len(),
            d0 == Seq::<(Seq<char>, JsonV)>::empty(),
            entries_view(d@) == outputs_inserted(d0, pairs_view(h@).take(i as int)),
        decreases h@.len() - i,
    {
        proof {
            assert(pairs_view(h@).take(i + 1).drop_last() == pairs_view(h@).take(i as int));
            assert(pairs_view(h@).take(i + 1).last() == (h@[i as int].0@, h@[i as int].1@));
            lemma_entries_view(d@);
        }
        obj_put(&mut d, h[i].0.clone(), Json::Str(h[i].1.clone()));
        proof {
            lemma_entries_view(d@);
        }
        i = i + 1;
    }
    assert(pairs_view(h@).take(h@.len() as int) == pairs_view(h@));
    d
}

/// A response as received: `version` as the protocol names it (`HTTP/1.1`), the status
/// code and its reason phrase, the headers in arrival order (a repeated name appears
/// once in the object, with its last value), and the body.
pub fn live_response(
    version: &str,
    code: u16,
    reason: Option<&str>,
    headers: &Vec<(String, String)>,
    body: Vec<u8>,
) -> (r: ResponseData)
    ensures
        r.wf(),
        r.status_line@ == version@ + " "@ + decimal(code as nat) + " "@ + reason_text(
            match reason {
                Some(t) => Some(t@),
                None => None,
            },
        ),
        r.status_parts.code@ == decimal(code as nat),
        r.status_parts.text@ == match reason {
            Some(t) => t@,
            None => Seq::empty(),
        },
        r.status_parts.version@ == version@,
        r.headers_raw@ == raw_headers(pairs_view(headers@)),
        entries_view(r.headers_json@) == outputs_inserted(Seq::empty(), pairs_view(headers@)),
        r.body_bytes@ == body@,
{
    proof {
        lemma_u16_decimal(code);
    }
    let code_text = u64_to_decimal(code as u64);
    let mut line = owned(version);
    push_str(&mut line, " ");
    push_str(&mut line, code_text.as_str());
    push_str(&mut line, " ");
    let text = match reason {
        Some(t) => {
            push_str(&mut line, t);
            owned(t)
        },
        None => {
            push_str(&mut line, "<unknown status code>");
            String::new()
        },
    };
    ResponseData {
        status_line: line,
        status_parts: StatusParts { code: code_text, text, version: owned(version) },
        headers_raw: header_block(headers),
        headers_json: header_object(headers),
        body_bytes: body,
    }
}

/// A response read back from the cache: an `HTTP/1.1` status line with the code alone,
/// the stored headers (string values shown in the header block, others as nothing), the
/// stored body.
pub fn cached_response(
    status: u16,
    headers: Vec<(String, Json)>,
    body: Vec<u8>,
) -> (r: ResponseData)
    ensures
        r.wf(),
        r.status_line@ == "HTTP/1.1 "@ + decimal(status as nat),
        r.status_parts.code@ == decimal(status as nat),
        r.status_parts.text@ == Seq::<char>::empty(),
        r.status_parts.version@ == "HTTP/1.1"@,
        r.headers_raw@ == raw_headers(cached_header_lines(entries_view(headers@))),
        entries_view(r.headers_json@) == entries_view(headers@),
        r.body_bytes@ == body@,
{
    proof {
        lemma_u16_decimal(status);
        reveal_strlit(": ");
        reveal_strlit("\r\n");
        lemma_entries_view(headers@);
    }
    let code_text = u64_to_decimal(status as u64);
    let mut line = owned("HTTP/1.1 ");
    push_str(&mut line, code_text.as_str());
    let mut raw = String::new();
    let mut i: usize = 0;
    let ghost lines = cached_header_lines(entries_view(headers@));
    while i < headers.len()
        invariant
            i <= headers@.len(),
            lines == cached_header_lines(entries_view(headers@)),
            entries_view(headers@).len() == headers@.len(),
            forall|j: int| 0 <= j < headers@.len() ==> #[trigger] entries_view(headers@)[j] == (headers@[j].0@, headers@[j].1@),
            raw@ == raw_headers(lines.take(i as int)),
        decreases headers@.len() - i,
    {
        proof {
            assert(lines.take(i + 1).drop_last() == lines.take(i as int));
            assert(lines.take(i + 1).last() == (headers@[i as int].0@, str_or_empty(headers@[i as int].1@)));
        }
        push_str(&mut raw, headers[i].0.as_str());
        push_str(&mut raw, ": ");
        match &headers[i].1 {
            Json::Str(s) => push_str(&mut raw, s.as_str()),
            _ => {},
        }
        push_str(&mut raw, "\r\n");
        i = i + 1;
    }
    assert(lines.take(headers@.len() as int) == lines);
    ResponseData {
        status_line: line,
        status_parts: StatusParts { code: code_text, text: String::new(), version: owned("HTTP/1.1") },
        headers_raw: raw,
        headers_json: headers,
        body_bytes: body,
    }
}

/// A response found in the cache: its status code, headers and body.
pub struct StoredResponse {
    pub status: u16,
    pub headers: Vec<(String, Json)>,
    pub body: Vec<u8>,
}

/// What happens to a request once its cache has been asked.
pub enum CacheStep {
    /// Render the outputs from this response; nothing is sent.
    Answer(ResponseData),
    /// Send the request.
    Send,
}

/// The step after a cache lookup: a stored response answers the request without
/// sending it, rendered from what was stored; without one the request is sent.
pub fn cache_step(hit: Option<StoredResponse>) -> (r: CacheStep)
    ensures
        match hit {
            None => r is Send,
            Some(h) => r matches CacheStep::Answer(resp) && resp.wf()
                && resp.status_line@ == "HTTP/1.1 "@ + decimal(h.status as nat)
                && resp.status_parts.code@ == decimal(h.status as nat)
                && resp.status_parts.text@ == Seq::<char>::empty()
                && resp.status_parts.version@ == "HTTP/1.1"@
                && resp.headers_raw@ == raw_headers(cached_header_lines(entries_view(h.headers@)))
                && entries_view(resp.headers_json@) == entries_view(h.headers@)
                && resp.body_bytes@ == h.body@,
        },
{
    match hit {
        Some(h) => CacheStep::Answer(cached_response(h.status, h.headers, h.body)),
        None => CacheStep::Send,
    }
}

/// A destination written while the body arrives.
pub open spec fn is_streaming(d: DestV) -> bool {
    d is FileStream || d is StdoutStream || d is StderrStream
}

/// Whether any output is written while the body arrives.
pub fn has_stream(outputs: &Vec<(Dest, Format)>) -> (r: bool)
    ensures
        r == exists|i: int| 0 <= i < outputs@.len() && is_streaming(#[trigger] outputs@[i].0@),
{
    let mut i: usize = 0;
    while i < outputs.len()
        invariant
            i <= outputs@.len(),
            forall|j: int| 0 <= j < i ==> !is_streaming(#[trigger] outputs@[j].0@),
        decreases outputs@.len() - i,
    {
        match &outputs[i].0 {
            Dest::FileStream(_) | Dest::StdoutStream | Dest::StderrStream => {
                assert(is_streaming(outputs@[i as int].0@));
                return true;
            },
            _ => {},
        }
        i = i + 1;
    }
    false
}

/// Whether the streamed body must also be kept whole: for the cache, or for an output
/// written after the body has arrived.
pub fn needs_body_buffer(outputs: &Vec<(Dest, Format)>, caching: bool) -> (r: bool)
    ensures
        r == (caching || exists|i: int| 0 <= i < outputs@.len() && !is_streaming(#[trigger] outputs@[i].0@)),
{
    if caching {
        return true;
    }
    let mut i: usize = 0;
    while i < outputs.len()
        invariant
            i <= outputs@.len(),
            forall|j: int| 0 <= j < i ==> is_streaming(#[trigger] outputs@[j].0@),
        decreases outputs@.len() - i,
    {
        match &outputs[i].0 {
            Dest::FileStream(_) | Dest::StdoutStream | Dest::StderrStream => {},
            _ => {
                assert(!is_streaming(outputs@[i as int].0@));
                return true;
            },
        }
        i = i + 1;
    }
    false
}

} // verus!

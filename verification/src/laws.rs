//! Properties of the library as a whole, proved over the specifications that the
//! functions' contracts use.
use vstd::prelude::*;
use crate::cache::{CacheKeyV, hex_text, key_material, part_bytes};
use crate::trusted::sha256_digest;
use crate::config::{
    ConfigV, RuleV, api_url, merged, prepared_headers, resolved_headers, rule_outcome, rules_applied,
    with_scheme, config_parsed, headers_field, QueryArrayV,
};
use crate::error::{RequestErrorV, error_text};
use crate::env::{EnvV, env_expanded, var_reference};
use crate::json::{JsonV, ObjV, keys_unique, obj_get, obj_index, obj_insert, lemma_obj_index, lemma_obj_index_first, lemma_obj_index_none};
use crate::text::{occurs_at, occurs_in, is_prefix, is_suffix, char_index, lemma_char_index, trim_trailing};
use crate::config::{alias_expanded, pair_get};
use crate::request::{DestV, auto_streamed, unique_template};
use crate::atom::{AtomV, FormatV, atom_list, atom_named, format_parsed};
use crate::glob::{GlobTok, glob_parts, glob_result, glob_scan, glob_split};
use vstd::utf8::encode_utf8;
use crate::plan::planned_outputs;
use crate::yaml_util::{
    block_scalar, dq_escape, dq_escape_char, dq_unescape, flow_scalar, sq_escape, sq_unescape,
    yaml_quoting_needed, flow_or_control,
};
use crate::input::fed;
use crate::yaml_util::reserved_word;
use crate::request::method_named;
use crate::trusted::ascii_upper;
use crate::format_json::{indent_text, pretty_item, pretty_items, pretty_member, pretty_members, pretty_text};
use crate::trusted::json_string_literal;
use crate::text::trim;
use crate::config::md_condition_holds;
use crate::driver::{DriverV, EffectV, InputV, after_input, after_pop, no_more_message};

verus! {

/// After inserting `k`, looking `k` up gives the inserted value.
pub proof fn law_get_after_insert(o: ObjV, k: Seq<char>, v: JsonV)
    ensures
        obj_get(obj_insert(o, k, v), k) == Some(v),
{
    lemma_obj_index(o, k);
    match obj_index(o, k) {
        Some(i) => {
            let u = o.update(i, (k, v));
            assert forall|j: int| 0 <= j < i implies u[j].0 != k by {}
            lemma_obj_index_first(u, k, i);
        },
        None => {
            let u = o.push((k, v));
            assert forall|j: int| 0 <= j < o.len() implies u[j].0 != k by {}
            lemma_obj_index_first(u, k, o.len() as int);
        },
    }
}

/// Inserting `k` leaves every other key's value as it was.
pub proof fn law_insert_keeps_others(o: ObjV, k: Seq<char>, v: JsonV, k2: Seq<char>)
    requires
        k2 != k,
    ensures
        obj_get(obj_insert(o, k, v), k2) == obj_get(o, k2),
{
    lemma_obj_index(o, k);
    lemma_obj_index(o, k2);
    let u = obj_insert(o, k, v);
    match obj_index(o, k2) {
        Some(i) => {
            assert forall|j: int| 0 <= j < i implies u[j].0 != k2 by {}
            assert(u[i] == o[i]);
            lemma_obj_index_first(u, k2, i);
        },
        None => {
            assert forall|j: int| 0 <= j < u.len() implies u[j].0 != k2 by {
                if j < o.len() {
                    assert(u[j].0 == o[j].0 || u[j].0 == k);
                }
            }
            lemma_obj_index_none(u, k2);
        },
    }
}

/// Merging keeps the values of keys that the merged object does not hold.
pub proof fn law_merge_keeps_absent(base: ObjV, extra: ObjV, k: Seq<char>)
    requires
        forall|i: int| 0 <= i < extra.len() ==> extra[i].0 != k,
    ensures
        obj_get(merged(base, extra), k) == obj_get(base, k),
    decreases extra.len(),
{
    if extra.len() > 0 {
        law_merge_keeps_absent(base, extra.drop_last(), k);
        law_insert_keeps_others(merged(base, extra.drop_last()), extra.last().0, extra.last().1, k);
    }
}

/// Merging an object gives each of its keys its value there: later values replace
/// earlier ones.
pub proof fn law_merge_overrides(base: ObjV, extra: ObjV, k: Seq<char>, v: JsonV)
    requires
        keys_unique(extra),
        obj_get(extra, k) == Some(v),
    ensures
        obj_get(merged(base, extra), k) == Some(v),
    decreases extra.len(),
{
    lemma_obj_index(extra, k);
    let i = obj_index(extra, k)->Some_0;
    if i == extra.len() - 1 {
        law_get_after_insert(merged(base, extra.drop_last()), k, v);
    } else {
        let p = extra.drop_last();
        assert(p[i] == extra[i]);
        assert forall|j: int| 0 <= j < i implies p[j].0 != k by {
            assert(p[j] == extra[j]);
        }
        lemma_obj_index_first(p, k, i);
        assert(keys_unique(p)) by {
            assert forall|a: int, b: int| 0 <= a < b < p.len() implies p[a].0 != p[b].0 by {
                assert(p[a] == extra[a] && p[b] == extra[b]);
            }
        }
        law_merge_overrides(base, p, k, v);
        assert(extra.last().0 != k) by {
            assert(extra[extra.len() - 1].0 != extra[i].0);
        }
        law_insert_keeps_others(merged(base, p), extra.last().0, extra.last().1, k);
    }
}

/// A request's own headers take precedence over the configuration's defaults and its
/// rules' headers.
pub proof fn law_request_headers_win(
    c: ConfigV,
    method: Seq<char>,
    url: Seq<char>,
    md: Option<JsonV>,
    h: ObjV,
    env: EnvV,
    k: Seq<char>,
    v: JsonV,
)
    requires
        prepared_headers(h, env) matches Ok(x) && keys_unique(x) && obj_get(x, k) == Some(v),
    ensures
        resolved_headers(c, method, url, md, Some(JsonV::Object(h)), env) matches Ok(r) && obj_get(r, k) == Some(v),
{
    let x = prepared_headers(h, env)->Ok_0;
    law_merge_overrides(rules_applied(c.default_headers, c.rules, method, url, md), x, k, v);
}

/// Without matching rules and request headers, a request gets exactly the default
/// headers.
pub proof fn law_defaults_when_nothing_matches(c: ConfigV, method: Seq<char>, url: Seq<char>, md: Option<JsonV>, env: EnvV)
    requires
        forall|i: int| 0 <= i < c.rules.len() ==> rule_outcome(#[trigger] c.rules[i], method, url, md) != Some(true),
    ensures
        resolved_headers(c, method, url, md, None, env) == Ok::<ObjV, Seq<char>>(c.default_headers),
{
    lemma_no_rule_applies(c.default_headers, c.rules, method, url, md);
}

proof fn lemma_no_rule_applies(base: ObjV, rules: Seq<RuleV>, method: Seq<char>, url: Seq<char>, md: Option<JsonV>)
    requires
        forall|i: int| 0 <= i < rules.len() ==> rule_outcome(#[trigger] rules[i], method, url, md) != Some(true),
    ensures
        rules_applied(base, rules, method, url, md) == base,
    decreases rules.len(),
{
    if rules.len() > 0 {
        let p = rules.drop_last();
        assert forall|i: int| 0 <= i < p.len() implies rule_outcome(#[trigger] p[i], method, url, md) != Some(true) by {
            assert(p[i] == rules[i]);
        }
        lemma_no_rule_applies(base, p, method, url, md);
        assert(rule_outcome(rules[rules.len() - 1], method, url, md) != Some(true));
    }
}

/// When the last rule matches, its headers win over the defaults and the earlier rules.
pub proof fn law_last_matching_rule_wins(c: ConfigV, method: Seq<char>, url: Seq<char>, md: Option<JsonV>, env: EnvV, k: Seq<char>, v: JsonV)
    requires
        c.rules.len() > 0,
        rule_outcome(c.rules.last(), method, url, md) == Some(true),
        keys_unique(c.rules.last().headers),
        obj_get(c.rules.last().headers, k) == Some(v),
    ensures
        resolved_headers(c, method, url, md, None, env) matches Ok(r) && obj_get(r, k) == Some(v),
{
    law_merge_overrides(
        rules_applied(c.default_headers, c.rules.drop_last(), method, url, md),
        c.rules.last().headers,
        k,
        v,
    );
}

/// The value of the last member of `o` with key `k`: the one a JSON reader keeps
/// when a key occurs more than once.
pub open spec fn obj_last(o: ObjV, k: Seq<char>) -> Option<JsonV>
    decreases o.len(),
{
    if o.len() == 0 {
        None
    } else if o.last().0 == k {
        Some(o.last().1)
    } else {
        obj_last(o.drop_last(), k)
    }
}

/// In an object whose keys are unique, the last member with a key is the only one.
pub proof fn law_last_is_only(o: ObjV, k: Seq<char>)
    requires
        keys_unique(o),
    ensures
        obj_last(o, k) == obj_get(o, k),
    decreases o.len(),
{
    lemma_obj_index(o, k);
    if o.len() > 0 {
        let p = o.drop_last();
        assert(keys_unique(p)) by {
            assert forall|i: int, j: int| 0 <= i < j < p.len() implies p[i].0 != p[j].0 by {
                assert(p[i] == o[i] && p[j] == o[j]);
            }
        }
        law_last_is_only(p, k);
        lemma_obj_index(p, k);
        if o.last().0 == k {
            assert forall|i: int| 0 <= i < o.len() - 1 implies o[i].0 != k by {
                assert(o[i].0 != o[o.len() - 1].0);
            }
            lemma_obj_index_first(o, k, o.len() - 1);
        } else {
            match obj_index(p, k) {
                Some(i) => {
                    assert forall|j: int| 0 <= j < i implies o[j].0 != k by {
                        assert(o[j] == p[j]);
                    }
                    assert(o[i] == p[i]);
                    lemma_obj_index_first(o, k, i);
                },
                None => {
                    assert forall|j: int| 0 <= j < o.len() implies o[j].0 != k by {
                        if j < p.len() {
                            assert(o[j] == p[j]);
                        }
                    }
                    lemma_obj_index_none(o, k);
                },
            }
        }
    }
}

/// Merging an object into another gives each key the value of the merged object's
/// last member with that key, and leaves every other key as it was.
pub proof fn law_merge_gives_last(base: ObjV, extra: ObjV, k: Seq<char>)
    ensures
        obj_get(merged(base, extra), k) == match obj_last(extra, k) {
            Some(v) => Some(v),
            None => obj_get(base, k),
        },
    decreases extra.len(),
{
    if extra.len() > 0 {
        law_merge_gives_last(base, extra.drop_last(), k);
        if extra.last().0 == k {
            law_get_after_insert(merged(base, extra.drop_last()), k, extra.last().1);
        } else {
            law_insert_keeps_others(merged(base, extra.drop_last()), extra.last().0, extra.last().1, k);
        }
    }
}

/// The value that the matching rules give header `k`: that of the last matching rule
/// whose headers hold `k`.
pub open spec fn rule_header(rules: Seq<RuleV>, method: Seq<char>, url: Seq<char>, md: Option<JsonV>, k: Seq<char>) -> Option<JsonV>
    decreases rules.len(),
{
    if rules.len() == 0 {
        None
    } else if rule_outcome(rules.last(), method, url, md) == Some(true) && obj_last(rules.last().headers, k) is Some {
        obj_last(rules.last().headers, k)
    } else {
        rule_header(rules.drop_last(), method, url, md, k)
    }
}

proof fn lemma_rules_applied_get(base: ObjV, rules: Seq<RuleV>, method: Seq<char>, url: Seq<char>, md: Option<JsonV>, k: Seq<char>)
    ensures
        obj_get(rules_applied(base, rules, method, url, md), k) == match rule_header(rules, method, url, md, k) {
            Some(v) => Some(v),
            None => obj_get(base, k),
        },
    decreases rules.len(),
{
    if rules.len() > 0 {
        let p = rules.drop_last();
        lemma_rules_applied_get(base, p, method, url, md, k);
        if rule_outcome(rules.last(), method, url, md) == Some(true) {
            law_merge_gives_last(rules_applied(base, p, method, url, md), rules.last().headers, k);
        }
    }
}

/// The request's own headers as a source of headers: its `h` object with variables
/// resolved and shortcuts expanded; none when it has no `h` object.
pub open spec fn request_header_source(req: Option<JsonV>, env: EnvV) -> Result<ObjV, Seq<char>> {
    match req {
        Some(JsonV::Object(h)) => prepared_headers(h, env),
        _ => Ok(Seq::empty()),
    }
}

/// Every header of a request comes from its highest-precedence source: the request's
/// own headers (variables resolved, shortcuts expanded) first, then the last matching
/// rule that sets it, then the defaults; a key that none of them sets is absent.
/// Where a variable of the request's headers cannot be resolved, that is the error.
pub proof fn law_header_precedence(
    c: ConfigV,
    method: Seq<char>,
    url: Seq<char>,
    md: Option<JsonV>,
    req: Option<JsonV>,
    env: EnvV,
    k: Seq<char>,
)
    ensures
        match request_header_source(req, env) {
            Ok(x) => resolved_headers(c, method, url, md, req, env) matches Ok(r) && obj_get(r, k) == match obj_last(x, k) {
                Some(v) => Some(v),
                None => match rule_header(c.rules, method, url, md, k) {
                    Some(v) => Some(v),
                    None => obj_get(c.default_headers, k),
                },
            },
            Err(e) => resolved_headers(c, method, url, md, req, env) == Err::<ObjV, Seq<char>>(e),
        },
{
    let base = rules_applied(c.default_headers, c.rules, method, url, md);
    lemma_rules_applied_get(c.default_headers, c.rules, method, url, md, k);
    match req {
        Some(JsonV::Object(h)) => {
            if let Ok(x) = prepared_headers(h, env) {
                law_merge_gives_last(base, x, k);
            }
        },
        _ => {},
    }
}

/// A rule without conditions matches every request.
pub proof fn law_unconditional_rule_matches(rule: RuleV, method: Seq<char>, url: Seq<char>, md: Option<JsonV>)
    requires
        rule.match_url is None,
        rule.match_method is None,
        rule.match_md.len() == 0,
    ensures
        rule_outcome(rule, method, url, md) == Some(true),
{
}

/// A cache key does not depend on the body unless the body is one of its parts.
pub proof fn law_cache_key_ignores_unlisted_body(
    keys: Seq<CacheKeyV>,
    method: Seq<char>,
    url: Seq<char>,
    b1: Option<JsonV>,
    b2: Option<JsonV>,
    headers: ObjV,
)
    requires
        forall|i: int| 0 <= i < keys.len() ==> !(#[trigger] keys[i] is Body),
    ensures
        key_material(keys, method, url, b1, headers) == key_material(keys, method, url, b2, headers),
        hex_text(sha256_digest(key_material(keys, method, url, b1, headers))) == hex_text(
            sha256_digest(key_material(keys, method, url, b2, headers)),
        ),
    decreases keys.len(),
{
    if keys.len() > 0 {
        let p = keys.drop_last();
        assert forall|i: int| 0 <= i < p.len() implies !(#[trigger] p[i] is Body) by {
            assert(p[i] == keys[i]);
        }
        law_cache_key_ignores_unlisted_body(p, method, url, b1, b2, headers);
        assert(!(keys[keys.len() - 1] is Body));
    }
}

/// A cache key does not depend on the headers unless `a`, `h` or `h.<name>` is one of
/// its parts.
pub proof fn law_cache_key_ignores_unlisted_headers(
    keys: Seq<CacheKeyV>,
    method: Seq<char>,
    url: Seq<char>,
    body: Option<JsonV>,
    h1: ObjV,
    h2: ObjV,
)
    requires
        forall|i: int| 0 <= i < keys.len() ==> (#[trigger] keys[i] is Method || keys[i] is Url || keys[i] is Body),
    ensures
        key_material(keys, method, url, body, h1) == key_material(keys, method, url, body, h2),
        hex_text(sha256_digest(key_material(keys, method, url, body, h1))) == hex_text(
            sha256_digest(key_material(keys, method, url, body, h2)),
        ),
    decreases keys.len(),
{
    if keys.len() > 0 {
        let p = keys.drop_last();
        assert forall|i: int| 0 <= i < p.len() implies (#[trigger] p[i] is Method || p[i] is Url || p[i] is Body) by {
            assert(p[i] == keys[i]);
        }
        law_cache_key_ignores_unlisted_headers(p, method, url, body, h1, h2);
        let l = keys[keys.len() - 1];
        assert(l is Method || l is Url || l is Body);
    }
}

/// Every expanded request URL has a scheme.
pub proof fn law_expanded_url_has_scheme(url: Seq<char>, apis: Seq<(Seq<char>, Seq<char>)>)
    ensures
        occurs_in(api_url(url, apis), "://"@),
{
    let e = crate::config::alias_expanded(url, apis);
    if !occurs_in(e, "://"@) {
        reveal_strlit("http://");
        reveal_strlit("https://");
        reveal_strlit("://");
        let r = with_scheme(e);
        if r == "http://"@ + e {
            assert(r.subrange(4, 7) =~= "://"@);
            assert(occurs_at(r, "://"@, 4));
        } else {
            assert(r == "https://"@ + e);
            assert(r.subrange(5, 8) =~= "://"@);
            assert(occurs_at(r, "://"@, 5));
        }
    }
}

/// Completing a scheme twice changes nothing more.
pub proof fn law_scheme_idempotent(url: Seq<char>)
    ensures
        with_scheme(with_scheme(url)) == with_scheme(url),
{
    law_expanded_url_has_scheme(url, Seq::empty());
    let e = crate::config::alias_expanded(url, Seq::<(Seq<char>, Seq<char>)>::empty());
    assert(crate::config::pair_get(Seq::<(Seq<char>, Seq<char>)>::empty(), Seq::empty()) is None);
    if let Some(pos) = crate::text::char_index(url, '!') {
        let name = url.take(pos);
        assert(crate::config::pair_get(Seq::<(Seq<char>, Seq<char>)>::empty(), name) is None);
    }
    assert(e == url);
}

/// The plain text of an error holds its message.
pub proof fn law_error_text_holds_message(e: RequestErrorV)
    ensures
        occurs_in(error_text(e), match e {
            RequestErrorV::Parse { msg, .. } => msg,
            RequestErrorV::Structure { msg } => msg,
            RequestErrorV::Network { msg } => msg,
            RequestErrorV::Url { msg, .. } => msg,
        }),
{
    reveal_strlit("parse error: ");
    reveal_strlit("network error: ");
    reveal_strlit("URL error: ");
    match e {
        RequestErrorV::Parse { msg, line, column, .. } => {
            let t = error_text(e);
            let n = "parse error: "@.len();
            assert(t.subrange(n as int, (n + msg.len()) as int) =~= msg);
            assert(occurs_at(t, msg, n as int));
        },
        RequestErrorV::Structure { msg } => {
            assert(error_text(e).subrange(0, msg.len() as int) =~= msg);
            assert(occurs_at(error_text(e), msg, 0));
        },
        RequestErrorV::Network { msg } => {
            let t = error_text(e);
            let n = "network error: "@.len();
            assert(t.subrange(n as int, (n + msg.len()) as int) =~= msg);
            assert(occurs_at(t, msg, n as int));
        },
        RequestErrorV::Url { url, msg } => {
            let t = error_text(e);
            let n = "URL error: "@.len();
            assert(t.subrange(n as int, (n + msg.len()) as int) =~= msg);
            assert(occurs_at(t, msg, n as int));
        },
    }
}

/// A header value that is not a whole `$NAME` reference is left as it is.
pub proof fn law_plain_values_unchanged(s: Seq<char>, env: EnvV)
    requires
        var_reference(s) is None,
    ensures
        env_expanded(JsonV::Str(s), env) == Ok::<JsonV, Seq<char>>(JsonV::Str(s)),
{
}


/// An alias name that is not configured passes through unchanged.
pub proof fn law_unknown_alias_unchanged(url: Seq<char>, apis: Seq<(Seq<char>, Seq<char>)>)
    requires
        char_index(url, '!') matches Some(pos) && pair_get(apis, url.take(pos)) is None,
    ensures
        alias_expanded(url, apis) == url,
{
}

/// With requests run one at a time, a raw body always streams, to any destination.
pub proof fn law_raw_body_streams_when_sequential(d: DestV)
    ensures
        ({
            let r = auto_streamed(d, FormatV::Raw(AtomV::B), false);
            r is StdoutStream || r is StderrStream || r is FileStream
        }),
{
}

/// A raw body to a file path holding `{{idx}}` streams, also when requests run
/// concurrently.
pub proof fn law_indexed_paths_stream(p: Seq<char>, concurrent: bool)
    requires
        unique_template(p),
    ensures
        auto_streamed(DestV::FilePath(p), FormatV::Raw(AtomV::B), concurrent) == DestV::FileStream(p),
{
}

/// Only a raw body is ever promoted to streaming.
pub proof fn law_only_raw_bodies_stream(d: DestV, fmt: FormatV, concurrent: bool)
    requires
        fmt != FormatV::Raw(AtomV::B),
    ensures
        auto_streamed(d, fmt, concurrent) == d,
{
}

proof fn lemma_double_star_scan(t: Seq<u8>, i: nat)
    requires
        i <= t.len(),
    ensures
        glob_scan(seq![GlobTok::DoubleStar], 0, t, i, false) == Some(true),
    decreases t.len() - i,
{
    let parts = seq![GlobTok::DoubleStar];
    assert(glob_parts(parts, 1, t.skip(i as int)) == Some(t.skip(i as int).len() == 0));
    if i < t.len() {
        lemma_double_star_scan(t, i + 1);
    }
}

/// `**` matches every text.
pub proof fn law_double_star_matches_all(text: Seq<char>)
    ensures
        glob_result("**"@, text) == Some(true),
{
    reveal_strlit("**");
    assert("**"@ =~= seq!['*', '*']);
    assert(vstd::utf8::is_ascii_chars("**"@));
    vstd::utf8::is_ascii_chars_encode_utf8("**"@);
    let p = encode_utf8("**"@);
    assert(p[0] == ('*' as u8));
    assert(p[1] == ('*' as u8));
    assert(p =~= seq![42u8, 42u8]);
    assert(p.skip(2) =~= Seq::<u8>::empty());
    assert(glob_split(p.skip(2)) =~= Seq::<GlobTok>::empty());
    assert(glob_split(p) =~= seq![GlobTok::DoubleStar]);
    lemma_double_star_scan(encode_utf8(text), 0);
}

/// A `/` byte at a position from which a single `*` scanning at `i` can still reach it.
pub open spec fn slash_ahead(t: Seq<u8>, i: nat) -> bool {
    exists|k: int| (if i > 0 { i - 1 } else { 0 }) <= k < t.len() && #[trigger] t[k] == 47u8
}

proof fn lemma_star_scan(t: Seq<u8>, i: nat)
    requires
        i <= t.len(),
    ensures
        glob_scan(seq![GlobTok::Star], 0, t, i, true) == Some(!slash_ahead(t, i)),
    decreases t.len() - i,
{
    let parts = seq![GlobTok::Star];
    assert(glob_parts(parts, 1, t.skip(i as int)) == Some(t.skip(i as int).len() == 0));
    if i > 0 && t[i - 1] == 47u8 {
        assert(slash_ahead(t, i));
    } else if i == t.len() {
        if slash_ahead(t, i) {
            let k = choose|k: int| (if i > 0 { i - 1 } else { 0 }) <= k < t.len() && #[trigger] t[k] == 47u8;
            assert(k == i - 1);
        }
    } else {
        lemma_star_scan(t, i + 1);
        if slash_ahead(t, i) {
            let k = choose|k: int| (if i > 0 { i - 1 } else { 0 }) <= k < t.len() && #[trigger] t[k] == 47u8;
            if i > 0 {
                assert(k != i - 1);
            }
            assert(slash_ahead(t, i + 1));
        }
        if slash_ahead(t, i + 1) {
            let k = choose|k: int| i <= k < t.len() && #[trigger] t[k] == 47u8;
            assert(slash_ahead(t, i));
        }
    }
}

/// A single `*` matches a text exactly when the text's bytes hold no `/`.
pub proof fn law_star_stays_in_segment(text: Seq<char>)
    ensures
        glob_result("*"@, text) == Some(!encode_utf8(text).contains(47u8)),
        vstd::utf8::is_ascii_chars(text) ==> glob_result("*"@, text) == Some(!text.contains('/')),
{
    reveal_strlit("*");
    assert("*"@ =~= seq!['*']);
    assert(vstd::utf8::is_ascii_chars("*"@));
    vstd::utf8::is_ascii_chars_encode_utf8("*"@);
    let p = encode_utf8("*"@);
    assert(p[0] == ('*' as u8));
    assert(p =~= seq![42u8]);
    assert(p.skip(1) =~= Seq::<u8>::empty());
    assert(glob_split(p.skip(1)) =~= Seq::<GlobTok>::empty());
    assert(glob_split(p) =~= seq![GlobTok::Star]);
    let t = encode_utf8(text);
    lemma_star_scan(t, 0);
    if t.contains(47u8) {
        let k = choose|k: int| 0 <= k < t.len() && t[k] == 47u8;
        assert(slash_ahead(t, 0));
    }
    if slash_ahead(t, 0) {
        let k = choose|k: int| 0 <= k < t.len() && #[trigger] t[k] == 47u8;
        assert(t.contains(47u8));
    }
    if vstd::utf8::is_ascii_chars(text) {
        vstd::utf8::is_ascii_chars_encode_utf8(text);
        if text.contains('/') {
            let j = choose|j: int| 0 <= j < text.len() && text[j] == '/';
            assert(t[j] == text[j] as u8);
            assert(t.contains(47u8));
        }
        if t.contains(47u8) {
            let k = choose|k: int| 0 <= k < t.len() && t[k] == 47u8;
            assert(t[k] == text[k] as u8);
            assert(text[k] == '/');
        }
    }
}

/// Every input leaves the last popped request as it was: `.repop` recalls it whether
/// it was sent, edited or discarded since.
pub proof fn law_inputs_keep_last_popped(
    d: DriverV,
    input: InputV,
    texts: (Seq<char>, Seq<char>, Seq<char>, Seq<char>),
    summary: Seq<char>,
)
    ensures
        after_input(d, input, texts, summary).0.last_popped == d.last_popped,
{
}

/// `.repop` at a plain prompt pre-fills the last popped request.
pub proof fn law_repop_recalls_last_pop(
    d: DriverV,
    req: Seq<char>,
    texts: (Seq<char>, Seq<char>, Seq<char>, Seq<char>),
    summary: Seq<char>,
)
    requires
        d.last_popped == Some(req),
        d.in_flight is None,
        d.yaml_buf is None,
        d.prefill is None,
    ensures
        after_input(d, InputV::Text(".repop"@), texts, summary).0.prefill == Some(req),
        after_input(d, InputV::Text(".repop"@), texts, summary).1 == seq![
            EffectV::AddHistory(".repop"@),
            EffectV::Prefill(req),
        ],
{
    reveal_strlit(".repop");
    reveal_strlit(".");
    reveal_strlit("{");
    crate::text::lemma_trim_plain(".repop"@);
    assert(".repop"@.subrange(0, 1) =~= "."@);
    assert(is_prefix("."@, ".repop"@));
    assert(".repop"@ != ".help"@ && ".repop"@ != ".h"@) by {
        reveal_strlit(".help");
        reveal_strlit(".h");
    }
    assert(".repop"@ != ".help x"@ && ".repop"@ != ".h x"@) by {
        reveal_strlit(".help x");
        reveal_strlit(".h x");
    }
    assert(".repop"@ != ".ref"@ && ".repop"@ != ".r"@ && ".repop"@ != ".t"@) by {
        reveal_strlit(".ref");
        reveal_strlit(".r");
        reveal_strlit(".t");
    }
    assert(".repop"@ != ".pop"@ && ".repop"@ != ".p"@) by {
        reveal_strlit(".pop");
        reveal_strlit(".p");
    }
}

/// Ctrl-C while a request is in flight cancels that request, whatever else is going on.
pub proof fn law_ctrl_c_cancels_in_flight(
    d: DriverV,
    id: usize,
    texts: (Seq<char>, Seq<char>, Seq<char>, Seq<char>),
    summary: Seq<char>,
)
    requires
        d.in_flight == Some(id),
    ensures
        after_input(d, InputV::CtrlC, texts, summary).1 == seq![EffectV::Cancel { id }],
        after_input(d, InputV::CtrlC, texts, summary).0.in_flight is None,
{
}

/// Ctrl-C at a pre-filled prompt discards the pre-filled text and shows nothing.
pub proof fn law_ctrl_c_discards_prefill(
    d: DriverV,
    texts: (Seq<char>, Seq<char>, Seq<char>, Seq<char>),
    summary: Seq<char>,
)
    requires
        d.in_flight is None,
        d.yaml_buf is None,
        d.prefill is Some,
    ensures
        after_input(d, InputV::CtrlC, texts, summary).0.prefill is None,
        after_input(d, InputV::CtrlC, texts, summary).1 == Seq::<EffectV>::empty(),
{
}

/// A completion for a request that is not in flight changes nothing and shows nothing.
pub proof fn law_stale_completion_ignored(
    d: DriverV,
    id: usize,
    stdout: Seq<char>,
    stderr: Seq<char>,
    texts: (Seq<char>, Seq<char>, Seq<char>, Seq<char>),
    summary: Seq<char>,
)
    requires
        d.in_flight != Some(id),
    ensures
        after_input(d, InputV::RequestComplete { id, stdout, stderr }, texts, summary) == (d, Seq::<EffectV>::empty()),
{
}

/// A popped request is both pre-filled and kept for `.repop`.
pub proof fn law_pop_keeps_request(d: DriverV, req: Seq<char>)
    ensures
        after_pop(d, Some(Ok(req))).0.prefill == Some(req),
        after_pop(d, Some(Ok(req))).0.last_popped == Some(req),
        after_pop(d, None).1 == seq![EffectV::Print(no_more_message())],
{
}

/// A request that names its own outputs gets exactly those: the configuration's
/// default outputs play no part.
pub proof fn law_request_outputs_replace_defaults(
    own: Seq<(Seq<char>, Seq<char>)>,
    d1: Seq<(Seq<char>, Seq<char>)>,
    d2: Seq<(Seq<char>, Seq<char>)>,
    yaml_mode: bool,
)
    requires
        own.len() > 0,
    ensures
        planned_outputs(own, d1, yaml_mode) == planned_outputs(own, d2, yaml_mode),
{
}

/// A rule matches only when every criterion it states holds: URL pattern, method and
/// each metadata field.
pub proof fn law_rule_criteria_all_hold(rule: RuleV, method: Seq<char>, url: Seq<char>, md: Option<JsonV>, i: int)
    requires
        rule_outcome(rule, method, url, md) == Some(true),
    ensures
        rule.match_url matches Some(p) ==> glob_result(p, url) == Some(true),
        rule.match_method matches Some(m) ==> m == method,
        0 <= i < rule.match_md.len() ==> md_condition_holds(rule.match_md[i], md),
{
}

/// Once the first non-blank line has fixed the input format, no later line changes it.
pub proof fn law_input_format_fixed(yaml: bool, buf: Seq<char>, line: Seq<char>)
    ensures
        fed(Some(yaml), buf, line).0 == Some(yaml),
{
}

/// In JSON-lines input every non-blank line is a document of its own, trimmed.
pub proof fn law_json_lines_are_documents(buf: Seq<char>, line: Seq<char>)
    requires
        trim(line).len() > 0,
    ensures
        fed(Some(false), buf, line).2 == Some((false, trim(line))),
{
}

/// In YAML input a `---` line ends the document gathered so far, when it holds any
/// text, and starts a new one.
pub proof fn law_yaml_separator_ends_document(buf: Seq<char>, line: Seq<char>)
    requires
        trim(line) == "---"@,
        trim(buf).len() > 0,
    ensures
        fed(Some(true), buf, line) == (Some(true), Seq::<char>::empty(), Some((true, trim(buf)))),
{
}

proof fn lemma_dq_escape_append(a: Seq<char>, b: Seq<char>)
    ensures
        dq_escape(a + b) == dq_escape(a) + dq_escape(b),
    decreases b.len(),
{
    if b.len() == 0 {
        assert(a + b =~= a);
        assert(dq_escape(a) + dq_escape(b) =~= dq_escape(a));
    } else {
        lemma_dq_escape_append(a, b.drop_last());
        assert((a + b).drop_last() =~= a + b.drop_last());
        assert((a + b).last() == b.last());
        assert(dq_escape(a) + dq_escape(b) =~= dq_escape(a) + dq_escape(b.drop_last()) + dq_escape_char(b.last()));
    }
}

proof fn lemma_dq_unescape_char(c: char, rest: Seq<char>)
    ensures
        dq_unescape(dq_escape_char(c) + rest) == seq![c] + dq_unescape(rest),
{
    let t = dq_escape_char(c) + rest;
    if c == '\\' || c == '"' || c == '\n' || c == '\r' || c == '\t' {
        assert(t[0] == '\\');
        assert(t.skip(2) =~= rest);
    } else {
        assert(t[0] == c);
        assert(t.skip(1) =~= rest);
    }
}

proof fn lemma_dq_round_trip(s: Seq<char>)
    ensures
        dq_unescape(dq_escape(s)) == s,
    decreases s.len(),
{
    if s.len() > 0 {
        let first = s.take(1);
        let rest = s.skip(1);
        assert(s =~= first + rest);
        lemma_dq_escape_append(first, rest);
        assert(first.drop_last() =~= Seq::<char>::empty());
        assert(dq_escape(first.drop_last()) =~= Seq::<char>::empty());
        assert(first.last() == s[0]);
        assert(dq_escape(first) =~= dq_escape_char(s[0]));
        lemma_dq_unescape_char(s[0], dq_escape(rest));
        lemma_dq_round_trip(rest);
        assert(seq![s[0]] + rest =~= s);
    }
}

proof fn lemma_dq_escape_no_control(s: Seq<char>)
    ensures
        forall|i: int| 0 <= i < dq_escape(s).len() ==> !flow_or_control_char(#[trigger] dq_escape(s)[i]),
    decreases s.len(),
{
    if s.len() > 0 {
        lemma_dq_escape_no_control(s.drop_last());
        let a = dq_escape(s.drop_last());
        let b = dq_escape_char(s.last());
        assert forall|i: int| 0 <= i < dq_escape(s).len() implies !flow_or_control_char(#[trigger] dq_escape(s)[i]) by {
            if i < a.len() {
                assert(dq_escape(s)[i] == a[i]);
            } else {
                assert(dq_escape(s)[i] == b[i - a.len()]);
            }
        }
    }
}

/// A line break, carriage return or tab.
pub open spec fn flow_or_control_char(c: char) -> bool {
    c == '\n' || c == '\r' || c == '\t'
}

/// A flow scalar reads back as the string it was made from: plain when no quoting is
/// needed, else double-quoted with escapes that a reader undoes; and it never holds a
/// raw line break, carriage return or tab.
pub proof fn law_flow_scalar_round_trip(s: Seq<char>)
    ensures
        (s.len() == 0 || yaml_quoting_needed(s)) ==> flow_scalar(s) == seq!['"'] + dq_escape(s) + seq!['"']
            && dq_unescape(flow_scalar(s).subrange(1, flow_scalar(s).len() - 1)) == s,
        !(s.len() == 0 || yaml_quoting_needed(s)) ==> flow_scalar(s) == s,
        forall|i: int| 0 <= i < flow_scalar(s).len() ==> !flow_or_control_char(#[trigger] flow_scalar(s)[i]),
{
    lemma_dq_escape_no_control(s);
    let f = flow_scalar(s);
    if s.len() == 0 || yaml_quoting_needed(s) {
        let e = dq_escape(s);
        assert(f.subrange(1, f.len() - 1) =~= e);
        lemma_dq_round_trip(s);
        assert forall|i: int| 0 <= i < f.len() implies !flow_or_control_char(#[trigger] f[i]) by {
            if 0 < i < f.len() - 1 {
                assert(f[i] == e[i - 1]);
            }
        }
    } else {
        assert forall|i: int| 0 <= i < f.len() implies !flow_or_control_char(#[trigger] f[i]) by {
            if flow_or_control_char(s[i]) {
                assert(flow_or_control(s[i]));
                assert(yaml_quoting_needed(s));
            }
        }
    }
}

proof fn lemma_sq_escape_append(a: Seq<char>, b: Seq<char>)
    ensures
        sq_escape(a + b) == sq_escape(a) + sq_escape(b),
    decreases b.len(),
{
    if b.len() == 0 {
        assert(a + b =~= a);
        assert(sq_escape(a) + sq_escape(b) =~= sq_escape(a));
    } else {
        lemma_sq_escape_append(a, b.drop_last());
        assert((a + b).drop_last() =~= a + b.drop_last());
        assert((a + b).last() == b.last());
        let tail = if b.last() == '\'' { seq!['\'', '\''] } else { seq![b.last()] };
        assert(sq_escape(a) + sq_escape(b) =~= sq_escape(a) + sq_escape(b.drop_last()) + tail);
    }
}

proof fn lemma_sq_round_trip(s: Seq<char>)
    ensures
        sq_unescape(sq_escape(s)) == s,
    decreases s.len(),
{
    if s.len() > 0 {
        let first = s.take(1);
        let rest = s.skip(1);
        assert(s =~= first + rest);
        lemma_sq_escape_append(first, rest);
        assert(first.drop_last() =~= Seq::<char>::empty());
        assert(sq_escape(first.drop_last()) =~= Seq::<char>::empty());
        assert(first.last() == s[0]);
        let r = sq_escape(rest);
        if s[0] == '\'' {
            assert(sq_escape(first) =~= seq!['\'', '\'']);
            let t = seq!['\'', '\''] + r;
            assert(t.skip(2) =~= r);
        } else {
            assert(sq_escape(first) =~= seq![s[0]]);
            let t = seq![s[0]] + r;
            assert(t.skip(1) =~= r);
            if t.len() >= 2 {
                assert(t[0] != '\'');
            }
        }
        lemma_sq_round_trip(rest);
        assert(seq![s[0]] + rest =~= s);
    }
}

/// A block scalar reads back as the string it was made from: plain when no quoting is
/// needed, else single-quoted with each quote doubled, which a reader undoes.
pub proof fn law_block_scalar_round_trip(s: Seq<char>)
    ensures
        (s.len() == 0 || yaml_quoting_needed(s)) ==> block_scalar(s) == seq!['\''] + sq_escape(s) + seq!['\'']
            && sq_unescape(block_scalar(s).subrange(1, block_scalar(s).len() - 1)) == s,
        !(s.len() == 0 || yaml_quoting_needed(s)) ==> block_scalar(s) == s,
{
    if s.len() == 0 || yaml_quoting_needed(s) {
        let b = block_scalar(s);
        assert(b.subrange(1, b.len() - 1) =~= sq_escape(s));
        lemma_sq_round_trip(s);
    }
}

proof fn lemma_trim_trailing_prefix(s: Seq<char>, c: char)
    ensures
        trim_trailing(s, c).len() <= s.len(),
        trim_trailing(s, c) == s.take(trim_trailing(s, c).len() as int),
    decreases s.len(),
{
    if s.len() > 0 && s.last() == c {
        lemma_trim_trailing_prefix(s.drop_last(), c);
        let t = trim_trailing(s.drop_last(), c);
        assert(s.drop_last().take(t.len() as int) =~= s.take(t.len() as int));
    } else {
        assert(s.take(s.len() as int) =~= s);
    }
}

proof fn lemma_pair_get_member(apis: Seq<(Seq<char>, Seq<char>)>, k: Seq<char>)
    ensures
        pair_get(apis, k) matches Some(v) ==> exists|i: int| 0 <= i < apis.len() && #[trigger] apis[i].1 == v,
    decreases apis.len(),
{
    if apis.len() > 0 && apis[0].0 != k {
        lemma_pair_get_member(apis.drop_first(), k);
        if let Some(v) = pair_get(apis, k) {
            let i = choose|i: int| 0 <= i < apis.drop_first().len() && #[trigger] apis.drop_first()[i].1 == v;
            assert(apis[i + 1].1 == v);
        }
    } else if apis.len() > 0 {
        assert(apis[0].1 == pair_get(apis, k)->Some_0);
    }
}

/// A URL whose text before its first `!` holds a `:` is no alias reference.
proof fn lemma_colon_before_bang(x: Seq<char>, p: int, apis: Seq<(Seq<char>, Seq<char>)>)
    requires
        0 <= p < x.len(),
        x[p] == ':',
        forall|j: int| 0 <= j <= p ==> x[j] != '!',
    ensures
        alias_expanded(x, apis) == x,
{
    lemma_char_index(x, '!');
    if let Some(pos) = char_index(x, '!') {
        let name = x.take(pos);
        assert(pos > p);
        assert(name[p] == ':');
        assert(!crate::config::alias_char(name[p]));
    }
}

/// Expanding a request URL a second time changes nothing, when every configured base
/// URL holds a scheme (before its trailing slashes) and no `!`.
pub proof fn law_api_url_idempotent(url: Seq<char>, apis: Seq<(Seq<char>, Seq<char>)>)
    requires
        forall|i: int| 0 <= i < apis.len() ==> !(#[trigger] apis[i].1).contains('!')
            && occurs_in(trim_trailing(apis[i].1, '/'), "://"@),
    ensures
        api_url(api_url(url, apis), apis) == api_url(url, apis),
        occurs_in(api_url(url, apis), "://"@),
{
    reveal_strlit("://");
    reveal_strlit("http://");
    reveal_strlit("https://");
    law_expanded_url_has_scheme(url, apis);
    let e = alias_expanded(url, apis);
    let r = api_url(url, apis);
    if e == url {
        if occurs_in(url, "://"@) {
            assert(r == url);
        } else {
            let pre_len: int = if r == "http://"@ + url { 7 } else { 8 };
            let colon: int = pre_len - 3;
            assert(r[colon] == ':');
            if char_index(r, '!') is Some {
                lemma_char_index(r, '!');
                let pos = char_index(r, '!')->Some_0;
                assert forall|j: int| 0 <= j <= colon implies r[j] != '!' by {
                    if j >= pos {
                        assert(r[pos] == '!');
                        assert(pos < pre_len);
                    }
                }
            }
            assert forall|j: int| 0 <= j <= colon implies r[j] != '!' by {}
            lemma_colon_before_bang(r, colon, apis);
        }
    } else {
        lemma_char_index(url, '!');
        let pos = char_index(url, '!')->Some_0;
        let name = url.take(pos);
        let base = pair_get(apis, name)->Some_0;
        lemma_pair_get_member(apis, name);
        let i = choose|i: int| 0 <= i < apis.len() && #[trigger] apis[i].1 == base;
        let t = trim_trailing(base, '/');
        lemma_trim_trailing_prefix(base, '/');
        assert(occurs_in(t, "://"@));
        let p = choose|p: int| occurs_at(t, "://"@, p);
        assert(e == t + url.skip(pos + 1));
        assert(occurs_at(e, "://"@, p)) by {
            assert(e.subrange(p, p + 3) =~= t.subrange(p, p + 3));
        }
        assert(r == e);
        assert(e[p] == ':') by {
            assert(t.subrange(p, p + 3)[0] == ':');
        }
        assert forall|j: int| 0 <= j <= p implies e[j] != '!' by {
            assert(e[j] == t[j]);
            assert(t[j] == base[j]);
            if base[j] == '!' {
                assert(base.contains('!'));
            }
        }
        lemma_colon_before_bang(e, p, apis);
    }
}

/// The position of the first name that is no atom.
pub open spec fn first_unknown(names: Seq<Seq<char>>) -> Option<int>
    decreases names.len(),
{
    if names.len() == 0 {
        None
    } else if atom_named(names[0]) is None {
        Some(0)
    } else {
        match first_unknown(names.skip(1)) {
            Some(i) => Some(i + 1),
            None => None,
        }
    }
}

proof fn lemma_first_unknown(names: Seq<Seq<char>>)
    ensures
        match first_unknown(names) {
            Some(i) => 0 <= i < names.len() && atom_named(names[i]) is None
                && (forall|j: int| 0 <= j < i ==> atom_named(#[trigger] names[j]) is Some)
                && atom_list(names) == Err::<Seq<AtomV>, Seq<char>>("unknown atom: "@ + names[i]),
            None => atom_list(names) is Ok && forall|j: int| 0 <= j < names.len() ==> atom_named(#[trigger] names[j]) is Some,
        },
    decreases names.len(),
{
    if names.len() > 0 && atom_named(names[0]) is Some {
        let rest = names.skip(1);
        lemma_first_unknown(rest);
        match first_unknown(rest) {
            Some(i) => {
                assert(names[i + 1] == rest[i]);
                assert forall|j: int| 0 <= j < i + 1 implies atom_named(#[trigger] names[j]) is Some by {
                    if j > 0 {
                        assert(names[j] == rest[j - 1]);
                    }
                }
            },
            None => {
                assert forall|j: int| 0 <= j < names.len() implies atom_named(#[trigger] names[j]) is Some by {
                    if j > 0 {
                        assert(names[j] == rest[j - 1]);
                    }
                }
            },
        }
    }
}

/// How a format spec fails, after trimming: a `j(`/`y(` spec without its closing
/// parenthesis is unclosed; a closed one fails on its first word that is no atom; any
/// other spec fails when it is no atom itself. Each message names what failed.
pub proof fn law_format_errors(s: Seq<char>)
    ensures
        ({
            let t = trim(s);
            let w = is_prefix("j("@, t) || is_prefix("y("@, t);
            &&& w && !is_suffix(")"@, t) ==> format_parsed(s) == Err::<FormatV, Seq<char>>(
                "unclosed format: "@ + t + " (missing closing parenthesis)"@,
            )
            &&& w && is_suffix(")"@, t) ==> {
                let names = crate::text::words(t.subrange(2, t.len() - 1));
                match first_unknown(names) {
                    Some(i) => format_parsed(s) == Err::<FormatV, Seq<char>>("unknown atom: "@ + names[i]),
                    None => format_parsed(s) is Ok,
                }
            }
            &&& !w ==> match atom_named(t) {
                None => format_parsed(s) == Err::<FormatV, Seq<char>>("unknown format: "@ + t),
                Some(a) => format_parsed(s) == Ok::<FormatV, Seq<char>>(FormatV::Raw(a)),
            }
        }),
{
    let t = trim(s);
    if (is_prefix("j("@, t) || is_prefix("y("@, t)) && is_suffix(")"@, t) {
        lemma_first_unknown(crate::text::words(t.subrange(2, t.len() - 1)));
    }
}

/// A `j(...)` spec gives JSON output and a `y(...)` spec YAML output: a parsed format is
/// JSON exactly when the trimmed spec starts with `j(`, and YAML exactly when it starts
/// with `y(`; any other spec that parses is a raw atom.
pub proof fn law_format_kind_follows_prefix(s: Seq<char>)
    ensures
        format_parsed(s) matches Ok(f) ==> {
            &&& (f is Json <==> is_prefix("j("@, trim(s)))
            &&& (f is Yaml <==> is_prefix("y("@, trim(s)))
            &&& (f is Raw <==> !is_prefix("j("@, trim(s)) && !is_prefix("y("@, trim(s)))
        },
{
    reveal_strlit("j(");
    reveal_strlit("y(");
    let t = trim(s);
    if is_prefix("j("@, t) && is_prefix("y("@, t) {
        assert(t.subrange(0, 2)[0] == t[0]);
        assert("j("@[0] == 'j' && "y("@[0] == 'y');
    }
}

/// Atoms `a` are the ones the names `ws` spell, one for one and in order.
pub open spec fn atoms_spelled(a: Seq<AtomV>, ws: Seq<Seq<char>>) -> bool {
    a.len() == ws.len() && forall|i: int| 0 <= i < a.len() ==> atom_named(#[trigger] ws[i]) == Some(a[i])
}

proof fn lemma_atom_list_spelled(ws: Seq<Seq<char>>)
    ensures
        atom_list(ws) matches Ok(a) ==> atoms_spelled(a, ws),
    decreases ws.len(),
{
    if ws.len() > 0 {
        lemma_atom_list_spelled(ws.skip(1));
        if let Ok(a) = atom_list(ws) {
            let rest = atom_list(ws.skip(1))->Ok_0;
            assert forall|i: int| 0 <= i < a.len() implies atom_named(#[trigger] ws[i]) == Some(a[i]) by {
                if i > 0 {
                    assert(ws.skip(1)[i - 1] == ws[i]);
                    assert(a[i] == rest[i - 1]);
                }
            }
        }
    }
}

/// The atoms of a parsed `j(...)` or `y(...)` spec are those its words name, in the
/// order written; a raw spec is the one atom it names.
pub proof fn law_format_atoms_as_written(s: Seq<char>)
    ensures
        format_parsed(s) matches Ok(f) ==> match f {
            FormatV::Json(a) => atoms_spelled(a, crate::text::words(trim(s).subrange(2, trim(s).len() - 1))),
            FormatV::Yaml(a) => atoms_spelled(a, crate::text::words(trim(s).subrange(2, trim(s).len() - 1))),
            FormatV::Raw(x) => atom_named(trim(s)) == Some(x),
        },
{
    let t = trim(s);
    let ws = crate::text::words(t.subrange(2, t.len() - 1));
    lemma_atom_list_spelled(ws);
    match format_parsed(s) {
        Ok(FormatV::Json(a)) => {
            assert(atom_list(ws) == Ok::<Seq<AtomV>, Seq<char>>(a));
        },
        Ok(FormatV::Yaml(a)) => {
            assert(atom_list(ws) == Ok::<Seq<AtomV>, Seq<char>>(a));
        },
        _ => {},
    }
}

/// What YAML reads as a boolean or as null rather than as a string.
pub open spec fn yaml_non_string_word(w: Seq<char>) -> bool {
    let lower = seq!["true"@, "false"@, "null"@, "yes"@, "no"@, "on"@, "off"@, "~"@];
    let capital = seq!["True"@, "False"@, "Null"@, "Yes"@, "No"@, "On"@, "Off"@];
    let upper = seq!["TRUE"@, "FALSE"@, "NULL"@, "YES"@, "NO"@, "ON"@, "OFF"@];
    lower.contains(w) || capital.contains(w) || upper.contains(w)
}

proof fn lemma_non_string_words(w: Seq<char>)
    requires
        yaml_non_string_word(w),
    ensures
        reserved_word(w),
        w.len() > 0,
        w[0] != '"' && w[0] != '\'',
{
    reveal_strlit("true");
    reveal_strlit("false");
    reveal_strlit("null");
    reveal_strlit("yes");
    reveal_strlit("no");
    reveal_strlit("on");
    reveal_strlit("off");
    reveal_strlit("~");
    reveal_strlit("True");
    reveal_strlit("False");
    reveal_strlit("Null");
    reveal_strlit("Yes");
    reveal_strlit("No");
    reveal_strlit("On");
    reveal_strlit("Off");
    reveal_strlit("TRUE");
    reveal_strlit("FALSE");
    reveal_strlit("NULL");
    reveal_strlit("YES");
    reveal_strlit("NO");
    reveal_strlit("ON");
    reveal_strlit("OFF");
    let lower = seq!["true"@, "false"@, "null"@, "yes"@, "no"@, "on"@, "off"@, "~"@];
    let capital = seq!["True"@, "False"@, "Null"@, "Yes"@, "No"@, "On"@, "Off"@];
    let upper = seq!["TRUE"@, "FALSE"@, "NULL"@, "YES"@, "NO"@, "ON"@, "OFF"@];
    if lower.contains(w) {
        let i = choose|i: int| 0 <= i < lower.len() && lower[i] == w;
        assert(0 <= i < 8);
    } else if capital.contains(w) {
        let i = choose|i: int| 0 <= i < capital.len() && capital[i] == w;
        assert(0 <= i < 7);
    } else {
        let i = choose|i: int| 0 <= i < upper.len() && upper[i] == w;
        assert(0 <= i < 7);
    }
}

/// YAML never reads a scalar written in flow or block style as a boolean or null: no
/// plain output is such a word, whatever the string.
pub proof fn law_scalars_never_read_as_bool_or_null(s: Seq<char>)
    ensures
        !yaml_non_string_word(flow_scalar(s)),
        !yaml_non_string_word(block_scalar(s)),
{
    if yaml_non_string_word(flow_scalar(s)) {
        lemma_non_string_words(flow_scalar(s));
        if s.len() == 0 || yaml_quoting_needed(s) {
            assert(flow_scalar(s)[0] == '"');
        }
    }
    if yaml_non_string_word(block_scalar(s)) {
        lemma_non_string_words(block_scalar(s));
        if s.len() == 0 || yaml_quoting_needed(s) {
            assert(block_scalar(s)[0] == '\'');
        }
    }
}

/// A method key names its method: a full name resolves to itself in upper case, and the
/// shortcuts `g`, `p`, `d` to GET, POST and DELETE; every full method name is known.
pub proof fn law_method_names(k: Seq<char>)
    ensures
        method_named(k) matches Some(m) ==> m == k.map_values(|c: char| ascii_upper(c))
            || (k == "g"@ && m == "GET"@)
            || (k == "p"@ && m == "POST"@)
            || (k == "d"@ && m == "DELETE"@),
        (k == "get"@ || k == "post"@ || k == "put"@ || k == "delete"@ || k == "patch"@ || k == "head"@
            || k == "options"@ || k == "trace"@) ==> method_named(k) is Some,
{
    reveal_strlit("get");
    reveal_strlit("post");
    reveal_strlit("put");
    reveal_strlit("delete");
    reveal_strlit("patch");
    reveal_strlit("head");
    reveal_strlit("options");
    reveal_strlit("trace");
    reveal_strlit("GET");
    reveal_strlit("POST");
    reveal_strlit("PUT");
    reveal_strlit("DELETE");
    reveal_strlit("PATCH");
    reveal_strlit("HEAD");
    reveal_strlit("OPTIONS");
    reveal_strlit("TRACE");
    let u = k.map_values(|c: char| ascii_upper(c));
    if k == "get"@ {
        assert(u =~= "GET"@);
    } else if k == "post"@ {
        assert(u =~= "POST"@);
    } else if k == "put"@ {
        assert(u =~= "PUT"@);
    } else if k == "delete"@ {
        assert(u =~= "DELETE"@);
    } else if k == "patch"@ {
        assert(u =~= "PATCH"@);
    } else if k == "head"@ {
        assert(u =~= "HEAD"@);
    } else if k == "options"@ {
        assert(u =~= "OPTIONS"@);
    } else if k == "trace"@ {
        assert(u =~= "TRACE"@);
    }
}

/// In pretty JSON every member line of an object, and every item line of an array,
/// but the last ends in a comma; the last line has none.
pub proof fn law_pretty_lines_separated(m: ObjV, a: Seq<JsonV>, level: nat, keys: Seq<Seq<char>>, color: bool)
    ensures
        forall|k: nat| 0 < k < m.len() ==> is_suffix(seq![',', '\n'], #[trigger] pretty_members(m, k, level, keys, color)),
        m.len() > 0 ==> pretty_members(m, m.len(), level, keys, color) == pretty_members(m, (m.len() - 1) as nat, level, keys, color)
            + pretty_member(m.last().0, m.last().1, level, keys, color) + seq!['\n'],
        forall|k: nat| 0 < k < a.len() ==> is_suffix(seq![',', '\n'], #[trigger] pretty_items(a, k, level, keys, color)),
        a.len() > 0 ==> pretty_items(a, a.len(), level, keys, color) == pretty_items(a, (a.len() - 1) as nat, level, keys, color)
            + pretty_item(a.last(), level, keys, color) + seq!['\n'],
{
    assert forall|k: nat| 0 < k < m.len() implies is_suffix(seq![',', '\n'], #[trigger] pretty_members(m, k, level, keys, color)) by {
        let t = pretty_members(m, k, level, keys, color);
        let p = pretty_members(m, (k - 1) as nat, level, keys, color) + pretty_member(m[k - 1].0, m[k - 1].1, level, keys, color);
        assert(t == p + seq![',', '\n']);
        assert(t.subrange(t.len() - 2, t.len() as int) =~= seq![',', '\n']);
    }
    assert forall|k: nat| 0 < k < a.len() implies is_suffix(seq![',', '\n'], #[trigger] pretty_items(a, k, level, keys, color)) by {
        let t = pretty_items(a, k, level, keys, color);
        let p = pretty_items(a, (k - 1) as nat, level, keys, color) + pretty_item(a[k - 1], level, keys, color);
        assert(t == p + seq![',', '\n']);
        assert(t.subrange(t.len() - 2, t.len() as int) =~= seq![',', '\n']);
    }
}

/// Pretty JSON opens an object with `{` and a line break and closes it with `}`, an
/// array likewise with `[` and `]`; without color each member line is the indented key,
/// quoted as JSON, then `": "`.
pub proof fn law_pretty_brackets(v: JsonV, level: nat, keys: Seq<Seq<char>>, k: Seq<char>, w: JsonV)
    ensures
        v is Object ==> pretty_text(v, level, keys, false).take(2) == seq!['{', '\n']
            && pretty_text(v, level, keys, false).last() == '}',
        v is Array ==> pretty_text(v, level, keys, false).take(2) == seq!['[', '\n']
            && pretty_text(v, level, keys, false).last() == ']',
        pretty_member(k, w, level, keys, false).take((indent_text(level + 1).len() + json_string_literal(k).len() + 2) as int)
            == indent_text(level + 1) + json_string_literal(k) + seq![':', ' '],
{
    let t = pretty_text(v, level, keys, false);
    match v {
        JsonV::Object(m) => {
            assert(t.take(2) =~= seq!['{', '\n']);
        },
        JsonV::Array(a) => {
            assert(t.take(2) =~= seq!['[', '\n']);
        },
        _ => {},
    }
    let p = pretty_member(k, w, level, keys, false);
    let h = indent_text(level + 1) + json_string_literal(k) + seq![':', ' '];
    assert(p.take(h.len() as int) =~= h);
}

/// The number of URL parts in a cache key's configuration.
pub open spec fn url_parts(keys: Seq<CacheKeyV>) -> nat
    decreases keys.len(),
{
    if keys.len() == 0 {
        0
    } else {
        url_parts(keys.drop_last()) + if keys.last() is Url { 1nat } else { 0nat }
    }
}

proof fn lemma_material_len_grows(keys: Seq<CacheKeyV>, method: Seq<char>, u1: Seq<char>, u2: Seq<char>, body: Option<JsonV>, headers: ObjV)
    requires
        encode_utf8(u1).len() >= encode_utf8(u2).len(),
    ensures
        key_material(keys, method, u1, body, headers).len() >= key_material(keys, method, u2, body, headers).len(),
        encode_utf8(u1).len() > encode_utf8(u2).len() && url_parts(keys) > 0 ==> key_material(keys, method, u1, body, headers).len()
            > key_material(keys, method, u2, body, headers).len(),
    decreases keys.len(),
{
    if keys.len() > 0 {
        lemma_material_len_grows(keys.drop_last(), method, u1, u2, body, headers);
    }
}

proof fn lemma_material_without_url(keys: Seq<CacheKeyV>, method: Seq<char>, u1: Seq<char>, u2: Seq<char>, body: Option<JsonV>, headers: ObjV)
    requires
        url_parts(keys) == 0,
    ensures
        key_material(keys, method, u1, body, headers) == key_material(keys, method, u2, body, headers),
    decreases keys.len(),
{
    if keys.len() > 0 {
        lemma_material_without_url(keys.drop_last(), method, u1, u2, body, headers);
    }
}

proof fn lemma_material_prefix(keys: Seq<CacheKeyV>, i: int, method: Seq<char>, url: Seq<char>, body: Option<JsonV>, headers: ObjV)
    requires
        0 <= i <= keys.len(),
    ensures
        key_material(keys.take(i), method, url, body, headers).len() <= key_material(keys, method, url, body, headers).len(),
        key_material(keys, method, url, body, headers).subrange(0, key_material(keys.take(i), method, url, body, headers).len() as int)
            == key_material(keys.take(i), method, url, body, headers),
    decreases keys.len() - i,
{
    if i < keys.len() {
        lemma_material_prefix(keys, i + 1, method, url, body, headers);
        assert(keys.take(i + 1).drop_last() =~= keys.take(i));
        let a = key_material(keys.take(i), method, url, body, headers);
        let b = key_material(keys.take(i + 1), method, url, body, headers);
        let c = key_material(keys, method, url, body, headers);
        assert(b == a + part_bytes(keys.take(i + 1).last(), method, url, body, headers));
        assert(b.subrange(0, a.len() as int) =~= a);
        assert(c.subrange(0, b.len() as int) == b);
        assert(c.subrange(0, a.len() as int) =~= b.subrange(0, a.len() as int));
    } else {
        assert(keys.take(i) =~= keys);
        let c = key_material(keys, method, url, body, headers);
        assert(c.subrange(0, c.len() as int) =~= c);
    }
}

/// A cache key that includes the URL tells requests with different URLs apart: with
/// every other part the same, two URLs that differ give key material that differs, so a
/// response cached for one URL never answers a request for another.
pub proof fn law_cache_key_tells_urls_apart(
    keys: Seq<CacheKeyV>,
    method: Seq<char>,
    u1: Seq<char>,
    u2: Seq<char>,
    body: Option<JsonV>,
    headers: ObjV,
)
    requires
        keys.contains(CacheKeyV::Url),
        u1 != u2,
    ensures
        key_material(keys, method, u1, body, headers) != key_material(keys, method, u2, body, headers),
{
    let m1 = key_material(keys, method, u1, body, headers);
    let m2 = key_material(keys, method, u2, body, headers);
    let e1 = encode_utf8(u1);
    let e2 = encode_utf8(u2);
    vstd::utf8::encode_utf8_decode_utf8(u1);
    vstd::utf8::encode_utf8_decode_utf8(u2);
    let j = choose|j: int| 0 <= j < keys.len() && keys[j] == CacheKeyV::Url;
    assert(url_parts(keys) > 0) by {
        lemma_url_parts_positive(keys, j);
    }
    if e1.len() > e2.len() {
        lemma_material_len_grows(keys, method, u1, u2, body, headers);
    } else if e2.len() > e1.len() {
        lemma_material_len_grows(keys, method, u2, u1, body, headers);
    } else {
        let f = lemma_first_url(keys, j);
        let pre = keys.take(f);
        lemma_material_without_url(pre, method, u1, u2, body, headers);
        lemma_material_prefix(keys, f + 1, method, u1, body, headers);
        lemma_material_prefix(keys, f + 1, method, u2, body, headers);
        assert(keys.take(f + 1).drop_last() =~= pre);
        assert(keys.take(f + 1).last() == CacheKeyV::Url);
        let p = key_material(pre, method, u1, body, headers);
        let b1 = key_material(keys.take(f + 1), method, u1, body, headers);
        let b2 = key_material(keys.take(f + 1), method, u2, body, headers);
        assert(b1 == p + e1);
        assert(b2 == key_material(pre, method, u2, body, headers) + e2);
        if m1 == m2 {
            assert(m1.subrange(0, b1.len() as int) == b1);
            assert(m2.subrange(0, b2.len() as int) == b2);
            assert(b1.len() == b2.len());
            assert(b1 == b2);
            assert(b1.subrange(p.len() as int, b1.len() as int) =~= e1);
            assert(b2.subrange(p.len() as int, b2.len() as int) =~= e2);
            assert(e1 == e2);
        }
    }
}

proof fn lemma_url_parts_positive(keys: Seq<CacheKeyV>, j: int)
    requires
        0 <= j < keys.len(),
        keys[j] == CacheKeyV::Url,
    ensures
        url_parts(keys) > 0,
    decreases keys.len(),
{
    if j < keys.len() - 1 {
        lemma_url_parts_positive(keys.drop_last(), j);
    }
}

/// The position of the first URL part.
proof fn lemma_first_url(keys: Seq<CacheKeyV>, j: int) -> (f: int)
    requires
        0 <= j < keys.len(),
        keys[j] == CacheKeyV::Url,
    ensures
        0 <= f <= j,
        keys[f] == CacheKeyV::Url,
        url_parts(keys.take(f)) == 0,
    decreases j,
{
    if url_parts(keys.take(j)) == 0 {
        j
    } else {
        let t = keys.take(j);
        let g = lemma_some_url(t);
        assert(keys[g] == t[g]);
        lemma_first_url(keys, g)
    }
}

proof fn lemma_some_url(keys: Seq<CacheKeyV>) -> (g: int)
    requires
        url_parts(keys) > 0,
    ensures
        0 <= g < keys.len(),
        keys[g] == CacheKeyV::Url,
    decreases keys.len(),
{
    if keys.last() is Url {
        (keys.len() - 1) as int
    } else {
        let g = lemma_some_url(keys.drop_last());
        g
    }
}
/// The number of method parts in a cache key's configuration.
pub open spec fn method_parts(keys: Seq<CacheKeyV>) -> nat
    decreases keys.len(),
{
    if keys.len() == 0 {
        0
    } else {
        method_parts(keys.drop_last()) + if keys.last() is Method { 1nat } else { 0nat }
    }
}

proof fn lemma_material_len_grows_m(keys: Seq<CacheKeyV>, url: Seq<char>, u1: Seq<char>, u2: Seq<char>, body: Option<JsonV>, headers: ObjV)
    requires
        encode_utf8(u1).len() >= encode_utf8(u2).len(),
    ensures
        key_material(keys, u1, url, body, headers).len() >= key_material(keys, u2, url, body, headers).len(),
        encode_utf8(u1).len() > encode_utf8(u2).len() && method_parts(keys) > 0 ==> key_material(keys, u1, url, body, headers).len()
            > key_material(keys, u2, url, body, headers).len(),
    decreases keys.len(),
{
    if keys.len() > 0 {
        lemma_material_len_grows_m(keys.drop_last(), url, u1, u2, body, headers);
    }
}

proof fn lemma_material_without_method(keys: Seq<CacheKeyV>, url: Seq<char>, u1: Seq<char>, u2: Seq<char>, body: Option<JsonV>, headers: ObjV)
    requires
        method_parts(keys) == 0,
    ensures
        key_material(keys, u1, url, body, headers) == key_material(keys, u2, url, body, headers),
    decreases keys.len(),
{
    if keys.len() > 0 {
        lemma_material_without_method(keys.drop_last(), url, u1, u2, body, headers);
    }
}

/// A cache key that includes the method tells requests with different methods apart:
/// with every other part the same, two methods that differ give key material that
/// differs.
pub proof fn law_cache_key_tells_methods_apart(
    keys: Seq<CacheKeyV>,
    url: Seq<char>,
    u1: Seq<char>,
    u2: Seq<char>,
    body: Option<JsonV>,
    headers: ObjV,
)
    requires
        keys.contains(CacheKeyV::Method),
        u1 != u2,
    ensures
        key_material(keys, u1, url, body, headers) != key_material(keys, u2, url, body, headers),
{
    let m1 = key_material(keys, u1, url, body, headers);
    let m2 = key_material(keys, u2, url, body, headers);
    let e1 = encode_utf8(u1);
    let e2 = encode_utf8(u2);
    vstd::utf8::encode_utf8_decode_utf8(u1);
    vstd::utf8::encode_utf8_decode_utf8(u2);
    let j = choose|j: int| 0 <= j < keys.len() && keys[j] == CacheKeyV::Method;
    assert(method_parts(keys) > 0) by {
        lemma_method_parts_positive(keys, j);
    }
    if e1.len() > e2.len() {
        lemma_material_len_grows_m(keys, url, u1, u2, body, headers);
    } else if e2.len() > e1.len() {
        lemma_material_len_grows_m(keys, url, u2, u1, body, headers);
    } else {
        let f = lemma_first_method(keys, j);
        let pre = keys.take(f);
        lemma_material_without_method(pre, url, u1, u2, body, headers);
        lemma_material_prefix(keys, f + 1, u1, url, body, headers);
        lemma_material_prefix(keys, f + 1, u2, url, body, headers);
        assert(keys.take(f + 1).drop_last() =~= pre);
        assert(keys.take(f + 1).last() == CacheKeyV::Method);
        let p = key_material(pre, u1, url, body, headers);
        let b1 = key_material(keys.take(f + 1), u1, url, body, headers);
        let b2 = key_material(keys.take(f + 1), u2, url, body, headers);
        assert(b1 == p + e1);
        assert(b2 == key_material(pre, u2, url, body, headers) + e2);
        if m1 == m2 {
            assert(m1.subrange(0, b1.len() as int) == b1);
            assert(m2.subrange(0, b2.len() as int) == b2);
            assert(b1.len() == b2.len());
            assert(b1 == b2);
            assert(b1.subrange(p.len() as int, b1.len() as int) =~= e1);
            assert(b2.subrange(p.len() as int, b2.len() as int) =~= e2);
            assert(e1 == e2);
        }
    }
}

proof fn lemma_method_parts_positive(keys: Seq<CacheKeyV>, j: int)
    requires
        0 <= j < keys.len(),
        keys[j] == CacheKeyV::Method,
    ensures
        method_parts(keys) > 0,
    decreases keys.len(),
{
    if j < keys.len() - 1 {
        lemma_method_parts_positive(keys.drop_last(), j);
    }
}

/// The position of the first method part.
proof fn lemma_first_method(keys: Seq<CacheKeyV>, j: int) -> (f: int)
    requires
        0 <= j < keys.len(),
        keys[j] == CacheKeyV::Method,
    ensures
        0 <= f <= j,
        keys[f] == CacheKeyV::Method,
        method_parts(keys.take(f)) == 0,
    decreases j,
{
    if method_parts(keys.take(j)) == 0 {
        j
    } else {
        let t = keys.take(j);
        let g = lemma_some_method(t);
        assert(keys[g] == t[g]);
        lemma_first_method(keys, g)
    }
}

proof fn lemma_some_method(keys: Seq<CacheKeyV>) -> (g: int)
    requires
        method_parts(keys) > 0,
    ensures
        0 <= g < keys.len(),
        keys[g] == CacheKeyV::Method,
    decreases keys.len(),
{
    if keys.last() is Method {
        (keys.len() - 1) as int
    } else {
        let g = lemma_some_method(keys.drop_last());
        g
    }
}
} // verus!

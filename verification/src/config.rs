//! Batch configuration: default headers and outputs, API aliases, per-URL rules.
use vstd::prelude::*;
use crate::text::{decimal, usize_to_decimal, 
    before_char, char_index, char_pos, chars_of, find_chars, occurs_in, push_str, starts_with,
    str_eq, string_from_range, trim_trailing, trim_trailing_end, is_prefix,
};
use crate::trusted::{component_pair, components_joined, query_component, string_seq, yttp_bracket_join, yttp_comma_join, yttp_repeat_keys, yttp_semicolon_join, is_alphanumeric, unicode_alphanumeric, shortcut_headers, uppercased, to_upper, yttp_expand_headers};
use crate::cache::{CacheConfig, CacheConfigV, cache_parsed, cache_value_valid, cache_value_ok, json_as_u64, parse_cache, as_u64};
use crate::env::{Env, EnvV, env_expanded_headers, expand_env_in_headers};
use crate::glob::{glob_result, glob_outcome};
use crate::json::{keys_unique, 
    Json, JsonV, ObjV, entries_view, lemma_entries_view, lemma_seq_view, seq_view, obj_get, obj_insert,
    obj_lookup, obj_put, json_eq, json_equal, copy_entries,
};

verus! {

/// Keys that name an output destination: `1` (stdout), `2` (stderr) or a `file://` path.
pub open spec fn output_key(k: Seq<char>) -> bool {
    k == "1"@ || k == "2"@ || is_prefix("file://"@, k)
}

/// Whether `key` names an output destination.
pub fn is_output_key(key: &str) -> (r: bool)
    ensures
        r == output_key(key@),
{
    str_eq(key, "1") || str_eq(key, "2") || starts_with(key, "file://")
}

/// String pairs viewed as character sequences.
pub open spec fn pairs_view(v: Seq<(String, String)>) -> Seq<(Seq<char>, Seq<char>)> {
    v.map_values(|e: (String, String)| (e.0@, e.1@))
}

/// The value of the first pair with key `k`.
pub open spec fn pair_get(v: Seq<(Seq<char>, Seq<char>)>, k: Seq<char>) -> Option<Seq<char>>
    decreases v.len(),
{
    if v.len() == 0 {
        None
    } else if v[0].0 == k {
        Some(v[0].1)
    } else {
        pair_get(v.drop_first(), k)
    }
}

/// The value of the first pair with key `k`.
pub fn pair_lookup<'a>(v: &'a Vec<(String, String)>, k: &str) -> (r: Option<&'a String>)
    ensures
        match r {
            Some(s) => pair_get(pairs_view(v@), k@) == Some(s@),
            None => pair_get(pairs_view(v@), k@) is None,
        },
{
    let mut i: usize = 0;
    assert(pairs_view(v@).skip(0) == pairs_view(v@));
    while i < v.len()
        invariant
            i <= v@.len(),
            pair_get(pairs_view(v@), k@) == pair_get(pairs_view(v@).skip(i as int), k@),
        decreases v@.len() - i,
    {
        proof {
            assert(pairs_view(v@).skip(i as int)[0] == (v@[i as int].0@, v@[i as int].1@));
            assert(pairs_view(v@).skip(i as int).drop_first() == pairs_view(v@).skip(i + 1));
        }
        if str_eq(v[i].0.as_str(), k) {
            return Some(&v[i].1);
        }
        i = i + 1;
    }
    None
}

/// `url` with a scheme: unchanged when it has `://`; otherwise `http://` for local or
/// dotless hosts and `https://` for the rest.
pub open spec fn with_scheme(url: Seq<char>) -> Seq<char> {
    if occurs_in(url, "://"@) {
        url
    } else {
        let host = before_char(before_char(url, '/'), ':');
        if host == "localhost"@ || host == "127.0.0.1"@ || host == "[::1]"@ || !host.contains('.') {
            "http://"@ + url
        } else {
            "https://"@ + url
        }
    }
}

/// An ASCII letter or digit.
pub open spec fn ascii_alphanumeric(c: char) -> bool {
    ('a' <= c && c <= 'z') || ('A' <= c && c <= 'Z') || ('0' <= c && c <= '9')
}

/// Characters allowed in an API alias name: letters and digits (for ASCII, exactly the
/// ASCII ones, as `char::is_alphanumeric` documents), `_` and `-`.
pub open spec fn alias_char(c: char) -> bool {
    (if (c as u32) < 128 { ascii_alphanumeric(c) } else { unicode_alphanumeric(c) }) || c == '_' || c == '-'
}

/// `name!rest` with `name` a configured API replaced by its base URL, trailing slashes
/// removed; any other URL unchanged.
pub open spec fn alias_expanded(url: Seq<char>, apis: Seq<(Seq<char>, Seq<char>)>) -> Seq<char> {
    match char_index(url, '!') {
        Some(pos) => {
            let name = url.take(pos);
            if name.len() > 0 && forall|i: int| 0 <= i < name.len() ==> alias_char(#[trigger] name[i]) {
                match pair_get(apis, name) {
                    Some(base) => trim_trailing(base, '/') + url.skip(pos + 1),
                    None => url,
                }
            } else {
                url
            }
        },
        None => url,
    }
}

/// The request URL after alias expansion and scheme completion.
pub open spec fn api_url(url: Seq<char>, apis: Seq<(Seq<char>, Seq<char>)>) -> Seq<char> {
    with_scheme(alias_expanded(url, apis))
}

/// If a URL has no scheme, prepend `https://`, or `http://` for localhost, loopback and
/// bare hosts.
pub fn add_scheme(url: &str) -> (r: String)
    ensures
        r@ == with_scheme(url@),
{
    let v = chars_of(url);
    let sep = chars_of("://");
    proof {
        reveal_strlit("://");
    }
    if find_chars(&v, &sep).is_some() {
        return string_from_range(&v, 0, v.len());
    }
    let host_end = match char_pos(&v, '/') {
        Some(i) => i,
        None => v.len(),
    };
    let host_chars = string_from_range(&v, 0, host_end);
    let hv = chars_of(host_chars.as_str());
    let name_end = match char_pos(&hv, ':') {
        Some(i) => i,
        None => hv.len(),
    };
    let host = string_from_range(&hv, 0, name_end);
    proof {
        crate::text::lemma_char_index(v@, '/');
        crate::text::lemma_char_index(hv@, ':');
        assert(v@.subrange(0, host_end as int) == before_char(url@, '/'));
        assert(hv@.subrange(0, name_end as int) == before_char(hv@, ':'));
        assert(v@.subrange(0, v@.len() as int) == v@);
    }
    let hc = chars_of(host.as_str());
    let local = str_eq(host.as_str(), "localhost") || str_eq(host.as_str(), "127.0.0.1")
        || str_eq(host.as_str(), "[::1]") || !crate::text::contains_char(&hc, '.');
    let mut out = String::new();
    if local {
        push_str(&mut out, "http://");
        proof {
            reveal_strlit("http://");
        }
    } else {
        push_str(&mut out, "https://");
        proof {
            reveal_strlit("https://");
        }
    }
    push_str(&mut out, url);
    out
}

fn alias_name_ok(v: &Vec<char>, end: usize) -> (r: bool)
    requires
        end <= v@.len(),
    ensures
        r == (end > 0 && forall|i: int| 0 <= i < end ==> alias_char(#[trigger] v@.take(end as int)[i])),
{
    if end == 0 {
        return false;
    }
    let mut i: usize = 0;
    while i < end
        invariant
            i <= end <= v@.len(),
            forall|j: int| 0 <= j < i ==> alias_char(#[trigger] v@.take(end as int)[j]),
        decreases end - i,
    {
        let c = v[i];
        let alnum = if (c as u32) < 128 {
            ('a' <= c && c <= 'z') || ('A' <= c && c <= 'Z') || ('0' <= c && c <= '9')
        } else {
            is_alphanumeric(c)
        };
        if !(alnum || c == '_' || c == '-') {
            assert(v@.take(end as int)[i as int] == c);
            return false;
        }
        i = i + 1;
    }
    true
}

/// Expand `name!/path` API aliases in a URL, then add a scheme if it has none.
pub fn expand_api_url(url: &str, apis: &Vec<(String, String)>) -> (r: String)
    ensures
        r@ == api_url(url@, pairs_view(apis@)),
{
    let v = chars_of(url);
    let n = v.len();
    let expanded = match char_pos(&v, '!') {
        Some(pos) => {
            if alias_name_ok(&v, pos) {
                let name = string_from_range(&v, 0, pos);
                assert(name@ == url@.take(pos as int));
                match pair_lookup(apis, name.as_str()) {
                    Some(base) => {
                        let bv = chars_of(base.as_str());
                        let be = trim_trailing_end(&bv, bv.len(), '/');
                        let mut out = string_from_range(&bv, 0, be);
                        let rest = string_from_range(&v, pos + 1, n);
                        push_str(&mut out, rest.as_str());
                        proof {
                            assert(bv@.take(bv@.len() as int) == bv@);
                            assert(bv@.subrange(0, be as int) == bv@.take(be as int));
                            assert(v@.subrange(pos + 1, v@.len() as int) == url@.skip(pos + 1));
                        }
                        out
                    },
                    None => string_from_range(&v, 0, v.len()),
                }
            } else {
                string_from_range(&v, 0, v.len())
            }
        },
        None => string_from_range(&v, 0, v.len()),
    };
    proof {
        assert(v@.subrange(0, v@.len() as int) == v@);
    }
    add_scheme(expanded.as_str())
}


/// A rule: when its `match` conditions hold for a request, its headers, concurrency
/// limit and cache settings apply.
pub struct Rule {
    pub match_url: Option<String>,
    pub match_method: Option<String>,
    pub match_md: Vec<(String, Json)>,
    pub headers: Vec<(String, Json)>,
    pub concurrency: Option<usize>,
    pub cache: Option<CacheConfig>,
}

/// The mathematical content of a `Rule`.
pub struct RuleV {
    pub match_url: Option<Seq<char>>,
    pub match_method: Option<Seq<char>>,
    pub match_md: ObjV,
    pub headers: ObjV,
    pub concurrency: Option<usize>,
    pub cache: Option<CacheConfigV>,
}

pub open spec fn opt_str_view(s: Option<String>) -> Option<Seq<char>> {
    match s {
        Some(x) => Some(x@),
        None => None,
    }
}

impl View for Rule {
    type V = RuleV;

    open spec fn view(&self) -> RuleV {
        RuleV {
            match_url: opt_str_view(self.match_url),
            match_method: opt_str_view(self.match_method),
            match_md: entries_view(self.match_md@),
            headers: entries_view(self.headers@),
            concurrency: self.concurrency,
            cache: match self.cache {
                Some(c) => Some(c@),
                None => None,
            },
        }
    }
}

pub open spec fn rules_view(r: Seq<Rule>) -> Seq<RuleV> {
    r.map_values(|x: Rule| x@)
}

/// Whether progress is shown: off, on, or on with a known number of requests.
#[derive(PartialEq, Eq, Structural, Clone, Copy, Debug)]
pub enum Progress {
    Off,
    On,
    Known(u64),
}

/// How arrays in a query object are joined: a default strategy (`,`, `&`, `[]` or `;`)
/// and per-key overrides.
pub struct QueryArrayConfig {
    pub default: String,
    pub overrides: Vec<(String, String)>,
}

pub struct QueryArrayV {
    pub default: Seq<char>,
    pub overrides: Seq<(Seq<char>, Seq<char>)>,
}

impl View for QueryArrayConfig {
    type V = QueryArrayV;

    open spec fn view(&self) -> QueryArrayV {
        QueryArrayV { default: self.default@, overrides: pairs_view(self.overrides@) }
    }
}

/// Batch configuration.
pub struct Config {
    pub default_headers: Vec<(String, Json)>,
    pub default_outputs: Vec<(String, String)>,
    pub global_concurrency: usize,
    pub progress: Progress,
    pub rules: Vec<Rule>,
    pub apis: Vec<(String, String)>,
    pub qarray: QueryArrayConfig,
}

/// The mathematical content of a `Config`.
pub struct ConfigV {
    pub default_headers: ObjV,
    pub default_outputs: Seq<(Seq<char>, Seq<char>)>,
    pub global_concurrency: usize,
    pub progress: Progress,
    pub rules: Seq<RuleV>,
    pub apis: Seq<(Seq<char>, Seq<char>)>,
    pub qarray: QueryArrayV,
}

impl View for Config {
    type V = ConfigV;

    open spec fn view(&self) -> ConfigV {
        ConfigV {
            default_headers: entries_view(self.default_headers@),
            default_outputs: pairs_view(self.default_outputs@),
            global_concurrency: self.global_concurrency,
            progress: self.progress,
            rules: rules_view(self.rules@),
            apis: pairs_view(self.apis@),
            qarray: self.qarray@,
        }
    }
}

/// The string value stored under `k`.
pub open spec fn str_field(o: ObjV, k: Seq<char>) -> Option<Seq<char>> {
    match obj_get(o, k) {
        Some(JsonV::Str(s)) => Some(s),
        _ => None,
    }
}

/// The object stored under `h`, or else under `headers`; empty when that is no object.
pub open spec fn headers_field(o: ObjV) -> ObjV {
    let v = match obj_get(o, "h"@) {
        Some(x) => Some(x),
        None => obj_get(o, "headers"@),
    };
    match v {
        Some(JsonV::Object(h)) => h,
        _ => Seq::empty(),
    }
}

/// Header object with variables resolved, then shortcuts expanded.
pub open spec fn prepared_headers(h: ObjV, env: EnvV) -> Result<ObjV, Seq<char>> {
    match env_expanded_headers(h, env) {
        Ok(x) => Ok(shortcut_headers(x)),
        Err(e) => Err(e),
    }
}

/// The `match` object of a rule; empty when there is none.
pub open spec fn match_field(o: ObjV) -> ObjV {
    match obj_get(o, "match"@) {
        Some(JsonV::Object(m)) => m,
        _ => Seq::empty(),
    }
}

/// The `md.<field>` conditions of a match object, in order, with the prefix removed.
pub open spec fn md_conditions(m: ObjV) -> ObjV
    decreases m.len(),
{
    if m.len() == 0 {
        Seq::empty()
    } else {
        let p = md_conditions(m.drop_last());
        if is_prefix("md."@, m.last().0) {
            p.push((m.last().0.skip(3), m.last().1))
        } else {
            p
        }
    }
}

/// A positive limit read from `k`: at least 1.
pub open spec fn limit_field(o: ObjV, k: Seq<char>) -> Option<usize> {
    match obj_get(o, k) {
        Some(v) => match json_as_u64(v) {
            Some(n) => Some((if n < 1 { 1 } else { n }) as usize),
            None => None,
        },
        None => None,
    }
}

/// A rule value is usable: an object whose cache settings, if any, are usable.
pub open spec fn rule_valid(v: JsonV) -> bool {
    match v {
        JsonV::Object(o) => match obj_get(o, "cache"@) {
            Some(c) => cache_value_valid(c),
            None => true,
        },
        _ => false,
    }
}

/// The rule an object describes, or the error of resolving its header variables.
pub open spec fn rule_parsed(v: JsonV, env: EnvV) -> Result<RuleV, Seq<char>> {
    match v {
        JsonV::Object(o) => {
            let m = match_field(o);
            match prepared_headers(headers_field(o), env) {
                Err(e) => Err(e),
                Ok(h) => Ok(
                    RuleV {
                        match_url: str_field(m, "u"@),
                        match_method: match str_field(m, "m"@) {
                            Some(s) => Some(uppercased(s)),
                            None => None,
                        },
                        match_md: md_conditions(m),
                        headers: h,
                        concurrency: limit_field(o, "concurrency"@),
                        cache: match obj_get(o, "cache"@) {
                            Some(c) => cache_parsed(c, env),
                            None => None,
                        },
                    },
                ),
            }
        },
        _ => Err(Seq::empty()),
    }
}

fn headers_of(o: &Vec<(String, Json)>) -> (r: Vec<(String, Json)>)
    ensures
        entries_view(r@) == headers_field(entries_view(o@)),
{
    proof {
        reveal_strlit("h");
        reveal_strlit("headers");
    }
    let v = match obj_lookup(o, "h") {
        Some(x) => Some(x),
        None => obj_lookup(o, "headers"),
    };
    match v {
        Some(Json::Object(h)) => copy_entries(h),
        _ => {
            let r: Vec<(String, Json)> = Vec::new();
            assert(entries_view(r@) =~= Seq::<(Seq<char>, JsonV)>::empty());
            r
        },
    }
}

/// Resolve variables in a header object, then expand its shortcuts.
pub fn prepare_headers(h: Vec<(String, Json)>, env: &Env) -> (r: Result<Vec<(String, Json)>, String>)
    ensures
        match r {
            Ok(x) => prepared_headers(entries_view(h@), env@) == Ok::<ObjV, Seq<char>>(entries_view(x@))
                && keys_unique(entries_view(x@)),
            Err(e) => prepared_headers(entries_view(h@), env@) == Err::<ObjV, Seq<char>>(e@),
        },
{
    let mut h = h;
    match expand_env_in_headers(&mut h, env) {
        Ok(()) => Ok(yttp_expand_headers(&h)),
        Err(e) => Err(e),
    }
}

fn str_of(o: &Vec<(String, Json)>, k: &str) -> (r: Option<String>)
    ensures
        opt_str_view(r) == str_field(entries_view(o@), k@),
{
    match obj_lookup(o, k) {
        Some(Json::Str(s)) => Some(s.clone()),
        _ => None,
    }
}

fn limit_of(o: &Vec<(String, Json)>, k: &str) -> (r: Option<usize>)
    ensures
        r == limit_field(entries_view(o@), k@),
{
    match obj_lookup(o, k) {
        Some(v) => match as_u64(v) {
            Some(n) => Some(if n < 1 { 1usize } else { n as usize }),
            None => None,
        },
        None => None,
    }
}

fn md_conditions_of(m: &Vec<(String, Json)>) -> (r: Vec<(String, Json)>)
    ensures
        entries_view(r@) == md_conditions(entries_view(m@)),
{
    proof {
        lemma_entries_view(m@);
        reveal_strlit("md.");
    }
    let mut out: Vec<(String, Json)> = Vec::new();
    let mut i: usize = 0;
    while i < m.len()
        invariant
            i <= m@.len(),
            entries_view(m@).len() == m@.len(),
            forall|j: int| 0 <= j < m@.len() ==> #[trigger] entries_view(m@)[j] == (m@[j].0@, m@[j].1@),
            entries_view(out@) == md_conditions(entries_view(m@).take(i as int)),
        decreases m@.len() - i,
    {
        proof {
            assert(entries_view(m@).take(i + 1).drop_last() == entries_view(m@).take(i as int));
            assert(entries_view(m@).take(i + 1).last() == (m@[i as int].0@, m@[i as int].1@));
            lemma_entries_view(out@);
            reveal_strlit("md.");
        }
        if starts_with(m[i].0.as_str(), "md.") {
            let kv = chars_of(m[i].0.as_str());
            let k = string_from_range(&kv, 3, kv.len());
            let ghost before = out@;
            out.push((k, m[i].1.copy()));
            proof {
                lemma_entries_view(out@);
                assert(entries_view(out@) =~= entries_view(before).push((k@, m@[i as int].1@)));
            }
        }
        i = i + 1;
    }
    assert(entries_view(m@).take(m@.len() as int) == entries_view(m@));
    out
}

fn empty_entries() -> (r: Vec<(String, Json)>)
    ensures
        entries_view(r@) == Seq::<(Seq<char>, JsonV)>::empty(),
{
    let r: Vec<(String, Json)> = Vec::new();
    assert(entries_view(r@) =~= Seq::<(Seq<char>, JsonV)>::empty());
    r
}

/// Whether a value can be read as a rule: an object whose `cache`, if any, is usable.
pub fn rule_ok(v: &Json) -> (r: bool)
    ensures
        r == rule_valid(v@),
{
    proof {
        reveal_strlit("cache");
    }
    match v {
        Json::Object(o) => match obj_lookup(o, "cache") {
            Some(c) => cache_value_ok(c),
            None => true,
        },
        _ => false,
    }
}

/// Parse one rule.
pub fn parse_rule(val: &Json, env: &Env) -> (r: Result<Rule, String>)
    requires
        rule_valid(val@),
    ensures
        match r {
            Ok(x) => rule_parsed(val@, env@) == Ok::<RuleV, Seq<char>>(x@) && keys_unique(x@.headers),
            Err(e) => rule_parsed(val@, env@) == Err::<RuleV, Seq<char>>(e@),
        },
{
    proof {
        reveal_strlit("match");
        reveal_strlit("u");
        reveal_strlit("m");
        reveal_strlit("concurrency");
        reveal_strlit("cache");
    }
    let o = match val {
        Json::Object(o) => o,
        _ => {
            return Err(String::new());
        },
    };
    let m = match obj_lookup(o, "match") {
        Some(Json::Object(m)) => copy_entries(m),
        _ => empty_entries(),
    };
    let match_url = str_of(&m, "u");
    let match_method = match str_of(&m, "m") {
        Some(s) => Some(to_upper(s.as_str())),
        None => None,
    };
    let match_md = md_conditions_of(&m);
    let headers = match prepare_headers(headers_of(o), env) {
        Ok(h) => h,
        Err(e) => {
            return Err(e);
        },
    };
    let concurrency = limit_of(o, "concurrency");
    let cache = match obj_lookup(o, "cache") {
        Some(c) => parse_cache(c, env),
        None => None,
    };
    Ok(Rule { match_url, match_method, match_md, headers, concurrency, cache })
}


/// The string-valued members of an object, in order.
pub open spec fn str_members(m: ObjV) -> Seq<(Seq<char>, Seq<char>)>
    decreases m.len(),
{
    if m.len() == 0 {
        Seq::empty()
    } else {
        let p = str_members(m.drop_last());
        match m.last().1 {
            JsonV::Str(s) => p.push((m.last().0, s)),
            _ => p,
        }
    }
}

/// Join settings of a `qarray` value: a string names the default strategy; an array
/// holds the default and an object of per-key strategies; anything else gives `,`.
pub open spec fn qarray_parsed(v: JsonV) -> QueryArrayV {
    match v {
        JsonV::Str(s) => QueryArrayV { default: s, overrides: Seq::empty() },
        JsonV::Array(a) => QueryArrayV {
            default: if a.len() > 0 {
                match a[0] {
                    JsonV::Str(s) => s,
                    _ => ","@,
                }
            } else {
                ","@
            },
            overrides: if a.len() > 1 {
                match a[1] {
                    JsonV::Object(m) => str_members(m),
                    _ => Seq::empty(),
                }
            } else {
                Seq::empty()
            },
        },
        _ => QueryArrayV { default: ","@, overrides: Seq::empty() },
    }
}

pub fn str_members_of(m: &Vec<(String, Json)>) -> (r: Vec<(String, String)>)
    ensures
        pairs_view(r@) == str_members(entries_view(m@)),
{
    proof {
        lemma_entries_view(m@);
    }
    let mut out: Vec<(String, String)> = Vec::new();
    let mut i: usize = 0;
    while i < m.len()
        invariant
            i <= m@.len(),
            entries_view(m@).len() == m@.len(),
            forall|j: int| 0 <= j < m@.len() ==> #[trigger] entries_view(m@)[j] == (m@[j].0@, m@[j].1@),
            pairs_view(out@) == str_members(entries_view(m@).take(i as int)),
        decreases m@.len() - i,
    {
        proof {
            assert(entries_view(m@).take(i + 1).drop_last() == entries_view(m@).take(i as int));
            assert(entries_view(m@).take(i + 1).last() == (m@[i as int].0@, m@[i as int].1@));
        }
        match &m[i].1 {
            Json::Str(s) => {
                let ghost before = out@;
                out.push((m[i].0.clone(), s.clone()));
                assert(pairs_view(out@) =~= pairs_view(before).push((m@[i as int].0@, s@)));
            },
            _ => {},
        }
        i = i + 1;
    }
    assert(entries_view(m@).take(m@.len() as int) == entries_view(m@));
    out
}

fn comma() -> (r: String)
    ensures
        r@ == ","@,
{
    let mut s = String::new();
    s.push(',');
    proof {
        reveal_strlit(",");
        assert(s@ =~= ","@);
    }
    s
}

impl QueryArrayConfig {
    /// Arrays joined with commas, no per-key strategies.
    pub fn new() -> (r: QueryArrayConfig)
        ensures
            r@ == (QueryArrayV { default: ","@, overrides: Seq::empty() }),
    {
        let o: Vec<(String, String)> = Vec::new();
        assert(pairs_view(o@) =~= Seq::<(Seq<char>, Seq<char>)>::empty());
        QueryArrayConfig { default: comma(), overrides: o }
    }

    /// The query pairs for an array under `key`, joined by the strategy configured for
    /// that key (or the default): `,` commas, `&` repeated keys, `[]` bracketed keys,
    /// `;` semicolons; any other strategy joins with commas.
    pub fn join(&self, key: &str, vals: &[String]) -> (r: Vec<String>)
        ensures
            string_seq(r@) == joined_pairs(self@, key@, string_seq(vals@)),
    {
        proof {
            reveal_strlit(",");
            reveal_strlit("&");
            reveal_strlit("[]");
            reveal_strlit(";");
        }
        let sep = match pair_lookup(&self.overrides, key) {
            Some(s) => s,
            None => &self.default,
        };
        let sv = sep.as_str();
        let ghost q = self@;
        let ghost vs = string_seq(vals@);
        let r = if str_eq(sv, ",") {
            let r = yttp_comma_join(key, vals);
            assert(join_strategy(q, key@) == ","@);
            assert(","@ != "&"@) by {
                assert(","@[0] != "&"@[0]);
            }
            assert(","@ != ";"@) by {
                assert(","@[0] != ";"@[0]);
            }
            assert(","@ != "[]"@) by {
                assert(","@.len() != "[]"@.len());
            }
            assert(string_seq(r@) =~= joined_pairs(q, key@, vs));
            r
        } else if str_eq(sv, "&") {
            let r = yttp_repeat_keys(key, vals);
            assert(join_strategy(q, key@) == "&"@);
            assert(string_seq(r@) =~= vs.map_values(|v: Seq<char>| component_pair(key@, "="@, v)));
            assert(string_seq(r@) =~= joined_pairs(q, key@, vs));
            r
        } else if str_eq(sv, "[]") {
            let r = yttp_bracket_join(key, vals);
            assert(join_strategy(q, key@) == "[]"@);
            assert(string_seq(r@) =~= joined_pairs(q, key@, vs));
            r
        } else if str_eq(sv, ";") {
            let r = yttp_semicolon_join(key, vals);
            assert(join_strategy(q, key@) == ";"@);
            assert(string_seq(r@) =~= joined_pairs(q, key@, vs));
            r
        } else {
            let r = yttp_comma_join(key, vals);
            assert(string_seq(r@) =~= joined_pairs(q, key@, vs));
            r
        };
        assert(string_seq(r@) =~= joined_pairs(self@, key@, string_seq(vals@)));
        r
    }

    /// An independent copy.
    pub fn copy(&self) -> (r: QueryArrayConfig)
        ensures
            r@ == self@,
    {
        let mut o: Vec<(String, String)> = Vec::new();
        let mut i: usize = 0;
        while i < self.overrides.len()
            invariant
                i <= self.overrides@.len(),
                o@.len() == i,
                forall|j: int| 0 <= j < i ==> #[trigger] o@[j].0@ == self.overrides@[j].0@ && o@[j].1@
                    == self.overrides@[j].1@,
            decreases self.overrides@.len() - i,
        {
            o.push((self.overrides[i].0.clone(), self.overrides[i].1.clone()));
            i = i + 1;
        }
        assert(pairs_view(o@) =~= pairs_view(self.overrides@));
        QueryArrayConfig { default: self.default.clone(), overrides: o }
    }
}

/// The strategy for arrays under `key`.
pub open spec fn join_strategy(q: QueryArrayV, key: Seq<char>) -> Seq<char> {
    match pair_get(q.overrides, key) {
        Some(s) => s,
        None => q.default,
    }
}

/// The query pairs an array of values gives under the configured strategy.
pub open spec fn joined_pairs(q: QueryArrayV, key: Seq<char>, vals: Seq<Seq<char>>) -> Seq<Seq<char>> {
    let s = join_strategy(q, key);
    if s == "&"@ {
        vals.map_values(|v: Seq<char>| component_pair(key, "="@, v))
    } else if s == "[]"@ {
        vals.map_values(|v: Seq<char>| component_pair(key, "[]="@, v))
    } else if s == ";"@ {
        seq![query_component(key) + "="@ + components_joined(vals, ";"@)]
    } else {
        seq![query_component(key) + "="@ + components_joined(vals, ","@)]
    }
}

/// Parse a `qarray` value.
pub fn parse_qarray_value(val: &Json) -> (r: QueryArrayConfig)
    ensures
        r@ == qarray_parsed(val@),
{
    match val {
        Json::Str(s) => {
            let o: Vec<(String, String)> = Vec::new();
            assert(pairs_view(o@) =~= Seq::<(Seq<char>, Seq<char>)>::empty());
            QueryArrayConfig { default: s.clone(), overrides: o }
        },
        Json::Array(a) => {
            proof {
                lemma_seq_view(a@);
            }
            let default = if a.len() > 0 {
                match &a[0] {
                    Json::Str(s) => s.clone(),
                    _ => comma(),
                }
            } else {
                comma()
            };
            let overrides = if a.len() > 1 {
                match &a[1] {
                    Json::Object(m) => str_members_of(m),
                    _ => {
                        let o: Vec<(String, String)> = Vec::new();
                        assert(pairs_view(o@) =~= Seq::<(Seq<char>, Seq<char>)>::empty());
                        o
                    },
                }
            } else {
                let o: Vec<(String, String)> = Vec::new();
                assert(pairs_view(o@) =~= Seq::<(Seq<char>, Seq<char>)>::empty());
                o
            };
            QueryArrayConfig { default, overrides }
        },
        _ => QueryArrayConfig::new(),
    }
}

/// The output destinations of an object: string values under output keys, in order.
pub open spec fn outputs_of(o: ObjV) -> Seq<(Seq<char>, Seq<char>)>
    decreases o.len(),
{
    if o.len() == 0 {
        Seq::empty()
    } else {
        let p = outputs_of(o.drop_last());
        match o.last().1 {
            JsonV::Str(s) => if output_key(o.last().0) {
                p.push((o.last().0, s))
            } else {
                p
            },
            _ => p,
        }
    }
}

/// `progress: true` turns progress on; a number gives the expected count, at least 1.
pub open spec fn progress_of(o: ObjV) -> Progress {
    match obj_get(o, "progress"@) {
        Some(JsonV::Bool(b)) => if b { Progress::On } else { Progress::Off },
        Some(JsonV::Number(n)) => {
            let c: u64 = match json_as_u64(JsonV::Number(n)) {
                Some(c) => c,
                None => 0,
            };
            Progress::Known(if c < 1 { 1 } else { c })
        },
        _ => Progress::Off,
    }
}

/// API aliases: a string `api` names the alias `api`; an object maps names to bases.
pub open spec fn apis_of(o: ObjV) -> Seq<(Seq<char>, Seq<char>)> {
    match obj_get(o, "api"@) {
        Some(JsonV::Str(u)) => seq![("api"@, u)],
        Some(JsonV::Object(m)) => str_members(m),
        _ => Seq::empty(),
    }
}

/// The first `k` rules, parsed in order; the first error stops.
pub open spec fn rules_parsed(a: Seq<JsonV>, env: EnvV, k: nat) -> Result<Seq<RuleV>, Seq<char>>
    decreases k,
{
    if k == 0 || k > a.len() {
        Ok(Seq::empty())
    } else {
        match rules_parsed(a, env, (k - 1) as nat) {
            Err(e) => Err(e),
            Ok(p) => match rule_parsed(a[k - 1], env) {
                Ok(r) => Ok(p.push(r)),
                Err(e) => Err(e),
            },
        }
    }
}

/// The `rules` of a configuration object.
pub open spec fn rules_of(o: ObjV, env: EnvV) -> Result<Seq<RuleV>, Seq<char>> {
    match obj_get(o, "rules"@) {
        Some(JsonV::Array(a)) => rules_parsed(a, env, a.len()),
        _ => Ok(Seq::empty()),
    }
}

/// A configuration value is usable: an object whose rules are usable.
pub open spec fn config_valid(v: JsonV) -> bool {
    match v {
        JsonV::Object(o) => match obj_get(o, "rules"@) {
            Some(JsonV::Array(a)) => forall|i: int| 0 <= i < a.len() ==> rule_valid(#[trigger] a[i]),
            _ => true,
        },
        _ => false,
    }
}

/// The configuration an object describes, or the first variable that cannot be resolved
/// in its default headers or, after them, in its rules.
pub open spec fn config_parsed(v: JsonV, env: EnvV) -> Result<ConfigV, Seq<char>> {
    match v {
        JsonV::Object(o) => match prepared_headers(headers_field(o), env) {
            Err(e) => Err(e),
            Ok(h) => match rules_of(o, env) {
                Err(e) => Err(e),
                Ok(rs) => Ok(
                    ConfigV {
                        default_headers: h,
                        default_outputs: outputs_of(o),
                        global_concurrency: match limit_field(o, "concurrency"@) {
                            Some(n) => n,
                            None => 1,
                        },
                        progress: progress_of(o),
                        rules: rs,
                        apis: apis_of(o),
                        qarray: match obj_get(o, "qarray"@) {
                            Some(q) => qarray_parsed(q),
                            None => QueryArrayV { default: ","@, overrides: Seq::empty() },
                        },
                    },
                ),
            },
        },
        _ => Err(Seq::empty()),
    }
}

proof fn lemma_rules_err(a: Seq<JsonV>, env: EnvV, i: nat, k: nat)
    requires
        1 <= i <= k <= a.len(),
        rules_parsed(a, env, i) is Err,
    ensures
        rules_parsed(a, env, k) == rules_parsed(a, env, i),
    decreases k - i,
{
    if k > i {
        lemma_rules_err(a, env, i, (k - 1) as nat);
    }
}

fn outputs_from(o: &Vec<(String, Json)>) -> (r: Vec<(String, String)>)
    ensures
        pairs_view(r@) == outputs_of(entries_view(o@)),
        forall|j: int| 0 <= j < r@.len() ==> output_key(#[trigger] r@[j].0@),
{
    proof {
        lemma_entries_view(o@);
    }
    let mut out: Vec<(String, String)> = Vec::new();
    let mut i: usize = 0;
    while i < o.len()
        invariant
            i <= o@.len(),
            entries_view(o@).len() == o@.len(),
            forall|j: int| 0 <= j < o@.len() ==> #[trigger] entries_view(o@)[j] == (o@[j].0@, o@[j].1@),
            pairs_view(out@) == outputs_of(entries_view(o@).take(i as int)),
            forall|j: int| 0 <= j < out@.len() ==> output_key(#[trigger] out@[j].0@),
        decreases o@.len() - i,
    {
        proof {
            assert(entries_view(o@).take(i + 1).drop_last() == entries_view(o@).take(i as int));
            assert(entries_view(o@).take(i + 1).last() == (o@[i as int].0@, o@[i as int].1@));
        }
        if is_output_key(o[i].0.as_str()) {
            match &o[i].1 {
                Json::Str(s) => {
                    let ghost before = out@;
                    out.push((o[i].0.clone(), s.clone()));
                    assert(pairs_view(out@) =~= pairs_view(before).push((o@[i as int].0@, s@)));
                },
                _ => {},
            }
        }
        i = i + 1;
    }
    assert(entries_view(o@).take(o@.len() as int) == entries_view(o@));
    out
}

fn progress_from(o: &Vec<(String, Json)>) -> (r: Progress)
    ensures
        r == progress_of(entries_view(o@)),
{
    proof {
        reveal_strlit("progress");
    }
    match obj_lookup(o, "progress") {
        Some(Json::Bool(b)) => if *b { Progress::On } else { Progress::Off },
        Some(Json::Number(n)) => {
            let c: u64 = match n {
                crate::json::JsonNumber::PosInt(u) => *u,
                _ => 0,
            };
            Progress::Known(if c < 1 { 1 } else { c })
        },
        _ => Progress::Off,
    }
}

fn apis_from(o: &Vec<(String, Json)>) -> (r: Vec<(String, String)>)
    ensures
        pairs_view(r@) == apis_of(entries_view(o@)),
{
    proof {
        reveal_strlit("api");
    }
    match obj_lookup(o, "api") {
        Some(Json::Str(u)) => {
            let mut name = String::new();
            push_str(&mut name, "api");
            let r = vec![(name, u.clone())];
            assert(pairs_view(r@) =~= seq![("api"@, u@)]);
            r
        },
        Some(Json::Object(m)) => str_members_of(m),
        _ => {
            let r: Vec<(String, String)> = Vec::new();
            assert(pairs_view(r@) =~= Seq::<(Seq<char>, Seq<char>)>::empty());
            r
        },
    }
}

#[verifier::loop_isolation(false)]
fn rules_from(o: &Vec<(String, Json)>, env: &Env) -> (r: Result<Vec<Rule>, String>)
    requires
        config_valid(JsonV::Object(entries_view(o@))),
    ensures
        match r {
            Ok(x) => rules_of(entries_view(o@), env@) == Ok::<Seq<RuleV>, Seq<char>>(rules_view(x@))
                && forall|j: int| 0 <= j < x@.len() ==> keys_unique(#[trigger] x@[j]@.headers),
            Err(e) => rules_of(entries_view(o@), env@) == Err::<Seq<RuleV>, Seq<char>>(e@),
        },
{
    proof {
        reveal_strlit("rules");
    }
    match obj_lookup(o, "rules") {
        Some(Json::Array(a)) => {
            proof {
                lemma_seq_view(a@);
            }
            let mut out: Vec<Rule> = Vec::new();
            let mut i: usize = 0;
            assert(rules_view(out@) =~= Seq::<RuleV>::empty());
            while i < a.len()
                invariant
                    i <= a@.len(),
                    seq_view(a@).len() == a@.len(),
                    forall|j: int| 0 <= j < a@.len() ==> #[trigger] seq_view(a@)[j] == a@[j]@,
                    forall|j: int| 0 <= j < a@.len() ==> rule_valid(#[trigger] seq_view(a@)[j]),
                    rules_parsed(seq_view(a@), env@, i as nat) == Ok::<Seq<RuleV>, Seq<char>>(
                        rules_view(out@),
                    ),
                    forall|j: int| 0 <= j < out@.len() ==> keys_unique(#[trigger] out@[j]@.headers),
                decreases a@.len() - i,
            {
                proof {
                    assert(rule_valid(seq_view(a@)[i as int]));
                }
                match parse_rule(&a[i], env) {
                    Ok(rule) => {
                        let ghost before = out@;
                        out.push(rule);
                        assert(rules_view(out@) =~= rules_view(before).push(out@.last()@));
                    },
                    Err(e) => {
                        proof {
                            lemma_rules_err(seq_view(a@), env@, (i + 1) as nat, a@.len() as nat);
                        }
                        return Err(e);
                    },
                }
                i = i + 1;
            }
            Ok(out)
        },
        _ => {
            let r: Vec<Rule> = Vec::new();
            assert(rules_view(r@) =~= Seq::<RuleV>::empty());
            Ok(r)
        },
    }
}

proof fn lemma_config_valid_rules(o: ObjV, a: Seq<JsonV>)
    requires
        obj_get(o, "rules"@) == Some(JsonV::Array(a)),
    ensures
        config_valid(JsonV::Object(o)) <==> (forall|j: int| 0 <= j < a.len() ==> rule_valid(#[trigger] a[j])),
{
    let g = obj_get(o, "rules"@);
    assert(g is Some);
    assert(g->Some_0 is Array);
    assert(g->Some_0->Array_0 == a);
    if config_valid(JsonV::Object(o)) {
        assert forall|j: int| 0 <= j < a.len() implies rule_valid(#[trigger] a[j]) by {
            assert(a[j] == g->Some_0->Array_0[j]);
        }
    }
}

/// Whether a value can be read as a configuration: an object whose `rules`, when a
/// list, holds only values that can be read as rules.
pub fn config_ok(v: &Json) -> (r: bool)
    ensures
        r == config_valid(v@),
{
    proof {
        reveal_strlit("rules");
    }
    match v {
        Json::Object(o) => match obj_lookup(o, "rules") {
            Some(Json::Array(a)) => {
                proof {
                    lemma_seq_view(a@);
                }
                let mut i: usize = 0;
                while i < a.len()
                    invariant
                        i <= a@.len(),
                        v@ == JsonV::Object(entries_view(o@)),
                        obj_get(entries_view(o@), "rules"@) == Some(JsonV::Array(seq_view(a@))),
                        seq_view(a@).len() == a@.len(),
                        forall|j: int| 0 <= j < a@.len() ==> #[trigger] seq_view(a@)[j] == a@[j]@,
                        forall|j: int| 0 <= j < i ==> rule_valid(#[trigger] seq_view(a@)[j]),
                    decreases a@.len() - i,
                {
                    if !rule_ok(&a[i]) {
                        assert(!rule_valid(seq_view(a@)[i as int]));
                        assert(!(forall|j: int| 0 <= j < seq_view(a@).len() ==> rule_valid(#[trigger] seq_view(a@)[j])));
                        proof {
                            lemma_config_valid_rules(entries_view(o@), seq_view(a@));
                        }
                        return false;
                    }
                    i = i + 1;
                }
                true
            },
            _ => true,
        },
        _ => false,
    }
}

impl Config {
    /// No defaults, no rules, no aliases; one request at a time.
    pub fn empty() -> (r: Config)
        ensures
            r@.default_headers.len() == 0,
            r@.default_outputs.len() == 0,
            r@.global_concurrency == 1,
            r@.progress == Progress::Off,
            r@.rules.len() == 0,
            r@.apis.len() == 0,
            r@.qarray == (QueryArrayV { default: ","@, overrides: Seq::empty() }),
    {
        let r = Config {
            default_headers: Vec::new(),
            default_outputs: Vec::new(),
            global_concurrency: 1,
            progress: Progress::Off,
            rules: Vec::new(),
            apis: Vec::new(),
            qarray: QueryArrayConfig::new(),
        };
        proof {
            lemma_entries_view(r.default_headers@);
        }
        r
    }

    /// Parse a configuration object, resolving header variables against `env`.
    pub fn parse(json: &Json, env: &Env) -> (r: Result<Config, String>)
        requires
            config_valid(json@),
        ensures
            match r {
                Ok(c) => config_parsed(json@, env@) == Ok::<ConfigV, Seq<char>>(c@),
                Err(e) => config_parsed(json@, env@) == Err::<ConfigV, Seq<char>>(e@),
            },
            r matches Ok(c) ==> forall|j: int| 0 <= j < c.default_outputs@.len() ==> output_key(#[trigger] c.default_outputs@[j].0@),
            r matches Ok(c) ==> keys_unique(c@.default_headers) && forall|j: int| 0 <= j < c@.rules.len() ==> keys_unique(
                #[trigger] c@.rules[j].headers,
            ),
    {
        proof {
            reveal_strlit("concurrency");
            reveal_strlit("qarray");
        }
        let o = match json {
            Json::Object(o) => o,
            _ => {
                return Err(String::new());
            },
        };
        let default_headers = match prepare_headers(headers_of(o), env) {
            Ok(h) => h,
            Err(e) => {
                return Err(e);
            },
        };
        let default_outputs = outputs_from(o);
        let global_concurrency = match limit_of(o, "concurrency") {
            Some(n) => n,
            None => 1,
        };
        let progress = progress_from(o);
        let rules = match rules_from(o, env) {
            Ok(r) => r,
            Err(e) => {
                return Err(e);
            },
        };
        let apis = apis_from(o);
        let qarray = match obj_lookup(o, "qarray") {
            Some(q) => parse_qarray_value(q),
            None => QueryArrayConfig::new(),
        };
        Config { default_headers, default_outputs, global_concurrency, progress, rules, apis, qarray }.into_ok()
    }

    fn into_ok(self) -> (r: Result<Config, String>)
        ensures
            r == Ok::<Config, String>(self),
    {
        Ok(self)
    }
}


/// One metadata condition holds: the request's `md` object has the field, equal to the
/// expected value.
pub open spec fn md_condition_holds(c: (Seq<char>, JsonV), md: Option<JsonV>) -> bool {
    match md {
        Some(JsonV::Object(o)) => match obj_get(o, c.0) {
            Some(a) => json_eq(a, c.1),
            None => false,
        },
        _ => false,
    }
}

/// The method and metadata conditions of a rule hold.
pub open spec fn rule_rest_holds(rule: RuleV, method: Seq<char>, md: Option<JsonV>) -> bool {
    &&& match rule.match_method {
        Some(m) => m == method,
        None => true,
    }
    &&& forall|i: int|
        0 <= i < rule.match_md.len() ==> #[trigger] md_condition_holds(rule.match_md[i], md)
}

/// Whether a rule matches a request; `None` where its URL pattern cannot be matched
/// against this URL (see `glob_result`).
pub open spec fn rule_outcome(rule: RuleV, method: Seq<char>, url: Seq<char>, md: Option<JsonV>) -> Option<bool> {
    match rule.match_url {
        Some(p) => match glob_result(p, url) {
            Some(true) => Some(rule_rest_holds(rule, method, md)),
            Some(false) => Some(false),
            None => None,
        },
        None => Some(rule_rest_holds(rule, method, md)),
    }
}

/// The URL pattern of a rule, if it has one, can be matched against `url`.
pub open spec fn pattern_defined(rule: RuleV, url: Seq<char>) -> bool {
    rule.match_url matches Some(p) ==> glob_result(p, url) is Some
}

/// Every rule's URL pattern can be matched against every URL.
pub proof fn lemma_pattern_defined(rule: RuleV, url: Seq<char>)
    ensures
        pattern_defined(rule, url),
{
    if let Some(p) = rule.match_url {
        crate::glob::lemma_glob_parts_total(crate::glob::glob_split(vstd::utf8::encode_utf8(p)), 0, vstd::utf8::encode_utf8(url));
    }
}

pub open spec fn opt_json_view(j: Option<Json>) -> Option<JsonV> {
    match j {
        Some(x) => Some(x@),
        None => None,
    }
}

/// Whether `rule` matches a request with this method, URL and metadata.
#[verifier::loop_isolation(false)]
pub fn rule_matches(rule: &Rule, method: &str, url: &str, md: &Option<Json>) -> (r: bool)
    ensures
        rule_outcome(rule@, method@, url@, opt_json_view(*md)) == Some(r),
{
    proof {
        lemma_pattern_defined(rule@, url@);
    }
    if let Some(pattern) = &rule.match_url {
        match glob_outcome(pattern.as_str(), url) {
            Some(true) => {},
            _ => {
                return false;
            },
        }
    }
    if let Some(m) = &rule.match_method {
        if !str_eq(m.as_str(), method) {
            return false;
        }
    }
    proof {
        lemma_entries_view(rule.match_md@);
    }
    let mut i: usize = 0;
    while i < rule.match_md.len()
        invariant
            i <= rule.match_md@.len(),
            entries_view(rule.match_md@).len() == rule.match_md@.len(),
            forall|j: int| 0 <= j < rule.match_md@.len() ==> #[trigger] entries_view(rule.match_md@)[j] == (
                rule.match_md@[j].0@,
                rule.match_md@[j].1@,
            ),
            forall|j: int| 0 <= j < i ==> #[trigger] md_condition_holds(rule@.match_md[j], opt_json_view(*md)),
        decreases rule.match_md@.len() - i,
    {
        let field = &rule.match_md[i];
        let ok = match md {
            Some(Json::Object(o)) => match obj_lookup(o, field.0.as_str()) {
                Some(a) => json_equal(a, &field.1),
                None => false,
            },
            _ => false,
        };
        if !ok {
            assert(!md_condition_holds(rule@.match_md[i as int], opt_json_view(*md)));
            return false;
        }
        i = i + 1;
    }
    true
}

/// `extra` merged into `base` member by member: later members replace earlier ones
/// with the same key, in place; new keys are appended.
pub open spec fn merged(base: ObjV, extra: ObjV) -> ObjV
    decreases extra.len(),
{
    if extra.len() == 0 {
        base
    } else {
        obj_insert(merged(base, extra.drop_last()), extra.last().0, extra.last().1)
    }
}

/// `base` with the headers of each matching rule merged in, in rule order.
pub open spec fn rules_applied(base: ObjV, rules: Seq<RuleV>, method: Seq<char>, url: Seq<char>, md: Option<JsonV>) -> ObjV
    decreases rules.len(),
{
    if rules.len() == 0 {
        base
    } else {
        let acc = rules_applied(base, rules.drop_last(), method, url, md);
        if rule_outcome(rules.last(), method, url, md) == Some(true) {
            merged(acc, rules.last().headers)
        } else {
            acc
        }
    }
}

/// Headers of a request: the defaults, then the headers of matching rules, then the
/// request's own headers (variables resolved, shortcuts expanded); later values
/// replace earlier ones with the same key.
pub open spec fn resolved_headers(c: ConfigV, method: Seq<char>, url: Seq<char>, md: Option<JsonV>, req: Option<JsonV>, env: EnvV) -> Result<ObjV, Seq<char>> {
    let base = rules_applied(c.default_headers, c.rules, method, url, md);
    match req {
        Some(JsonV::Object(h)) => match prepared_headers(h, env) {
            Ok(x) => Ok(merged(base, x)),
            Err(e) => Err(e),
        },
        _ => Ok(base),
    }
}

/// The cache settings of the first rule that has some and matches.
pub open spec fn first_cache(rules: Seq<RuleV>, method: Seq<char>, url: Seq<char>, md: Option<JsonV>) -> Option<CacheConfigV>
    decreases rules.len(),
{
    if rules.len() == 0 {
        None
    } else if rules[0].cache is Some && rule_outcome(rules[0], method, url, md) == Some(true) {
        rules[0].cache
    } else {
        first_cache(rules.drop_first(), method, url, md)
    }
}

/// The rules with cache settings can be tried in order up to the first that matches.
pub open spec fn cache_scan_defined(rules: Seq<RuleV>, method: Seq<char>, url: Seq<char>, md: Option<JsonV>) -> bool
    decreases rules.len(),
{
    if rules.len() == 0 {
        true
    } else if rules[0].cache is Some {
        match rule_outcome(rules[0], method, url, md) {
            None => false,
            Some(true) => true,
            Some(false) => cache_scan_defined(rules.drop_first(), method, url, md),
        }
    } else {
        cache_scan_defined(rules.drop_first(), method, url, md)
    }
}

/// Indices, in order, among the first `k` rules, of those with a concurrency limit that
/// match.
pub open spec fn limited_matches(rules: Seq<RuleV>, method: Seq<char>, url: Seq<char>, md: Option<JsonV>, k: nat) -> Seq<usize>
    decreases k,
{
    if k == 0 || k > rules.len() {
        Seq::empty()
    } else {
        let p = limited_matches(rules, method, url, md, (k - 1) as nat);
        if rules[k - 1].concurrency is Some && rule_outcome(rules[k - 1], method, url, md) == Some(true) {
            p.push((k - 1) as usize)
        } else {
            p
        }
    }
}

/// The rules with cache settings can always be tried: every pattern has an answer.
pub proof fn lemma_cache_scan_defined(rules: Seq<RuleV>, method: Seq<char>, url: Seq<char>, md: Option<JsonV>)
    ensures
        cache_scan_defined(rules, method, url, md),
    decreases rules.len(),
{
    if rules.len() > 0 {
        lemma_pattern_defined(rules[0], url);
        lemma_cache_scan_defined(rules.drop_first(), method, url, md);
    }
}

/// Merge `extra` into `base`.
pub fn merge_headers(base: &mut Vec<(String, Json)>, extra: &Vec<(String, Json)>)
    ensures
        entries_view(final(base)@) == merged(entries_view(old(base)@), entries_view(extra@)),
{
    proof {
        lemma_entries_view(extra@);
    }
    let ghost b0 = entries_view(base@);
    let mut i: usize = 0;
    while i < extra.len()
        invariant
            i <= extra@.len(),
            entries_view(extra@).len() == extra@.len(),
            forall|j: int| 0 <= j < extra@.len() ==> #[trigger] entries_view(extra@)[j] == (
                extra@[j].0@,
                extra@[j].1@,
            ),
            entries_view(base@) == merged(b0, entries_view(extra@).take(i as int)),
        decreases extra@.len() - i,
    {
        proof {
            assert(entries_view(extra@).take(i + 1).drop_last() == entries_view(extra@).take(i as int));
            assert(entries_view(extra@).take(i + 1).last() == (extra@[i as int].0@, extra@[i as int].1@));
        }
        obj_put(base, extra[i].0.clone(), extra[i].1.copy());
        i = i + 1;
    }
    assert(entries_view(extra@).take(extra@.len() as int) == entries_view(extra@));
}

impl Config {
    /// Merged headers for a request: defaults, then matching rules, then the request's
    /// own headers.
    pub fn resolve_headers(
        &self,
        method: &str,
        url: &str,
        md: &Option<Json>,
        request_headers: &Option<Json>,
        env: &Env,
    ) -> (r: Result<Vec<(String, Json)>, String>)
        ensures
            match r {
                Ok(h) => resolved_headers(self@, method@, url@, opt_json_view(*md), opt_json_view(*request_headers), env@)
                    == Ok::<ObjV, Seq<char>>(entries_view(h@)),
                Err(e) => resolved_headers(self@, method@, url@, opt_json_view(*md), opt_json_view(*request_headers), env@)
                    == Err::<ObjV, Seq<char>>(e@),
            },
    {
        let mut merged_h = copy_entries(&self.default_headers);
        let mut i: usize = 0;
        while i < self.rules.len()
            invariant
                i <= self.rules@.len(),
                entries_view(merged_h@) == rules_applied(
                    entries_view(self.default_headers@),
                    self@.rules.take(i as int),
                    method@,
                    url@,
                    opt_json_view(*md),
                ),
            decreases self.rules@.len() - i,
        {
            proof {
                assert(self@.rules.take(i + 1).drop_last() == self@.rules.take(i as int));
                assert(self@.rules.take(i + 1).last() == self.rules@[i as int]@);
            }
            let rule = &self.rules[i];
            if rule_matches(rule, method, url, md) {
                merge_headers(&mut merged_h, &rule.headers);
            }
            i = i + 1;
        }
        assert(self@.rules.take(self.rules@.len() as int) == self@.rules);
        match request_headers {
            Some(Json::Object(h)) => {
                match prepare_headers(copy_entries(h), env) {
                    Ok(x) => {
                        merge_headers(&mut merged_h, &x);
                        Ok(merged_h)
                    },
                    Err(e) => Err(e),
                }
            },
            _ => Ok(merged_h),
        }
    }

    /// The cache settings of the first rule that has some and matches.
    pub fn resolve_cache(&self, method: &str, url: &str, md: &Option<Json>) -> (r: Option<CacheConfig>)
        ensures
            match r {
                Some(c) => first_cache(self@.rules, method@, url@, opt_json_view(*md)) == Some(c@),
                None => first_cache(self@.rules, method@, url@, opt_json_view(*md)) is None,
            },
    {
        proof {
            lemma_cache_scan_defined(self@.rules, method@, url@, opt_json_view(*md));
        }
        let mut i: usize = 0;
        assert(self@.rules.skip(0) == self@.rules);
        while i < self.rules.len()
            invariant
                i <= self.rules@.len(),
                cache_scan_defined(self@.rules.skip(i as int), method@, url@, opt_json_view(*md)),
                first_cache(self@.rules, method@, url@, opt_json_view(*md)) == first_cache(
                    self@.rules.skip(i as int),
                    method@,
                    url@,
                    opt_json_view(*md),
                ),
            decreases self.rules@.len() - i,
        {
            proof {
                assert(self@.rules.skip(i as int)[0] == self.rules@[i as int]@);
                assert(self@.rules.skip(i as int).drop_first() == self@.rules.skip(i + 1));
            }
            let rule = &self.rules[i];
            if let Some(c) = &rule.cache {
                if rule_matches(rule, method, url, md) {
                    return Some(c.copy());
                }
            }
            i = i + 1;
        }
        None
    }

    /// Indices of the rules that have a concurrency limit and match.
    pub fn matching_concurrency_rules(&self, method: &str, url: &str, md: &Option<Json>) -> (r: Vec<usize>)
        ensures
            r@ == limited_matches(self@.rules, method@, url@, opt_json_view(*md), self@.rules.len()),
    {
        let mut out: Vec<usize> = Vec::new();
        let mut i: usize = 0;
        while i < self.rules.len()
            invariant
                i <= self.rules@.len(),
                self@.rules.len() == self.rules@.len(),
                out@ == limited_matches(self@.rules, method@, url@, opt_json_view(*md), i as nat),
            decreases self.rules@.len() - i,
        {
            let rule = &self.rules[i];
            assert(self@.rules[i as int] == rule@);
            if rule.concurrency.is_some() {
                if rule_matches(rule, method, url, md) {
                    out.push(i);
                }
            }
            i = i + 1;
        }
        out
    }
}


/// The parts joined with `sep` between them.
pub open spec fn joined(parts: Seq<Seq<char>>, sep: Seq<char>) -> Seq<char>
    decreases parts.len(),
{
    if parts.len() == 0 {
        Seq::empty()
    } else if parts.len() == 1 {
        parts[0]
    } else {
        joined(parts.drop_last(), sep) + sep + parts.last()
    }
}

pub open spec fn strings_view(v: Seq<String>) -> Seq<Seq<char>> {
    v.map_values(|s: String| s@)
}

/// Join strings with `sep` between them.
pub fn join_strings(parts: &Vec<String>, sep: &str) -> (r: String)
    ensures
        r@ == joined(strings_view(parts@), sep@),
{
    let mut out = String::new();
    let mut i: usize = 0;
    while i < parts.len()
        invariant
            i <= parts@.len(),
            out@ == joined(strings_view(parts@).take(i as int), sep@),
        decreases parts@.len() - i,
    {
        proof {
            assert(strings_view(parts@).take(i + 1).drop_last() == strings_view(parts@).take(i as int));
            assert(strings_view(parts@).take(i + 1).last() == parts@[i as int]@);
            if i == 0 {
                assert(strings_view(parts@).take(0) =~= Seq::<Seq<char>>::empty());
            }
        }
        if i > 0 {
            push_str(&mut out, sep);
        }
        push_str(&mut out, parts[i].as_str());
        i = i + 1;
    }
    assert(strings_view(parts@).take(parts@.len() as int) == strings_view(parts@));
    out
}

pub open spec fn first_names(v: Seq<(Seq<char>, Seq<char>)>) -> Seq<Seq<char>> {
    v.map_values(|p: (Seq<char>, Seq<char>)| p.0)
}

/// The pieces of a configuration summary, in order: aliases, header count, rule count,
/// concurrency above one, output keys.
pub open spec fn summary_parts(c: ConfigV) -> Seq<Seq<char>> {
    let n = c.default_headers.len();
    (if c.apis.len() > 0 {
        seq!["api: "@ + joined(first_names(c.apis), ", "@)]
    } else {
        Seq::empty()
    }) + (if n > 0 {
        seq!["h: "@ + decimal(n) + " header"@ + (if n == 1 { Seq::empty() } else { "s"@ })]
    } else {
        Seq::empty()
    }) + (if c.rules.len() > 0 {
        seq!["rules: "@ + decimal(c.rules.len())]
    } else {
        Seq::empty()
    }) + (if c.global_concurrency > 1 {
        seq!["concurrency: "@ + decimal(c.global_concurrency as nat)]
    } else {
        Seq::empty()
    }) + (if c.default_outputs.len() > 0 {
        seq!["output: "@ + joined(first_names(c.default_outputs), ", "@)]
    } else {
        Seq::empty()
    })
}

/// A one-line summary: the pieces joined with ` | `, or `(empty)`.
pub open spec fn summary_text(c: ConfigV) -> Seq<char> {
    if summary_parts(c).len() == 0 {
        "(empty)"@
    } else {
        joined(summary_parts(c), " | "@)
    }
}

fn first_strings(v: &Vec<(String, String)>) -> (r: Vec<String>)
    ensures
        strings_view(r@) == first_names(pairs_view(v@)),
{
    let mut out: Vec<String> = Vec::new();
    let mut i: usize = 0;
    while i < v.len()
        invariant
            i <= v@.len(),
            out@.len() == i,
            forall|j: int| 0 <= j < i ==> #[trigger] out@[j]@ == v@[j].0@,
        decreases v@.len() - i,
    {
        out.push(v[i].0.clone());
        i = i + 1;
    }
    assert(strings_view(out@) =~= first_names(pairs_view(v@)));
    out
}

impl Config {
    /// A one-line, human-readable summary of the configuration.
    pub fn summary(&self) -> (r: String)
        ensures
            r@ == summary_text(self@),
    {
        proof {
            lemma_entries_view(self.default_headers@);
            reveal_strlit("api: ");
            reveal_strlit(", ");
            reveal_strlit("h: ");
            reveal_strlit(" header");
            reveal_strlit("s");
            reveal_strlit("rules: ");
            reveal_strlit("concurrency: ");
            reveal_strlit("output: ");
            reveal_strlit("(empty)");
            reveal_strlit(" | ");
        }
        let mut parts: Vec<String> = Vec::new();
        let ghost c = self@;
        if self.apis.len() > 0 {
            let mut p = String::new();
            push_str(&mut p, "api: ");
            let names = join_strings(&first_strings(&self.apis), ", ");
            push_str(&mut p, names.as_str());
            parts.push(p);
        }
        let n = self.default_headers.len();
        if n > 0 {
            let mut p = String::new();
            push_str(&mut p, "h: ");
            push_str(&mut p, usize_to_decimal(n).as_str());
            push_str(&mut p, " header");
            if n != 1 {
                push_str(&mut p, "s");
            }
            assert(p@ == "h: "@ + decimal(n as nat) + " header"@ + (if n == 1 { Seq::<char>::empty() } else { "s"@ }));
            parts.push(p);
        }
        if self.rules.len() > 0 {
            let mut p = String::new();
            push_str(&mut p, "rules: ");
            push_str(&mut p, usize_to_decimal(self.rules.len()).as_str());
            parts.push(p);
        }
        if self.global_concurrency > 1 {
            let mut p = String::new();
            push_str(&mut p, "concurrency: ");
            push_str(&mut p, usize_to_decimal(self.global_concurrency).as_str());
            parts.push(p);
        }
        if self.default_outputs.len() > 0 {
            let mut p = String::new();
            push_str(&mut p, "output: ");
            let keys = join_strings(&first_strings(&self.default_outputs), ", ");
            push_str(&mut p, keys.as_str());
            parts.push(p);
        }
        proof {
            assert(strings_view(parts@) =~= summary_parts(c));
        }
        if parts.len() == 0 {
            let mut s = String::new();
            push_str(&mut s, "(empty)");
            s
        } else {
            join_strings(&parts, " | ")
        }
    }
}


/// An independent copy of a list of string pairs.
pub fn copy_pairs(v: &Vec<(String, String)>) -> (r: Vec<(String, String)>)
    ensures
        pairs_view(r@) == pairs_view(v@),
{
    let mut r: Vec<(String, String)> = Vec::new();
    let mut i: usize = 0;
    while i < v.len()
        invariant
            i <= v@.len(),
            pairs_view(r@) == pairs_view(v@).take(i as int),
        decreases v@.len() - i,
    {
        let a = v[i].0.clone();
        let b = v[i].1.clone();
        let ghost before = pairs_view(r@);
        r.push((a, b));
        assert(pairs_view(r@) =~= before.push((v@[i as int].0@, v@[i as int].1@)));
        assert(pairs_view(v@).take(i + 1) =~= pairs_view(v@).take(i as int).push((v@[i as int].0@, v@[i as int].1@)));
        i = i + 1;
    }
    assert(pairs_view(v@).take(v@.len() as int) =~= pairs_view(v@));
    r
}

impl Rule {
    /// An independent copy.
    pub fn copy(&self) -> (r: Rule)
        ensures
            r@ == self@,
    {
        Rule {
            match_url: match &self.match_url {
                Some(u) => Some(u.clone()),
                None => None,
            },
            match_method: match &self.match_method {
                Some(m) => Some(m.clone()),
                None => None,
            },
            match_md: copy_entries(&self.match_md),
            headers: copy_entries(&self.headers),
            concurrency: self.concurrency,
            cache: match &self.cache {
                Some(c) => Some(c.copy()),
                None => None,
            },
        }
    }
}

impl Config {
    /// An independent copy.
    pub fn copy(&self) -> (r: Config)
        ensures
            r@ == self@,
    {
        let mut rules: Vec<Rule> = Vec::new();
        let mut i: usize = 0;
        while i < self.rules.len()
            invariant
                i <= self.rules@.len(),
                rules_view(rules@) == rules_view(self.rules@).take(i as int),
            decreases self.rules@.len() - i,
        {
            let c = self.rules[i].copy();
            let ghost before = rules_view(rules@);
            rules.push(c);
            assert(rules_view(rules@) =~= before.push(self.rules@[i as int]@));
            assert(rules_view(self.rules@).take(i + 1) =~= rules_view(self.rules@).take(i as int).push(self.rules@[i as int]@));
            i = i + 1;
        }
        assert(rules_view(self.rules@).take(self.rules@.len() as int) =~= rules_view(self.rules@));
        Config {
            default_headers: copy_entries(&self.default_headers),
            default_outputs: copy_pairs(&self.default_outputs),
            global_concurrency: self.global_concurrency,
            progress: self.progress,
            rules,
            apis: copy_pairs(&self.apis),
            qarray: self.qarray.copy(),
        }
    }
}
} // verus!

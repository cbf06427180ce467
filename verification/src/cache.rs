//! Response caching rules: which parts of a request make up the cache key, how long an
//! entry lives, and where the store is kept.
use vstd::prelude::*;
use crate::env::{Env, EnvV, env_get, env_lookup};
use crate::json::{Json, JsonNumber, JsonV, NumV, ObjV, entries_view, lemma_entries_view, lemma_seq_view, obj_get, obj_lookup, seq_view};
use crate::text::{push_str, starts_with, str_eq, chars_of, string_from_range, is_prefix};
use crate::trusted::{ascii_lower, lowercased, sha256, sha256_digest, to_lower};
use crate::json::{json_text, to_json_text};
use vstd::utf8::encode_utf8;

verus! {

/// One part of a request that goes into a cache key.
#[derive(Debug, PartialEq)]
pub enum CacheKey {
    Method,
    Url,
    Body,
    Auth,
    AllHeaders,
    Header(String),
}

/// The mathematical content of a `CacheKey`.
pub enum CacheKeyV {
    Method,
    Url,
    Body,
    Auth,
    AllHeaders,
    Header(Seq<char>),
}

impl View for CacheKey {
    type V = CacheKeyV;

    open spec fn view(&self) -> CacheKeyV {
        match self {
            CacheKey::Method => CacheKeyV::Method,
            CacheKey::Url => CacheKeyV::Url,
            CacheKey::Body => CacheKeyV::Body,
            CacheKey::Auth => CacheKeyV::Auth,
            CacheKey::AllHeaders => CacheKeyV::AllHeaders,
            CacheKey::Header(h) => CacheKeyV::Header(h@),
        }
    }
}

pub open spec fn keys_view(k: Seq<CacheKey>) -> Seq<CacheKeyV> {
    k.map_values(|c: CacheKey| c@)
}

/// Cache settings of a rule.
#[derive(Debug)]
pub struct CacheConfig {
    pub ttl: u64,
    pub keys: Vec<CacheKey>,
    pub at: String,
}

/// The mathematical content of a `CacheConfig`.
pub struct CacheConfigV {
    pub ttl: u64,
    pub keys: Seq<CacheKeyV>,
    pub at: Seq<char>,
}

impl View for CacheConfig {
    type V = CacheConfigV;

    open spec fn view(&self) -> CacheConfigV {
        CacheConfigV { ttl: self.ttl, keys: keys_view(self.keys@), at: self.at@ }
    }
}

/// The value of a variable that is set and valid Unicode.
pub open spec fn env_text(env: EnvV, name: Seq<char>) -> Option<Seq<char>> {
    match env_get(env, name) {
        Some(Some(v)) => Some(v),
        _ => None,
    }
}

/// The default store directory: `$XDG_CACHE_HOME/yurl`, else `$HOME/.cache/yurl`, else
/// `~/.cache/yurl`.
pub open spec fn cache_dir(env: EnvV) -> Seq<char> {
    match env_text(env, "XDG_CACHE_HOME"@) {
        Some(d) => d + "/yurl"@,
        None => match env_text(env, "HOME"@) {
            Some(h) => h + "/.cache"@ + "/yurl"@,
            None => "~/.cache/yurl"@,
        },
    }
}

/// Keys used when a rule names none: method, URL and body.
pub open spec fn default_keys() -> Seq<CacheKeyV> {
    seq![CacheKeyV::Method, CacheKeyV::Url, CacheKeyV::Body]
}

/// Settings of `cache: true`: entries never expire, keyed by method, URL and body.
pub open spec fn default_cache_config(env: EnvV) -> CacheConfigV {
    CacheConfigV { ttl: 0, keys: default_keys(), at: cache_dir(env) }
}

/// The key part a name stands for: `m`, `u`, `b`, `a`, `h` or `h.<header>`.
pub open spec fn cache_key_named(s: Seq<char>) -> Option<CacheKeyV> {
    if s == "m"@ {
        Some(CacheKeyV::Method)
    } else if s == "u"@ {
        Some(CacheKeyV::Url)
    } else if s == "b"@ {
        Some(CacheKeyV::Body)
    } else if s == "a"@ {
        Some(CacheKeyV::Auth)
    } else if s == "h"@ {
        Some(CacheKeyV::AllHeaders)
    } else if is_prefix("h."@, s) {
        Some(CacheKeyV::Header(s.skip(2)))
    } else {
        None
    }
}

/// A number read as `serde_json`'s `as_u64` reads it.
pub open spec fn json_as_u64(v: JsonV) -> Option<u64> {
    match v {
        JsonV::Number(NumV::PosInt(u)) => Some(u),
        _ => None,
    }
}

/// The key parts named by the string items of an array; other items are skipped.
pub open spec fn cache_keys_of(a: Seq<JsonV>) -> Seq<CacheKeyV>
    decreases a.len(),
{
    if a.len() == 0 {
        Seq::empty()
    } else {
        let p = cache_keys_of(a.drop_last());
        match a.last() {
            JsonV::Str(s) => match cache_key_named(s) {
                Some(k) => p.push(k),
                None => p,
            },
            _ => p,
        }
    }
}

/// Every string item names a key part.
pub open spec fn key_names_valid(a: Seq<JsonV>) -> bool {
    forall|i: int| 0 <= i < a.len() ==> (#[trigger] a[i] matches JsonV::Str(s) ==> cache_key_named(s) is Some)
}

/// A `cache` value is usable: where it lists `keys`, each string names a key part.
pub open spec fn cache_value_valid(v: JsonV) -> bool {
    match v {
        JsonV::Object(o) => match obj_get(o, "keys"@) {
            Some(JsonV::Array(a)) => key_names_valid(a),
            _ => true,
        },
        _ => true,
    }
}

/// The settings a `cache` value gives: `true` for the defaults, an object to override
/// some of them, anything else for none.
pub open spec fn cache_parsed(v: JsonV, env: EnvV) -> Option<CacheConfigV> {
    match v {
        JsonV::Bool(b) => if b { Some(default_cache_config(env)) } else { None },
        JsonV::Object(o) => Some(CacheConfigV {
            ttl: match obj_get(o, "ttl"@) {
                Some(t) => match json_as_u64(t) {
                    Some(n) => n,
                    None => 0,
                },
                None => 0,
            },
            keys: match obj_get(o, "keys"@) {
                Some(JsonV::Array(a)) => cache_keys_of(a),
                _ => default_keys(),
            },
            at: match obj_get(o, "at"@) {
                Some(JsonV::Str(s)) => s,
                _ => cache_dir(env),
            },
        }),
        _ => None,
    }
}

fn env_value(env: &Env, name: &str) -> (r: Option<String>)
    ensures
        match r {
            Some(v) => env_text(env@, name@) == Some(v@),
            None => env_text(env@, name@) is None,
        },
{
    match env_lookup(env, name) {
        Some(Some(v)) => Some(v),
        _ => None,
    }
}

/// The default store directory for this environment.
pub fn default_cache_dir(env: &Env) -> (r: String)
    ensures
        r@ == cache_dir(env@),
{
    proof {
        reveal_strlit("XDG_CACHE_HOME");
        reveal_strlit("HOME");
        reveal_strlit("/yurl");
        reveal_strlit("/.cache");
        reveal_strlit("~/.cache/yurl");
    }
    match env_value(env, "XDG_CACHE_HOME") {
        Some(mut d) => {
            push_str(&mut d, "/yurl");
            d
        },
        None => match env_value(env, "HOME") {
            Some(mut h) => {
                push_str(&mut h, "/.cache");
                push_str(&mut h, "/yurl");
                h
            },
            None => {
                let mut s = String::new();
                push_str(&mut s, "~/.cache/yurl");
                s
            },
        },
    }
}

fn default_key_list() -> (r: Vec<CacheKey>)
    ensures
        keys_view(r@) == default_keys(),
{
    let r = vec![CacheKey::Method, CacheKey::Url, CacheKey::Body];
    assert(keys_view(r@) =~= default_keys());
    r
}

impl CacheConfig {
    /// The settings of `cache: true` in this environment.
    pub fn default_for(env: &Env) -> (r: CacheConfig)
        ensures
            r@ == default_cache_config(env@),
    {
        CacheConfig { ttl: 0, keys: default_key_list(), at: default_cache_dir(env) }
    }

    /// An independent copy.
    pub fn copy(&self) -> (r: CacheConfig)
        ensures
            r@ == self@,
    {
        let mut keys: Vec<CacheKey> = Vec::new();
        let mut i: usize = 0;
        while i < self.keys.len()
            invariant
                i <= self.keys@.len(),
                keys@.len() == i,
                forall|j: int| 0 <= j < i ==> #[trigger] keys@[j]@ == self.keys@[j]@,
            decreases self.keys@.len() - i,
        {
            let k = match &self.keys[i] {
                CacheKey::Method => CacheKey::Method,
                CacheKey::Url => CacheKey::Url,
                CacheKey::Body => CacheKey::Body,
                CacheKey::Auth => CacheKey::Auth,
                CacheKey::AllHeaders => CacheKey::AllHeaders,
                CacheKey::Header(h) => CacheKey::Header(h.clone()),
            };
            keys.push(k);
            i = i + 1;
        }
        assert(keys_view(keys@) =~= keys_view(self.keys@));
        CacheConfig { ttl: self.ttl, keys, at: self.at.clone() }
    }
}

/// Whether a name stands for a key part.
pub fn is_cache_key_name(s: &str) -> (r: bool)
    ensures
        r == (cache_key_named(s@) is Some),
{
    str_eq(s, "m") || str_eq(s, "u") || str_eq(s, "b") || str_eq(s, "a") || str_eq(s, "h") || starts_with(s, "h.")
}

/// Whether a `cache` value is usable: every string it lists under `keys` names a key part.
pub fn cache_value_ok(v: &Json) -> (r: bool)
    ensures
        r == cache_value_valid(v@),
{
    proof {
        reveal_strlit("keys");
    }
    match v {
        Json::Object(o) => match obj_lookup(o, "keys") {
            Some(Json::Array(a)) => {
                proof {
                    lemma_seq_view(a@);
                }
                let mut i: usize = 0;
                while i < a.len()
                    invariant
                        i <= a@.len(),
                        v@ == JsonV::Object(entries_view(o@)),
                        obj_get(entries_view(o@), "keys"@) == Some(JsonV::Array(seq_view(a@))),
                        seq_view(a@).len() == a@.len(),
                        forall|j: int| 0 <= j < a@.len() ==> #[trigger] seq_view(a@)[j] == a@[j]@,
                        forall|j: int| 0 <= j < i ==> (#[trigger] seq_view(a@)[j] matches JsonV::Str(s) ==> cache_key_named(s) is Some),
                    decreases a@.len() - i,
                {
                    if let Json::Str(s) = &a[i] {
                        if !is_cache_key_name(s.as_str()) {
                            assert(!(seq_view(a@)[i as int] matches JsonV::Str(t) ==> cache_key_named(t) is Some));
                            assert(!key_names_valid(seq_view(a@)));
                            return false;
                        }
                    }
                    i = i + 1;
                }
                true
            },
            _ => true,
        },
        _ => true,
    }
}

/// The key part a name stands for.
pub fn parse_cache_key(s: &str) -> (r: CacheKey)
    requires
        cache_key_named(s@) is Some,
    ensures
        cache_key_named(s@) == Some(r@),
{
    proof {
        reveal_strlit("h.");
    }
    if str_eq(s, "m") {
        CacheKey::Method
    } else if str_eq(s, "u") {
        CacheKey::Url
    } else if str_eq(s, "b") {
        CacheKey::Body
    } else if str_eq(s, "a") {
        CacheKey::Auth
    } else if str_eq(s, "h") {
        CacheKey::AllHeaders
    } else {
        let v = chars_of(s);
        CacheKey::Header(string_from_range(&v, 2, v.len()))
    }
}

/// A number read as `serde_json`'s `as_u64` reads it.
pub fn as_u64(v: &Json) -> (r: Option<u64>)
    ensures
        r == json_as_u64(v@),
{
    match v {
        Json::Number(JsonNumber::PosInt(u)) => Some(*u),
        _ => None,
    }
}

fn keys_from(a: &Vec<Json>) -> (r: Vec<CacheKey>)
    requires
        key_names_valid(seq_view(a@)),
    ensures
        keys_view(r@) == cache_keys_of(seq_view(a@)),
{
    proof {
        lemma_seq_view(a@);
    }
    let mut keys: Vec<CacheKey> = Vec::new();
    let mut i: usize = 0;
    while i < a.len()
        invariant
            i <= a@.len(),
            seq_view(a@).len() == a@.len(),
            forall|j: int| 0 <= j < a@.len() ==> #[trigger] seq_view(a@)[j] == a@[j]@,
            key_names_valid(seq_view(a@)),
            keys_view(keys@) == cache_keys_of(seq_view(a@).take(i as int)),
        decreases a@.len() - i,
    {
        proof {
            assert(seq_view(a@).take(i + 1).drop_last() == seq_view(a@).take(i as int));
            assert(seq_view(a@).take(i + 1).last() == a@[i as int]@);
            assert(seq_view(a@)[i as int] == a@[i as int]@);
        }
        match &a[i] {
            Json::Str(s) => {
                let k = parse_cache_key(s.as_str());
                let ghost before = keys@;
                keys.push(k);
                assert(keys_view(keys@) =~= keys_view(before).push(k@));
            },
            _ => {},
        }
        i = i + 1;
    }
    assert(seq_view(a@).take(a@.len() as int) == seq_view(a@));
    keys
}

/// Parse the `cache` field of a rule.
pub fn parse_cache(val: &Json, env: &Env) -> (r: Option<CacheConfig>)
    requires
        cache_value_valid(val@),
    ensures
        match r {
            Some(c) => cache_parsed(val@, env@) == Some(c@),
            None => cache_parsed(val@, env@) is None,
        },
{
    proof {
        reveal_strlit("ttl");
        reveal_strlit("keys");
        reveal_strlit("at");
    }
    match val {
        Json::Bool(b) => if *b {
            Some(CacheConfig::default_for(env))
        } else {
            None
        },
        Json::Object(o) => {
            let ttl = match obj_lookup(o, "ttl") {
                Some(t) => match as_u64(t) {
                    Some(n) => n,
                    None => 0,
                },
                None => 0,
            };
            let keys = match obj_lookup(o, "keys") {
                Some(Json::Array(a)) => keys_from(a),
                _ => default_key_list(),
            };
            let at = match obj_lookup(o, "at") {
                Some(Json::Str(s)) => s.clone(),
                _ => default_cache_dir(env),
            };
            Some(CacheConfig { ttl, keys, at })
        },
        _ => None,
    }
}


/// Equal ignoring ASCII case, as `str::eq_ignore_ascii_case` compares.
pub open spec fn eq_ignore_case(a: Seq<char>, b: Seq<char>) -> bool {
    a.len() == b.len() && forall|i: int| 0 <= i < a.len() ==> ascii_lower(#[trigger] a[i]) == ascii_lower(b[i])
}

/// The value of the first header whose name equals `name` ignoring ASCII case.
pub open spec fn header_ci(h: ObjV, name: Seq<char>) -> Option<JsonV>
    decreases h.len(),
{
    if h.len() == 0 {
        None
    } else if eq_ignore_case(h[0].0, name) {
        Some(h[0].1)
    } else {
        header_ci(h.drop_first(), name)
    }
}

/// The text a header value contributes: a string's characters, nothing otherwise.
pub open spec fn str_or_empty(v: JsonV) -> Seq<char> {
    match v {
        JsonV::Str(s) => s,
        _ => Seq::empty(),
    }
}

/// `a` sorts before `b`: lexicographic order of characters, as `String`'s `Ord` gives.
pub open spec fn text_lt(a: Seq<char>, b: Seq<char>) -> bool
    decreases a.len(),
{
    if b.len() == 0 {
        false
    } else if a.len() == 0 {
        true
    } else if a[0] != b[0] {
        a[0] < b[0]
    } else {
        text_lt(a.drop_first(), b.drop_first())
    }
}

/// `e` inserted after every member whose lower-cased name does not sort after its own.
pub open spec fn sorted_insert(s: ObjV, e: (Seq<char>, JsonV)) -> ObjV
    decreases s.len(),
{
    if s.len() == 0 {
        seq![e]
    } else if text_lt(lowercased(e.0), lowercased(s.last().0)) {
        sorted_insert(s.drop_last(), e).push(s.last())
    } else {
        s.push(e)
    }
}

/// Headers in a stable order of their lower-cased names.
pub open spec fn sorted_headers(h: ObjV) -> ObjV
    decreases h.len(),
{
    if h.len() == 0 {
        Seq::empty()
    } else {
        sorted_insert(sorted_headers(h.drop_last()), h.last())
    }
}

/// Each header's name then its text, concatenated.
pub open spec fn headers_bytes(h: ObjV) -> Seq<u8>
    decreases h.len(),
{
    if h.len() == 0 {
        Seq::empty()
    } else {
        headers_bytes(h.drop_last()) + encode_utf8(h.last().0) + encode_utf8(str_or_empty(h.last().1))
    }
}

/// The bytes one key part contributes.
pub open spec fn part_bytes(k: CacheKeyV, method: Seq<char>, url: Seq<char>, body: Option<JsonV>, headers: ObjV) -> Seq<u8> {
    match k {
        CacheKeyV::Method => encode_utf8(method),
        CacheKeyV::Url => encode_utf8(url),
        CacheKeyV::Body => match body {
            Some(b) => encode_utf8(json_text(b)),
            None => Seq::empty(),
        },
        CacheKeyV::Auth => match header_ci(headers, "authorization"@) {
            Some(v) => encode_utf8(str_or_empty(v)),
            None => Seq::empty(),
        },
        CacheKeyV::AllHeaders => headers_bytes(sorted_headers(headers)),
        CacheKeyV::Header(n) => match header_ci(headers, n) {
            Some(v) => encode_utf8(str_or_empty(v)),
            None => Seq::empty(),
        },
    }
}

/// The bytes that are hashed: each configured part in order.
pub open spec fn key_material(keys: Seq<CacheKeyV>, method: Seq<char>, url: Seq<char>, body: Option<JsonV>, headers: ObjV) -> Seq<u8>
    decreases keys.len(),
{
    if keys.len() == 0 {
        Seq::empty()
    } else {
        key_material(keys.drop_last(), method, url, body, headers) + part_bytes(keys.last(), method, url, body, headers)
    }
}

pub open spec fn hex_digit(d: u8) -> char {
    if d < 10 { ((d as u32) + 48) as char } else { ((d as u32) + 87) as char }
}

/// Lower-case hexadecimal, two digits per byte.
pub open spec fn hex_text(b: Seq<u8>) -> Seq<char>
    decreases b.len(),
{
    if b.len() == 0 {
        Seq::empty()
    } else {
        hex_text(b.drop_last()) + seq![hex_digit(b.last() / 16), hex_digit(b.last() % 16)]
    }
}

/// A lower-case hexadecimal digit.
pub open spec fn is_lower_hex(c: char) -> bool {
    ('0' <= c && c <= '9') || ('a' <= c && c <= 'f')
}

pub proof fn lemma_hex_text(b: Seq<u8>)
    ensures
        hex_text(b).len() == 2 * b.len(),
        forall|i: int| 0 <= i < hex_text(b).len() ==> is_lower_hex(#[trigger] hex_text(b)[i]),
    decreases b.len(),
{
    if b.len() > 0 {
        lemma_hex_text(b.drop_last());
        let a = hex_text(b.drop_last());
        let x = b.last();
        assert(x / 16 < 16 && x % 16 < 16) by (nonlinear_arith);
        assert forall|i: int| 0 <= i < hex_text(b).len() implies is_lower_hex(#[trigger] hex_text(b)[i]) by {
            if i < a.len() {
                assert(hex_text(b)[i] == a[i]);
            }
        }
    }
}

fn hex_char(d: u8) -> (c: char)
    requires
        d < 16,
    ensures
        c == hex_digit(d),
{
    if d < 10 { (d + 48) as char } else { (d + 87) as char }
}

/// Lower-case hexadecimal text of some bytes.
pub fn to_hex(b: &Vec<u8>) -> (r: String)
    ensures
        r@ == hex_text(b@),
{
    let mut out = String::new();
    let mut i: usize = 0;
    while i < b.len()
        invariant
            i <= b@.len(),
            out@ == hex_text(b@.take(i as int)),
        decreases b@.len() - i,
    {
        proof {
            assert(b@.take(i + 1).drop_last() == b@.take(i as int));
        }
        out.push(hex_char(b[i] / 16));
        out.push(hex_char(b[i] % 16));
        i = i + 1;
    }
    assert(b@.take(b@.len() as int) == b@);
    out
}

/// Whether two strings are equal ignoring ASCII case.
pub fn chars_eq_ignore_case_pub(a: &str, b: &str) -> (r: bool)
    ensures
        r == eq_ignore_case(a@, b@),
{
    chars_eq_ignore_case(a, b)
}

fn chars_eq_ignore_case(a: &str, b: &str) -> (r: bool)
    ensures
        r == eq_ignore_case(a@, b@),
{
    let va = chars_of(a);
    let vb = chars_of(b);
    if va.len() != vb.len() {
        return false;
    }
    let mut i: usize = 0;
    while i < va.len()
        invariant
            i <= va@.len(),
            va@.len() == vb@.len(),
            va@ == a@,
            vb@ == b@,
            forall|j: int| 0 <= j < i ==> ascii_lower(#[trigger] va@[j]) == ascii_lower(vb@[j]),
        decreases va@.len() - i,
    {
        let x = va[i];
        let y = vb[i];
        let lx: u32 = if 'A' <= x && x <= 'Z' { (x as u32) + 32 } else { x as u32 };
        let ly: u32 = if 'A' <= y && y <= 'Z' { (y as u32) + 32 } else { y as u32 };
        assert(lx == ascii_lower(x) as u32);
        assert(ly == ascii_lower(y) as u32);
        if lx != ly {
            return false;
        }
        i = i + 1;
    }
    true
}

/// The value of the first header whose name equals `name` ignoring ASCII case.
pub fn find_header_ci<'a>(h: &'a Vec<(String, Json)>, name: &str) -> (r: Option<&'a Json>)
    ensures
        match r {
            Some(v) => header_ci(entries_view(h@), name@) == Some(v@),
            None => header_ci(entries_view(h@), name@) is None,
        },
{
    proof {
        lemma_entries_view(h@);
    }
    let mut i: usize = 0;
    assert(entries_view(h@).skip(0) == entries_view(h@));
    while i < h.len()
        invariant
            i <= h@.len(),
            entries_view(h@).len() == h@.len(),
            forall|j: int| 0 <= j < h@.len() ==> #[trigger] entries_view(h@)[j] == (h@[j].0@, h@[j].1@),
            header_ci(entries_view(h@), name@) == header_ci(entries_view(h@).skip(i as int), name@),
        decreases h@.len() - i,
    {
        proof {
            assert(entries_view(h@).skip(i as int)[0] == entries_view(h@)[i as int]);
            assert(entries_view(h@).skip(i as int).drop_first() == entries_view(h@).skip(i + 1));
        }
        if chars_eq_ignore_case(h[i].0.as_str(), name) {
            return Some(&h[i].1);
        }
        i = i + 1;
    }
    None
}

fn text_less(a: &Vec<char>, b: &Vec<char>) -> (r: bool)
    ensures
        r == text_lt(a@, b@),
{
    let mut i: usize = 0;
    assert(a@.skip(0) == a@);
    assert(b@.skip(0) == b@);
    while i < a.len() && i < b.len() && a[i] == b[i]
        invariant
            i <= a@.len(),
            i <= b@.len(),
            text_lt(a@, b@) == text_lt(a@.skip(i as int), b@.skip(i as int)),
        decreases a@.len() - i,
    {
        proof {
            assert(a@.skip(i as int).drop_first() == a@.skip(i + 1));
            assert(b@.skip(i as int).drop_first() == b@.skip(i + 1));
        }
        i = i + 1;
    }
    if i == b.len() {
        false
    } else if i == a.len() {
        true
    } else {
        a[i] < b[i]
    }
}

fn push_str_bytes(out: &mut Vec<u8>, s: &str)
    ensures
        final(out)@ == old(out)@ + encode_utf8(s@),
{
    let b = s.as_bytes();
    let mut i: usize = 0;
    while i < b.len()
        invariant
            i <= b@.len(),
            b@ == encode_utf8(s@),
            out@ == old(out)@ + b@.take(i as int),
        decreases b@.len() - i,
    {
        out.push(b[i]);
        proof {
            assert(b@.take(i + 1) == b@.take(i as int).push(b@[i as int]));
        }
        i = i + 1;
    }
    assert(b@.take(b@.len() as int) == b@);
}

fn value_text<'a>(v: &'a Json) -> (r: &'a str)
    ensures
        r@ == str_or_empty(v@),
{
    match v {
        Json::Str(s) => s.as_str(),
        _ => {
            proof {
                reveal_strlit("");
            }
            ""
        },
    }
}

/// Headers with lower-cased names, in the stable order of those names.
fn sort_headers(h: &Vec<(String, Json)>) -> (r: Vec<(String, Json, Vec<char>)>)
    ensures
        r@.map_values(|e: (String, Json, Vec<char>)| (e.0@, e.1@)) == sorted_headers(entries_view(h@)),
        forall|i: int| 0 <= i < r@.len() ==> (#[trigger] r@[i]).2@ == lowercased(r@[i].0@),
{
    proof {
        lemma_entries_view(h@);
    }
    let mut out: Vec<(String, Json, Vec<char>)> = Vec::new();
    let mut i: usize = 0;
    while i < h.len()
        invariant
            i <= h@.len(),
            entries_view(h@).len() == h@.len(),
            forall|j: int| 0 <= j < h@.len() ==> #[trigger] entries_view(h@)[j] == (h@[j].0@, h@[j].1@),
            out@.map_values(|e: (String, Json, Vec<char>)| (e.0@, e.1@)) == sorted_headers(entries_view(h@).take(i as int)),
            forall|j: int| 0 <= j < out@.len() ==> (#[trigger] out@[j]).2@ == lowercased(out@[j].0@),
        decreases h@.len() - i,
    {
        proof {
            assert(entries_view(h@).take(i + 1).drop_last() == entries_view(h@).take(i as int));
            assert(entries_view(h@).take(i + 1).last() == (h@[i as int].0@, h@[i as int].1@));
        }
        let low = chars_of(to_lower(h[i].0.as_str()).as_str());
        let ghost e = (h@[i as int].0@, h@[i as int].1@);
        let ghost s0 = out@.map_values(|e: (String, Json, Vec<char>)| (e.0@, e.1@));
        let mut p = out.len();
        proof {
            assert(s0.len() == p);
            assert(s0.take(p as int) == s0);
            assert(s0.skip(p as int) =~= Seq::<(Seq<char>, JsonV)>::empty());
            assert(sorted_insert(s0, e) + Seq::<(Seq<char>, JsonV)>::empty() =~= sorted_insert(s0, e));
        }
        while p > 0 && text_less(&low, &out[p - 1].2)
            invariant
                p <= out@.len(),
                low@ == lowercased(e.0),
                s0 == out@.map_values(|e: (String, Json, Vec<char>)| (e.0@, e.1@)),
                forall|j: int| 0 <= j < out@.len() ==> (#[trigger] out@[j]).2@ == lowercased(out@[j].0@),
                sorted_insert(s0, e) == sorted_insert(s0.take(p as int), e) + s0.skip(p as int),
            decreases p,
        {
            proof {
                assert(s0.take(p as int).last() == s0[p - 1]);
                assert(s0.take(p as int).drop_last() == s0.take(p - 1));
                assert(s0.skip(p - 1) == seq![s0[p - 1]] + s0.skip(p as int));
            }
            p = p - 1;
        }
        proof {
            if p > 0 {
                assert(s0.take(p as int).last() == s0[p - 1]);
            }
        }
        out.insert(p, (h[i].0.clone(), h[i].1.copy(), low));
        proof {
            assert(out@.map_values(|e: (String, Json, Vec<char>)| (e.0@, e.1@)) =~= s0.take(p as int).push(e) + s0.skip(p as int));
        }
        i = i + 1;
    }
    assert(entries_view(h@).take(h@.len() as int) == entries_view(h@));
    out
}

/// A cache key: the lower-case hexadecimal SHA-256 digest of the configured request
/// parts, in the configured order.
pub fn compute_cache_key(config: &CacheConfig, method: &str, url: &str, body: &Option<Json>, headers: &Vec<(String, Json)>) -> (r: String)
    ensures
        r@ == hex_text(sha256_digest(key_material(config@.keys, method@, url@, match body {
            Some(b) => Some(b@),
            None => None,
        }, entries_view(headers@)))),
        r@.len() == 64,
        forall|i: int| 0 <= i < r@.len() ==> is_lower_hex(#[trigger] r@[i]),
{
    let ghost bv = match body {
        Some(b) => Some(b@),
        None => None::<JsonV>,
    };
    let ghost hv = entries_view(headers@);
    let mut m: Vec<u8> = Vec::new();
    let mut i: usize = 0;
    while i < config.keys.len()
        invariant
            i <= config.keys@.len(),
            bv == match body {
                Some(b) => Some(b@),
                None => None::<JsonV>,
            },
            hv == entries_view(headers@),
            m@ == key_material(keys_view(config.keys@).take(i as int), method@, url@, bv, hv),
        decreases config.keys@.len() - i,
    {
        proof {
            assert(keys_view(config.keys@).take(i + 1).drop_last() == keys_view(config.keys@).take(i as int));
            assert(keys_view(config.keys@).take(i + 1).last() == config.keys@[i as int]@);
            reveal_strlit("authorization");
        }
        match &config.keys[i] {
            CacheKey::Method => push_str_bytes(&mut m, method),
            CacheKey::Url => push_str_bytes(&mut m, url),
            CacheKey::Body => {
                if let Some(b) = body {
                    let t = to_json_text(b);
                    push_str_bytes(&mut m, t.as_str());
                }
            },
            CacheKey::Auth => {
                if let Some(v) = find_header_ci(headers, "authorization") {
                    push_str_bytes(&mut m, value_text(v));
                }
            },
            CacheKey::AllHeaders => {
                let sorted = sort_headers(headers);
                let ghost sv = sorted@.map_values(|e: (String, Json, Vec<char>)| (e.0@, e.1@));
                let ghost m0 = m@;
                let mut j: usize = 0;
                while j < sorted.len()
                    invariant
                        j <= sorted@.len(),
                        sv == sorted@.map_values(|e: (String, Json, Vec<char>)| (e.0@, e.1@)),
                        m@ == m0 + headers_bytes(sv.take(j as int)),
                    decreases sorted@.len() - j,
                {
                    proof {
                        assert(sv.take(j + 1).drop_last() == sv.take(j as int));
                        assert(sv.take(j + 1).last() == (sorted@[j as int].0@, sorted@[j as int].1@));
                    }
                    push_str_bytes(&mut m, sorted[j].0.as_str());
                    push_str_bytes(&mut m, value_text(&sorted[j].1));
                    proof {
                        assert(m@ =~= m0 + headers_bytes(sv.take(j + 1)));
                    }
                    j = j + 1;
                }
                assert(sv.take(sorted@.len() as int) == sv);
            },
            CacheKey::Header(name) => {
                if let Some(v) = find_header_ci(headers, name.as_str()) {
                    push_str_bytes(&mut m, value_text(v));
                }
            },
        }
        proof {
            assert(m@ =~= key_material(keys_view(config.keys@).take(i + 1), method@, url@, bv, hv));
        }
        i = i + 1;
    }
    assert(keys_view(config.keys@).take(config.keys@.len() as int) == keys_view(config.keys@));
    let d = sha256(m.as_slice());
    proof {
        lemma_hex_text(d@);
    }
    to_hex(&d)
}


/// When an entry stored at `now` (seconds) with `ttl` expires: never (0) for a zero TTL.
pub open spec fn expiry(now: u64, ttl: u64) -> int {
    if ttl == 0 {
        0
    } else {
        now + ttl
    }
}

/// The expiry time to store for an entry written at `now`.
pub fn expires_at(now: u64, ttl: u64) -> (r: u64)
    requires
        ttl == 0 || now + ttl <= u64::MAX,
    ensures
        r == expiry(now, ttl),
{
    if ttl == 0 {
        0
    } else {
        now + ttl
    }
}

/// Whether a stored entry has expired at `now`: it has an expiry, and that is past.
pub fn is_expired(expires: i64, now: u64) -> (r: bool)
    ensures
        r == (expires > 0 && expires < now),
{
    expires > 0 && (expires as u64) < now
}

/// `path` with a leading `~/` resolved against the home directory, when one is known.
pub open spec fn tilde_expanded(path: Seq<char>, home: Option<Seq<char>>) -> Seq<char> {
    match home {
        Some(h) => if is_prefix("~/"@, path) {
            h + path.skip(1)
        } else {
            path
        },
        None => path,
    }
}

/// Resolve a leading `~/` against the home directory.
pub fn expand_tilde(path: &str, home: Option<&str>) -> (r: String)
    ensures
        r@ == tilde_expanded(
            path@,
            match home {
                Some(h) => Some(h@),
                None => None,
            },
        ),
{
    proof {
        reveal_strlit("~/");
    }
    match home {
        Some(h) => {
            if starts_with(path, "~/") {
                let v = chars_of(path);
                let rest = string_from_range(&v, 1, v.len());
                let mut r = crate::text::owned(h);
                push_str(&mut r, rest.as_str());
                assert(rest@ == path@.skip(1));
                r
            } else {
                crate::text::owned(path)
            }
        },
        None => crate::text::owned(path),
    }
}
} // verus!

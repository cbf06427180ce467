//! Calls into std and outside crates whose results the library relies on.
//!
//! Each item here is believed, not proved: its doc comment says which outside
//! function it calls and what its contract claims of it.
use vstd::prelude::*;
use base64::Engine;
use sha2::Digest;
use serde_json::Value;
use crate::json::{Json, JsonNumber, JsonV, ObjV, entries_view, json_keys_unique, keys_unique};

verus! {

/// A hexadecimal digit, lower case when `lower`.
pub open spec fn hex_digit(d: nat, lower: bool) -> char {
    if d < 10 {
        (('0' as u32) + d) as char
    } else if lower {
        (('a' as u32) + d - 10) as char
    } else {
        (('A' as u32) + d - 10) as char
    }
}

/// How `serde_json` writes one character inside a string: `"` and `\` escaped with a
/// backslash; backspace, tab, line feed, form feed, carriage return as `\b`, `\t`,
/// `\n`, `\f`, `\r`; other characters below U+0020 as `\u00` and two lower-case hex
/// digits; every other character as it is.
pub open spec fn json_escaped_char(c: char) -> Seq<char> {
    let u = c as u32;
    if c == '"' {
        seq!['\\', '"']
    } else if c == '\\' {
        seq!['\\', '\\']
    } else if u == 8 {
        seq!['\\', 'b']
    } else if u == 9 {
        seq!['\\', 't']
    } else if u == 10 {
        seq!['\\', 'n']
    } else if u == 12 {
        seq!['\\', 'f']
    } else if u == 13 {
        seq!['\\', 'r']
    } else if u < 32 {
        seq!['\\', 'u', '0', '0', hex_digit((u / 16) as nat, true), hex_digit((u % 16) as nat, true)]
    } else {
        seq![c]
    }
}

pub open spec fn json_escaped(s: Seq<char>) -> Seq<char>
    decreases s.len(),
{
    if s.len() == 0 {
        Seq::empty()
    } else {
        json_escaped(s.drop_last()) + json_escaped_char(s.last())
    }
}

/// What `serde_json::to_string` writes for a string: the string in double quotes, each
/// character escaped as `json_escaped_char` says.
pub open spec fn json_string_literal(s: Seq<char>) -> Seq<char> {
    seq!['"'] + json_escaped(s) + seq!['"']
}

/// Calls `serde_json::to_string` on a `&str`. Claims the text its string escaping
/// (`format_escaped_str_contents` with the `ESCAPE` table) writes; serialising a string
/// cannot fail.
#[verifier::external_body]
pub(crate) fn json_quote(s: &str) -> (r: String)
    ensures
        r@ == json_string_literal(s@),
{
    serde_json::to_string(s).unwrap()
}

/// The character of the standard base64 alphabet for a six-bit value.
pub open spec fn base64_digit(n: int) -> char {
    if n < 26 {
        (65 + n) as char
    } else if n < 52 {
        (97 + n - 26) as char
    } else if n < 62 {
        (48 + n - 52) as char
    } else if n == 62 {
        '+'
    } else {
        '/'
    }
}

/// The standard (RFC 4648, padded) base64 text of some bytes: each group of three
/// bytes as four digits of six bits; a last group of one or two bytes padded with `=`.
pub open spec fn base64_standard(b: Seq<u8>) -> Seq<char>
    decreases b.len(),
{
    if b.len() == 0 {
        Seq::empty()
    } else {
        let x = b[0] as int;
        let y = if b.len() > 1 { b[1] as int } else { 0 };
        let z = if b.len() > 2 { b[2] as int } else { 0 };
        let c0 = base64_digit(x / 4);
        let c1 = base64_digit((x % 4) * 16 + y / 16);
        let c2 = base64_digit((y % 16) * 4 + z / 64);
        let c3 = base64_digit(z % 64);
        if b.len() == 1 {
            seq![c0, c1, '=', '=']
        } else if b.len() == 2 {
            seq![c0, c1, c2, '=']
        } else {
            seq![c0, c1, c2, c3] + base64_standard(b.skip(3))
        }
    }
}

/// Calls `base64::engine::general_purpose::STANDARD.encode`. Claims that the result is
/// the padded standard base64 text of the input; the crate panics only when the output
/// length overflows `usize`, which the `requires` rules out.
#[verifier::external_body]
pub(crate) fn base64_encode(b: &[u8]) -> (r: String)
    requires
        b@.len() <= usize::MAX / 2,
    ensures
        r@ == base64_standard(b@),
{
    base64::engine::general_purpose::STANDARD.encode(b)
}

#[verifier::external_type_specification]
#[verifier::external_body]
pub struct ExJsonValue(Value);

/// What `yttp::encode_body` makes of a response body: the JSON document the bytes
/// hold, else their UTF-8 text, else their standard base64 text.
pub uninterp spec fn encoded_body(b: Seq<u8>) -> JsonV;

/// Calls `yttp::encode_body` and converts its value. Claims that the result is that
/// function's value for these bytes and, as its source shows, that bytes which are not
/// valid UTF-8 (and so no JSON text either) give their standard base64 text.
#[verifier::external_body]
pub(crate) fn encode_body(b: &[u8]) -> (r: Json)
    requires
        b@.len() <= usize::MAX / 2,
    ensures
        r@ == encoded_body(b@),
        !vstd::utf8::valid_utf8(b@) ==> r@ == JsonV::Str(base64_standard(b@)),
{
    from_serde_value(&yttp::encode_body(b))
}

#[verifier::external_type_specification]
#[verifier::external_body]
pub struct ExJsonNumber(serde_json::Number);

/// Builds the `serde_json` value holding the same content as `j`: integers stay
/// integers, a non-integer is read back from its decimal text, members keep their order.
#[verifier::external_body]
pub(crate) fn to_serde_value(j: &Json) -> Value {
    match j {
        Json::Null => Value::Null,
        Json::Bool(b) => Value::Bool(*b),
        Json::Number(n) => number_value(n),
        Json::Str(s) => Value::String(s.clone()),
        Json::Array(a) => Value::Array(a.iter().map(to_serde_value).collect()),
        Json::Object(o) => Value::Object(
            o.iter().map(|(k, v)| (k.clone(), to_serde_value(v))).collect(),
        ),
    }
}

/// Builds the `serde_json` number of the same kind and value; a non-integer is read
/// back from its decimal text.
#[verifier::external_body]
pub(crate) fn number_value(n: &JsonNumber) -> Value {
    match n {
        JsonNumber::PosInt(u) => Value::from(*u),
        JsonNumber::NegInt(i) => Value::from(*i),
        JsonNumber::Float(t) => serde_json::from_str(t).unwrap_or(Value::Null),
    }
}

/// Builds the library's number of the same kind and value as a `serde_json` number.
#[verifier::external_body]
pub(crate) fn from_serde_number(n: &serde_json::Number) -> JsonNumber {
    match (n.as_u64(), n.as_i64()) {
        (Some(u), _) => JsonNumber::PosInt(u),
        (None, Some(i)) => JsonNumber::NegInt(i),
        (None, None) => JsonNumber::Float(n.to_string()),
    }
}

/// Builds the library's value holding the same content as a `serde_json` value.
#[verifier::external_body]
pub(crate) fn from_serde_value(v: &Value) -> Json {
    match v {
        Value::Null => Json::Null,
        Value::Bool(b) => Json::Bool(*b),
        Value::Number(n) => Json::Number(from_serde_number(n)),
        Value::String(s) => Json::Str(s.clone()),
        Value::Array(a) => Json::Array(a.iter().map(from_serde_value).collect()),
        Value::Object(o) => Json::Object(
            o.iter().map(|(k, v)| (k.clone(), from_serde_value(v))).collect(),
        ),
    }
}

/// What `yttp::expand_headers` makes of a header object: shortcut keys (`a!`, `auth!`,
/// `c!`, `ct!`) renamed, auth values inferred, shortcut values expanded.
pub uninterp spec fn shortcut_headers(h: ObjV) -> ObjV;

/// Calls `yttp::expand_headers` on a copy of the headers and returns the expanded copy.
/// Claims that the result is that function's output for these headers and, as the
/// headers are a `serde_json` map, that no key occurs twice in it.
#[verifier::external_body]
pub(crate) fn yttp_expand_headers(h: &Vec<(String, Json)>) -> (r: Vec<(String, Json)>)
    ensures
        entries_view(r@) == shortcut_headers(entries_view(h@)),
        keys_unique(entries_view(r@)),
{
    let mut m: serde_json::Map<String, Value> =
        h.iter().map(|(k, v)| (k.clone(), to_serde_value(v))).collect();
    yttp::expand_headers(&mut m);
    m.iter().map(|(k, v)| (k.clone(), from_serde_value(v))).collect()
}

/// ASCII letters in upper case, other characters unchanged.
pub open spec fn ascii_upper(c: char) -> char {
    if 'a' <= c && c <= 'z' {
        ((c as u32) - 32) as char
    } else {
        c
    }
}

/// ASCII letters in lower case, other characters unchanged.
pub open spec fn ascii_lower(c: char) -> char {
    if 'A' <= c && c <= 'Z' {
        ((c as u32) + 32) as char
    } else {
        c
    }
}

pub open spec fn all_ascii(s: Seq<char>) -> bool {
    forall|i: int| 0 <= i < s.len() ==> (#[trigger] s[i] as u32) < 128
}

/// What `str::to_uppercase` gives for a string (Unicode case mapping).
pub uninterp spec fn uppercased(s: Seq<char>) -> Seq<char>;

/// What `str::to_lowercase` gives for a string (Unicode case mapping).
pub uninterp spec fn lowercased(s: Seq<char>) -> Seq<char>;

/// Calls `str::to_uppercase`. Claims that the result is that mapping of these
/// characters and, as the Unicode mapping gives for ASCII text, that an ASCII string
/// has its letters upper-cased one for one.
#[verifier::external_body]
pub(crate) fn to_upper(s: &str) -> (r: String)
    ensures
        r@ == uppercased(s@),
        all_ascii(s@) ==> r@ == s@.map_values(|c: char| ascii_upper(c)),
{
    s.to_uppercase()
}

/// Calls `str::to_lowercase`. Claims that the result is that mapping of these
/// characters and, as the Unicode mapping gives for ASCII text, that an ASCII string
/// has its letters lower-cased one for one.
#[verifier::external_body]
pub(crate) fn to_lower(s: &str) -> (r: String)
    ensures
        r@ == lowercased(s@),
        all_ascii(s@) ==> r@ == s@.map_values(|c: char| ascii_lower(c)),
{
    s.to_lowercase()
}

/// A terminal style: red or green text, or dim text.
#[derive(Clone, Copy, PartialEq, Eq, Structural, Debug)]
pub enum Tone {
    Red,
    Green,
    Dim,
}

/// The SGR code that starts a tone: `\x1b[31m`, `\x1b[32m` or `\x1b[2m`.
pub open spec fn tone_start(t: Tone) -> Seq<char> {
    match t {
        Tone::Red => seq!['\x1b', '[', '3', '1', 'm'],
        Tone::Green => seq!['\x1b', '[', '3', '2', 'm'],
        Tone::Dim => seq!['\x1b', '[', '2', 'm'],
    }
}

/// The SGR code that resets all styles.
pub open spec fn tone_reset() -> Seq<char> {
    seq!['\x1b', '[', '0', 'm']
}

/// `t` wrapped in a tone's start and reset codes when styling is on, bare otherwise.
pub open spec fn painted(t: Seq<char>, tone: Tone, enabled: bool) -> Seq<char> {
    if enabled {
        tone_start(tone) + t + tone_reset()
    } else {
        t
    }
}

/// `t` right-aligned in `width` characters with spaces, as `{:>width$}` pads.
pub open spec fn padded_left(t: Seq<char>, width: nat) -> Seq<char> {
    if t.len() < width {
        Seq::new((width - t.len()) as nat, |i: int| ' ') + t
    } else {
        t
    }
}

/// Formats `console::style(text)` with the tone applied and `force_styling(enabled)`,
/// right-aligned in `width` characters. Claims what `StyledObject`'s `Display` in
/// console 0.15 writes: the colour or attribute code, the padded text, the reset code,
/// with no codes when styling is off.
#[verifier::external_body]
pub(crate) fn paint(text: &str, tone: Tone, enabled: bool, width: usize) -> (r: String)
    ensures
        r@ == painted(padded_left(text@, width as nat), tone, enabled),
{
    let styled = console::style(text).force_styling(enabled);
    let styled = match tone {
        Tone::Red => styled.red(),
        Tone::Green => styled.green(),
        Tone::Dim => styled.dim(),
    };
    format!("{:>width$}", styled, width = width)
}

/// The fields of a `yttp::Error`, one variant for each of its variants.
pub enum YttpErrorFields {
    Parse { msg: String, line: Option<usize>, column: Option<usize> },
    Request(String),
    Url(String),
}

/// The mathematical content of `YttpErrorFields`.
pub enum YttpErrorV {
    Parse { msg: Seq<char>, line: Option<usize>, column: Option<usize> },
    Request(Seq<char>),
    Url(Seq<char>),
}

impl View for YttpErrorFields {
    type V = YttpErrorV;

    open spec fn view(&self) -> YttpErrorV {
        match self {
            YttpErrorFields::Parse { msg, line, column } => YttpErrorV::Parse { msg: msg@, line: *line, column: *column },
            YttpErrorFields::Request(m) => YttpErrorV::Request(m@),
            YttpErrorFields::Url(m) => YttpErrorV::Url(m@),
        }
    }
}

/// A byte that `application/x-www-form-urlencoded` serialization keeps as it is.
pub open spec fn form_unchanged(b: u8) -> bool {
    b == 42 || b == 45 || b == 46 || b == 95 || (48 <= b <= 57) || (65 <= b <= 90) || (97 <= b <= 122)
}

/// One byte serialized: kept, a space as `+`, any other byte as `%` and two upper-case
/// hex digits.
pub open spec fn form_byte(b: u8) -> Seq<char> {
    if form_unchanged(b) {
        seq![b as char]
    } else if b == 32 {
        seq!['+']
    } else {
        seq!['%', hex_digit((b / 16) as nat, false), hex_digit((b % 16) as nat, false)]
    }
}

pub open spec fn form_bytes(b: Seq<u8>) -> Seq<char>
    decreases b.len(),
{
    if b.len() == 0 {
        Seq::empty()
    } else {
        form_bytes(b.drop_last()) + form_byte(b.last())
    }
}

/// What `yttp::encode_query_component` gives: `url::form_urlencoded::byte_serialize` of
/// the string's UTF-8 bytes.
pub open spec fn query_component(s: Seq<char>) -> Seq<char> {
    form_bytes(vstd::utf8::encode_utf8(s))
}

pub open spec fn component_pair(k: Seq<char>, sep: Seq<char>, v: Seq<char>) -> Seq<char> {
    query_component(k) + sep + query_component(v)
}

/// Each value's component, joined with `sep`.
pub open spec fn components_joined(vals: Seq<Seq<char>>, sep: Seq<char>) -> Seq<char>
    decreases vals.len(),
{
    if vals.len() == 0 {
        Seq::empty()
    } else if vals.len() == 1 {
        query_component(vals[0])
    } else {
        components_joined(vals.drop_last(), sep) + sep + query_component(vals.last())
    }
}

pub open spec fn string_seq(v: Seq<String>) -> Seq<Seq<char>> {
    v.map_values(|s: String| s@)
}

/// Calls `yttp::comma_join`: one pair `key=v1,v2,...`, each part encoded.
#[verifier::external_body]
pub(crate) fn yttp_comma_join(key: &str, vals: &[String]) -> (r: Vec<String>)
    ensures
        string_seq(r@) == seq![query_component(key@) + "="@ + components_joined(string_seq(vals@), ","@)],
{
    yttp::comma_join(key, vals)
}

/// Calls `yttp::semicolon_join`: one pair `key=v1;v2;...`, each part encoded.
#[verifier::external_body]
pub(crate) fn yttp_semicolon_join(key: &str, vals: &[String]) -> (r: Vec<String>)
    ensures
        string_seq(r@) == seq![query_component(key@) + "="@ + components_joined(string_seq(vals@), ";"@)],
{
    yttp::semicolon_join(key, vals)
}

/// Calls `yttp::repeat_keys`: a pair `key=v` for each value, each part encoded.
#[verifier::external_body]
pub(crate) fn yttp_repeat_keys(key: &str, vals: &[String]) -> (r: Vec<String>)
    ensures
        string_seq(r@) == string_seq(vals@).map_values(|v: Seq<char>| component_pair(key@, "="@, v)),
{
    yttp::repeat_keys(key, vals)
}

/// Calls `yttp::bracket_join`: a pair `key[]=v` for each value, each part encoded.
#[verifier::external_body]
pub(crate) fn yttp_bracket_join(key: &str, vals: &[String]) -> (r: Vec<String>)
    ensures
        string_seq(r@) == string_seq(vals@).map_values(|v: Seq<char>| component_pair(key@, "[]="@, v)),
{
    yttp::bracket_join(key, vals)
}

/// What `yttp::append_query_to_url` makes of a URL and a `q` object, with arrays
/// joined by the configured strategy (default strategy and per-key overrides).
pub uninterp spec fn url_with_query(url: Seq<char>, q: JsonV, default: Seq<char>, overrides: Seq<(Seq<char>, Seq<char>)>) -> Seq<char>;

/// Calls `yttp::append_query_to_url` on a copy of `url`, with the configured join
/// strategy, ignoring its error. Claims that the result is that function's output for
/// these arguments and, as its source shows, that the URL is left as it is when there
/// is no `q`, or when `q` is not an object or is an empty one.
#[verifier::external_body]
pub(crate) fn append_query(url: &str, q: &Option<Json>, qarray: &crate::config::QueryArrayConfig) -> (r: String)
    ensures
        q is None ==> r@ == url@,
        q matches Some(v) ==> r@ == url_with_query(url@, v@, qarray@.default, qarray@.overrides),
        q matches Some(v) && !(v@ matches JsonV::Object(o) && o.len() > 0) ==> r@ == url@,
{
    let mut u = url.to_string();
    let qv = q.as_ref().map(to_serde_value);
    let _ = yttp::append_query_to_url(&mut u, &qv, |k: &str, vals: &[String]| qarray.join(k, vals));
    u
}

/// What parsing a URL with the `url` crate gives: the URL without its query string,
/// as the crate writes it back, and the decoded query pairs in order; `None` when the
/// URL does not parse.
pub uninterp spec fn url_split(url: Seq<char>) -> Option<(Seq<char>, Seq<(Seq<char>, Seq<char>)>)>;

/// Calls `url::Url::parse`, collects `query_pairs()` and writes the URL back with
/// `set_query(None)`. Claims only that the result is that outcome for this URL.
#[verifier::external_body]
pub(crate) fn split_query(url: &str) -> (r: Option<(String, Vec<(String, String)>)>)
    ensures
        match r {
            Some(x) => url_split(url@) == Some((x.0@, crate::config::pairs_view(x.1@))),
            None => url_split(url@) is None,
        },
{
    match url::Url::parse(url) {
        Ok(parsed) => {
            let pairs: Vec<(String, String)> =
                parsed.query_pairs().map(|(k, v)| (k.into_owned(), v.into_owned())).collect();
            let mut base = parsed.clone();
            base.set_query(None);
            Some((base.to_string(), pairs))
        },
        Err(_) => None,
    }
}

/// The SHA-256 digest of some bytes.
pub uninterp spec fn sha256_digest(b: Seq<u8>) -> Seq<u8>;

/// Calls `sha2::Sha256::digest`. Claims that the result is the SHA-256 digest of the
/// input, which is 32 bytes long.
#[verifier::external_body]
pub(crate) fn sha256(b: &[u8]) -> (r: Vec<u8>)
    ensures
        r@ == sha256_digest(b@),
        r@.len() == 32,
{
    sha2::Sha256::digest(b).to_vec()
}

/// What `yttp::parse` makes of a text (JSON, else YAML, with header shortcuts in `h`
/// expanded): the document, or the fields of the error it reports.
pub uninterp spec fn yttp_outcome(s: Seq<char>) -> Result<JsonV, YttpErrorV>;

/// The document `yttp::parse` reads from a text; `None` where it reports an error.
pub open spec fn yttp_document(s: Seq<char>) -> Option<JsonV> {
    match yttp_outcome(s) {
        Ok(j) => Some(j),
        Err(_) => None,
    }
}

/// Calls `yttp::parse` and converts the document, or moves the fields out of its error
/// variant for variant. Claims that the result is that function's outcome for this text,
/// and that no object in a document holds a key twice (its objects are `serde_json` maps).
#[verifier::external_body]
pub(crate) fn yttp_parse(s: &str) -> (r: Result<Json, YttpErrorFields>)
    ensures
        match r {
            Ok(j) => yttp_outcome(s@) == Ok::<JsonV, YttpErrorV>(j@) && json_keys_unique(j@),
            Err(e) => yttp_outcome(s@) == Err::<JsonV, YttpErrorV>(e@),
        },
{
    match yttp::parse(s) {
        Ok(v) => Ok(from_serde_value(&v)),
        Err(yttp::Error::Parse { msg, line, column }) => Err(YttpErrorFields::Parse { msg, line, column }),
        Err(yttp::Error::Request(m)) => Err(YttpErrorFields::Request(m)),
        Err(yttp::Error::Url(m)) => Err(YttpErrorFields::Url(m)),
    }
}

/// The components of a URL as the `url` crate parses it.
pub struct UrlPieces {
    pub scheme: String,
    pub host: Option<String>,
    pub port: Option<u16>,
    pub path: String,
    pub query: Option<String>,
    pub fragment: Option<String>,
}

/// What parsing a URL with the `url` crate gives: scheme, host, explicit port, path,
/// query and fragment, or the text of the parse error.
pub uninterp spec fn url_pieces(url: Seq<char>) -> Result<(Seq<char>, Option<Seq<char>>, Option<u16>, Seq<char>, Option<Seq<char>>, Option<Seq<char>>), Seq<char>>;

/// Calls `url::Url::parse` and moves out its components; on failure, the error's
/// `Display` text. Claims only that the result is that outcome for this URL.
#[verifier::external_body]
pub(crate) fn parse_url_pieces(url: &str) -> (r: Result<UrlPieces, String>)
    ensures
        match r {
            Ok(p) => url_pieces(url@) == Ok::<_, Seq<char>>((p.scheme@, crate::config::opt_str_view(p.host), p.port, p.path@, crate::config::opt_str_view(p.query), crate::config::opt_str_view(p.fragment))),
            Err(e) => url_pieces(url@) == Err::<(Seq<char>, Option<Seq<char>>, Option<u16>, Seq<char>, Option<Seq<char>>, Option<Seq<char>>), Seq<char>>(e@),
        },
{
    match url::Url::parse(url) {
        Ok(u) => Ok(UrlPieces {
            scheme: u.scheme().to_string(),
            host: u.host_str().map(|h| h.to_string()),
            port: u.port(),
            path: u.path().to_string(),
            query: u.query().map(|q| q.to_string()),
            fragment: u.fragment().map(|f| f.to_string()),
        }),
        Err(e) => Err(e.to_string()),
    }
}

/// Whether a character has the Unicode `Alphabetic` or `Numeric` property, which is
/// what `char::is_alphanumeric` tests.
pub uninterp spec fn unicode_alphanumeric(c: char) -> bool;

/// Calls `char::is_alphanumeric`. Claims that the result is the property named above and,
/// as that property gives for ASCII, that among ASCII characters it holds exactly of
/// letters and digits.
#[verifier::external_body]
pub(crate) fn is_alphanumeric(c: char) -> (r: bool)
    ensures
        r == unicode_alphanumeric(c),
        (c as u32) < 128 ==> (r <==> (('a' <= c && c <= 'z') || ('A' <= c && c <= 'Z') || ('0' <= c
            && c <= '9'))),
{
    c.is_alphanumeric()
}

/// What reading a YAML document with `serde_yml` into a `serde_json::Value` and
/// writing that value with `serde_json::to_string` gives: the compact JSON text of the
/// document; `None` where the YAML does not parse.
pub uninterp spec fn yaml_document_text(doc: Seq<char>) -> Option<Seq<char>>;

/// Calls `serde_yml::from_str` into a `serde_json::Value`, then `serde_json::to_string`.
/// Claims that the text is that outcome for this document and that an error comes
/// exactly where it fails; the error's message is not claimed.
#[verifier::external_body]
pub(crate) fn yaml_to_json(doc: &str) -> (r: Result<String, String>)
    ensures
        match r {
            Ok(j) => yaml_document_text(doc@) == Some(j@),
            Err(_) => yaml_document_text(doc@) is None,
        },
{
    let v: Value = serde_yml::from_str(doc).map_err(|e| e.to_string())?;
    serde_json::to_string(&v).map_err(|e| e.to_string())
}

/// Calls `serde_json::to_string` on the `serde_json` value of `v`. Claims that the
/// result is that function's text for this value; writing a value cannot fail.
#[verifier::external_body]
pub(crate) fn json_compact(v: &Json) -> (r: String)
    ensures
        r@ == crate::json::json_text(v@),
{
    serde_json::to_string(&to_serde_value(v)).unwrap()
}

} // verus!

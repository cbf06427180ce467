//! Errors of request processing and how they are shown.
use vstd::prelude::*;
use vstd::string::StringSliceAdditionalSpecFns;
use vstd::utf8::{decode_utf8, encode_utf8, encode_utf8_decode_utf8, is_char_boundary};
use crate::text::{decimal, push_str, usize_to_decimal};
use crate::trusted::{Tone, YttpErrorFields, YttpErrorV, paint, painted, padded_left};

verus! {

/// Error type for request processing.
#[derive(Debug)]
pub enum RequestError {
    /// Invalid JSON/YAML input.
    Parse { input: String, line: Option<usize>, column: Option<usize>, msg: String },
    /// Valid parse but bad structure (no method, wrong types).
    Structure { msg: String },
    /// Network/connection error.
    Network { msg: String },
    /// Malformed URL.
    Url { url: String, msg: String },
}

/// The mathematical content of a `RequestError`.
pub enum RequestErrorV {
    Parse { input: Seq<char>, line: Option<usize>, column: Option<usize>, msg: Seq<char> },
    Structure { msg: Seq<char> },
    Network { msg: Seq<char> },
    Url { url: Seq<char>, msg: Seq<char> },
}

impl View for RequestError {
    type V = RequestErrorV;

    open spec fn view(&self) -> RequestErrorV {
        match self {
            RequestError::Parse { input, line, column, msg } => RequestErrorV::Parse {
                input: input@,
                line: *line,
                column: *column,
                msg: msg@,
            },
            RequestError::Structure { msg } => RequestErrorV::Structure { msg: msg@ },
            RequestError::Network { msg } => RequestErrorV::Network { msg: msg@ },
            RequestError::Url { url, msg } => RequestErrorV::Url { url: url@, msg: msg@ },
        }
    }
}

/// The position suffix of a parse error: ` (line L, column C)`, ` (line L)`,
/// ` (column C)` or nothing.
pub open spec fn position_text(line: Option<usize>, column: Option<usize>) -> Seq<char> {
    match (line, column) {
        (Some(l), Some(c)) => " (line "@ + decimal(l as nat) + ", column "@ + decimal(c as nat) + ")"@,
        (Some(l), None) => " (line "@ + decimal(l as nat) + ")"@,
        (None, Some(c)) => " (column "@ + decimal(c as nat) + ")"@,
        (None, None) => Seq::empty(),
    }
}

/// The plain one-line text of an error.
pub open spec fn error_text(e: RequestErrorV) -> Seq<char> {
    match e {
        RequestErrorV::Parse { msg, line, column, .. } => "parse error: "@ + msg + position_text(line, column),
        RequestErrorV::Structure { msg } => msg,
        RequestErrorV::Network { msg } => "network error: "@ + msg,
        RequestErrorV::Url { url, msg } => "URL error: "@ + msg + " ("@ + url + ")"@,
    }
}

/// The byte index a 1-based column points at.
pub open spec fn column_index(col: usize) -> nat {
    if col >= 1 { (col - 1) as nat } else { 0 }
}

/// The last character boundary at or before byte `i` of `b`: where the input is split
/// when the error column falls inside a multi-byte character.
pub open spec fn boundary_at_or_before(b: Seq<u8>, i: nat) -> nat
    decreases i,
{
    if i == 0 || is_char_boundary(b, i as int) {
        i
    } else {
        boundary_at_or_before(b, (i - 1) as nat)
    }
}

proof fn lemma_boundary_at_or_before(b: Seq<u8>, i: nat)
    requires
        vstd::utf8::valid_utf8(b),
        i <= b.len(),
    ensures
        boundary_at_or_before(b, i) <= i,
        is_char_boundary(b, boundary_at_or_before(b, i) as int),
    decreases i,
{
    if i > 0 && !is_char_boundary(b, i as int) {
        lemma_boundary_at_or_before(b, (i - 1) as nat);
    }
}

/// `error:` in red, then the message.
pub open spec fn error_line(msg: Seq<char>, color: bool) -> Seq<char> {
    "  "@ + painted("error:"@, Tone::Red, color) + " "@ + msg
}

/// The coloured text of an error. A parse error with a column shows the input with the
/// part before the error point in green and the rest in red (split at the character
/// that holds the error point's byte), and below it a red caret under the error point
/// and the message, dimmed.
pub open spec fn colored_text(e: RequestErrorV, color: bool) -> Seq<char> {
    match e {
        RequestErrorV::Parse { input, column, msg, .. } => match column {
            Some(col) => {
                let ci = column_index(col);
                let b = encode_utf8(input);
                let k = boundary_at_or_before(b, ci);
                let valid = if ci < b.len() { decode_utf8(b.take(k as int)) } else { input };
                let bad = if ci < b.len() { decode_utf8(b.skip(k as int)) } else { Seq::empty() };
                "  "@ + painted(valid, Tone::Green, color) + painted(bad, Tone::Red, color) + "\n"@
                    + "  "@ + painted(padded_left("^"@, ci + 1), Tone::Red, color) + " "@
                    + painted(msg, Tone::Dim, color)
            },
            None => error_line(msg, color),
        },
        RequestErrorV::Structure { msg } => error_line(msg, color),
        RequestErrorV::Network { msg } => error_line(msg, color),
        RequestErrorV::Url { url, msg } => error_line(msg, color) + " ("@ + painted(url, Tone::Dim, color)
            + ")"@,
    }
}

/// The parse error made from the fields of a `yttp` error: a parse error keeps its
/// message and position; a request or URL error becomes the message
/// `request error: ...` or `URL error: ...`, without position.
/// The parse error for `input` made from the fields of a `yttp` error: its message
/// and position, or a request or URL error as the message.
pub open spec fn parse_error_view(input: Seq<char>, f: YttpErrorV) -> RequestErrorV {
    match f {
        YttpErrorV::Parse { msg, line, column } => from_fields_view(input, msg, line, column),
        YttpErrorV::Request(m) => from_fields_view(input, "request error: "@ + m, None, None),
        YttpErrorV::Url(m) => from_fields_view(input, "URL error: "@ + m, None, None),
    }
}

pub open spec fn from_fields_view(input: Seq<char>, msg: Seq<char>, line: Option<usize>, column: Option<usize>) -> RequestErrorV {
    RequestErrorV::Parse { input, line, column, msg }
}

fn push_position(out: &mut String, line: Option<usize>, column: Option<usize>)
    ensures
        final(out)@ == old(out)@ + position_text(line, column),
{
    proof {
        reveal_strlit(" (line ");
        reveal_strlit(", column ");
        reveal_strlit(")");
        reveal_strlit(" (column ");
    }
    match (line, column) {
        (Some(l), Some(c)) => {
            push_str(out, " (line ");
            push_str(out, usize_to_decimal(l).as_str());
            push_str(out, ", column ");
            push_str(out, usize_to_decimal(c).as_str());
            push_str(out, ")");
        },
        (Some(l), None) => {
            push_str(out, " (line ");
            push_str(out, usize_to_decimal(l).as_str());
            push_str(out, ")");
        },
        (None, Some(c)) => {
            push_str(out, " (column ");
            push_str(out, usize_to_decimal(c).as_str());
            push_str(out, ")");
        },
        (None, None) => {},
    }
}

fn error_line_text(msg: &str, color: bool) -> (r: String)
    ensures
        r@ == error_line(msg@, color),
{
    proof {
        reveal_strlit("  ");
        reveal_strlit("error:");
        reveal_strlit(" ");
    }
    let mut out = String::new();
    push_str(&mut out, "  ");
    push_str(&mut out, paint("error:", Tone::Red, color, 0).as_str());
    push_str(&mut out, " ");
    push_str(&mut out, msg);
    proof {
        assert(padded_left("error:"@, 0) == "error:"@);
    }
    out
}

impl RequestError {
    /// The plain one-line text of the error.
    pub fn to_display_string(&self) -> (r: String)
        ensures
            r@ == error_text(self@),
    {
        proof {
            reveal_strlit("parse error: ");
            reveal_strlit("network error: ");
            reveal_strlit("URL error: ");
            reveal_strlit(" (");
            reveal_strlit(")");
        }
        let mut out = String::new();
        match self {
            RequestError::Parse { msg, line, column, .. } => {
                push_str(&mut out, "parse error: ");
                push_str(&mut out, msg.as_str());
                push_position(&mut out, *line, *column);
            },
            RequestError::Structure { msg } => {
                push_str(&mut out, msg.as_str());
            },
            RequestError::Network { msg } => {
                push_str(&mut out, "network error: ");
                push_str(&mut out, msg.as_str());
            },
            RequestError::Url { url, msg } => {
                push_str(&mut out, "URL error: ");
                push_str(&mut out, msg.as_str());
                push_str(&mut out, " (");
                push_str(&mut out, url.as_str());
                push_str(&mut out, ")");
            },
        }
        out
    }

    /// The parse error for `input` made from the fields of a `yttp` error.
    pub fn from_parse(input: &str, fields: YttpErrorFields) -> (r: RequestError)
        ensures
            r@ == parse_error_view(input@, fields@),
    {
        proof {
            reveal_strlit("request error: ");
            reveal_strlit("URL error: ");
        }
        match fields {
            YttpErrorFields::Parse { msg, line, column } => RequestError::Parse {
                input: input.to_string(),
                msg,
                line,
                column,
            },
            YttpErrorFields::Request(m) => {
                let mut msg = String::new();
                push_str(&mut msg, "request error: ");
                push_str(&mut msg, m.as_str());
                RequestError::Parse { input: input.to_string(), msg, line: None, column: None }
            },
            YttpErrorFields::Url(m) => {
                let mut msg = String::new();
                push_str(&mut msg, "URL error: ");
                push_str(&mut msg, m.as_str());
                RequestError::Parse { input: input.to_string(), msg, line: None, column: None }
            },
        }
    }

    /// Error text for a terminal, coloured when `color` is set.
    pub fn display_colored(&self, color: bool) -> (r: String)
        ensures
            r@ == colored_text(self@, color),
    {
        proof {
            reveal_strlit("  ");
            reveal_strlit("\n");
            reveal_strlit("^");
            reveal_strlit(" ");
            reveal_strlit(" (");
            reveal_strlit(")");
        }
        match self {
            RequestError::Parse { input, column, msg, .. } => match column {
                Some(col) => {
                    let col = *col;
                    let ci: usize = if col >= 1 { col - 1 } else { 0 };
                    let s = input.as_str();
                    let n = s.as_bytes().len();
                    let ghost b = encode_utf8(input@);
                    proof {
                        assert(s.spec_bytes() == b);
                        assert(n == b.len());
                        vstd::utf8::encode_utf8_valid_utf8(input@);
                    }
                    let mut k: usize = ci;
                    if ci < n {
                        while k > 0 && !s.is_char_boundary(k)
                            invariant
                                k <= ci < n,
                                n == b.len(),
                                s.spec_bytes() == b,
                                boundary_at_or_before(b, ci as nat) == boundary_at_or_before(b, k as nat),
                            decreases k,
                        {
                            k = k - 1;
                        }
                        proof {
                            vstd::utf8::encode_utf8_valid_utf8(input@);
                            lemma_boundary_at_or_before(b, k as nat);
                        }
                    }
                    let split: (&str, &str) = if ci < n {
                        s.split_at(k)
                    } else {
                        (s, "")
                    };
                    let valid = split.0;
                    let bad = split.1;
                    proof {
                        if ci < n {
                            assert(boundary_at_or_before(b, ci as nat) == k);
                            assert(valid.spec_bytes() =~= b.subrange(0, k as int));
                            assert(bad.spec_bytes() =~= b.subrange(k as int, b.len() as int));
                            assert(valid.spec_bytes() == encode_utf8(valid@));
                            assert(bad.spec_bytes() == encode_utf8(bad@));
                            assert(b.take(k as int) =~= b.subrange(0, k as int));
                            assert(b.skip(k as int) =~= b.subrange(k as int, b.len() as int));
                            encode_utf8_decode_utf8(valid@);
                            encode_utf8_decode_utf8(bad@);
                        }
                    }
                    proof {
                        let b = encode_utf8(input@);
                        encode_utf8_decode_utf8(valid@);
                        encode_utf8_decode_utf8(bad@);
                        if ci >= b.len() {
                            assert(bad@ == Seq::<char>::empty()) by {
                                reveal_strlit("");
                            }
                        }
                    }
                    let mut out = String::new();
                    push_str(&mut out, "  ");
                    push_str(&mut out, paint(valid, Tone::Green, color, 0).as_str());
                    push_str(&mut out, paint(bad, Tone::Red, color, 0).as_str());
                    push_str(&mut out, "\n");
                    push_str(&mut out, "  ");
                    push_str(&mut out, paint("^", Tone::Red, color, ci + 1).as_str());
                    push_str(&mut out, " ");
                    push_str(&mut out, paint(msg.as_str(), Tone::Dim, color, 0).as_str());
                    proof {
                        assert(padded_left(valid@, 0) == valid@);
                        assert(padded_left(bad@, 0) == bad@);
                        assert(padded_left(msg@, 0) == msg@);
                    }
                    out
                },
                None => error_line_text(msg.as_str(), color),
            },
            RequestError::Structure { msg } => error_line_text(msg.as_str(), color),
            RequestError::Network { msg } => error_line_text(msg.as_str(), color),
            RequestError::Url { url, msg } => {
                let mut out = error_line_text(msg.as_str(), color);
                push_str(&mut out, " (");
                push_str(&mut out, paint(url.as_str(), Tone::Dim, color, 0).as_str());
                push_str(&mut out, ")");
                proof {
                    assert(padded_left(url@, 0) == url@);
                }
                out
            },
        }
    }
}

} // verus!

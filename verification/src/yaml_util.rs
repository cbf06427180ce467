//! Decisions about when a YAML scalar must be quoted, and how it is quoted.
use vstd::prelude::*;
use crate::floatlit::{float_literal, is_float_literal};
use crate::text::{chars_of, find_chars, occurs_in, str_eq, string_from_chars};

verus! {

/// The words that YAML reads as booleans or null.
pub open spec fn reserved_word(s: Seq<char>) -> bool {
    ||| s == "true"@ || s == "false"@ || s == "null"@ || s == "yes"@ || s == "no"@
    ||| s == "on"@ || s == "off"@ || s == "~"@
    ||| s == "True"@ || s == "False"@ || s == "Null"@ || s == "Yes"@ || s == "No"@
    ||| s == "On"@ || s == "Off"@
    ||| s == "TRUE"@ || s == "FALSE"@ || s == "NULL"@ || s == "YES"@ || s == "NO"@
    ||| s == "ON"@ || s == "OFF"@
}

/// Flow indicators and control characters that force quoting anywhere in a scalar.
pub open spec fn flow_or_control(c: char) -> bool {
    c == '{' || c == '}' || c == '[' || c == ']' || c == ',' || c == '\n' || c == '\r' || c == '\t'
}

/// Characters that force quoting when they start a scalar.
pub open spec fn special_start(c: char) -> bool {
    c == '&' || c == '*' || c == '!' || c == '|' || c == '>' || c == '\'' || c == '"' || c == '%'
        || c == '@' || c == '`' || c == '?' || c == '-' || c == ' ' || c == ':' || c == '#'
}

/// Whether a YAML scalar must be quoted to read back as the same string.
pub open spec fn yaml_quoting_needed(s: Seq<char>) -> bool {
    ||| reserved_word(s)
    ||| float_literal(s)
    ||| exists|i: int| 0 <= i < s.len() && flow_or_control(s[i])
    ||| occurs_in(s, seq![':', ' '])
    ||| occurs_in(s, seq![' ', '#'])
    ||| (s.len() > 0 && special_start(s[0]))
    ||| (s.len() > 0 && (s.last() == ':' || s.last() == ' '))
}

/// The escape of one character inside a double-quoted scalar.
pub open spec fn dq_escape_char(c: char) -> Seq<char> {
    if c == '\\' {
        seq!['\\', '\\']
    } else if c == '"' {
        seq!['\\', '"']
    } else if c == '\n' {
        seq!['\\', 'n']
    } else if c == '\r' {
        seq!['\\', 'r']
    } else if c == '\t' {
        seq!['\\', 't']
    } else {
        seq![c]
    }
}

/// Each character of `s` escaped for a double-quoted scalar.
pub open spec fn dq_escape(s: Seq<char>) -> Seq<char>
    decreases s.len(),
{
    if s.len() == 0 {
        Seq::empty()
    } else {
        dq_escape(s.drop_last()) + dq_escape_char(s.last())
    }
}

/// Each single quote of `s` doubled, for a single-quoted scalar.
pub open spec fn sq_escape(s: Seq<char>) -> Seq<char>
    decreases s.len(),
{
    if s.len() == 0 {
        Seq::empty()
    } else {
        sq_escape(s.drop_last()) + (if s.last() == '\'' { seq!['\'', '\''] } else { seq![s.last()] })
    }
}

/// How a YAML reader undoes the escapes of a double-quoted scalar's contents: `\n`,
/// `\r`, `\t` stand for those characters, `\` before any other character for that
/// character.
pub open spec fn dq_unescape(t: Seq<char>) -> Seq<char>
    decreases t.len(),
{
    if t.len() == 0 {
        Seq::empty()
    } else if t[0] == '\\' && t.len() >= 2 {
        let c = if t[1] == 'n' { '\n' } else if t[1] == 'r' { '\r' } else if t[1] == 't' { '\t' } else { t[1] };
        seq![c] + dq_unescape(t.skip(2))
    } else {
        seq![t[0]] + dq_unescape(t.skip(1))
    }
}

/// How a YAML reader undoes the doubled quotes of a single-quoted scalar's contents.
pub open spec fn sq_unescape(t: Seq<char>) -> Seq<char>
    decreases t.len(),
{
    if t.len() == 0 {
        Seq::empty()
    } else if t.len() >= 2 && t[0] == '\'' && t[1] == '\'' {
        seq!['\''] + sq_unescape(t.skip(2))
    } else {
        seq![t[0]] + sq_unescape(t.skip(1))
    }
}

/// A scalar in YAML flow style: double-quoted with escapes when needed, plain otherwise.
pub open spec fn flow_scalar(s: Seq<char>) -> Seq<char> {
    if s.len() == 0 || yaml_quoting_needed(s) {
        seq!['"'] + dq_escape(s) + seq!['"']
    } else {
        s
    }
}

/// A scalar in YAML block style: single-quoted when needed, plain otherwise.
pub open spec fn block_scalar(s: Seq<char>) -> Seq<char> {
    if s.len() == 0 || yaml_quoting_needed(s) {
        seq!['\''] + sq_escape(s) + seq!['\'']
    } else {
        s
    }
}

/// A mapping key in flow style: numbers stay plain, other keys follow the scalar rules.
pub open spec fn key_quoting_needed(s: Seq<char>) -> bool {
    !float_literal(s) && yaml_quoting_needed(s)
}

pub open spec fn flow_key(s: Seq<char>) -> Seq<char> {
    if s.len() == 0 || key_quoting_needed(s) {
        flow_scalar(s)
    } else {
        s
    }
}

fn is_reserved_word(s: &str) -> (r: bool)
    ensures
        r == reserved_word(s@),
{
    str_eq(s, "true") || str_eq(s, "false") || str_eq(s, "null") || str_eq(s, "yes") || str_eq(s, "no")
        || str_eq(s, "on") || str_eq(s, "off") || str_eq(s, "~")
        || str_eq(s, "True") || str_eq(s, "False") || str_eq(s, "Null") || str_eq(s, "Yes") || str_eq(s, "No")
        || str_eq(s, "On") || str_eq(s, "Off")
        || str_eq(s, "TRUE") || str_eq(s, "FALSE") || str_eq(s, "NULL") || str_eq(s, "YES") || str_eq(s, "NO")
        || str_eq(s, "ON") || str_eq(s, "OFF")
}

fn is_flow_or_control(c: char) -> (r: bool)
    ensures
        r == flow_or_control(c),
{
    c == '{' || c == '}' || c == '[' || c == ']' || c == ',' || c == '\n' || c == '\r' || c == '\t'
}

fn is_special_start(c: char) -> (r: bool)
    ensures
        r == special_start(c),
{
    c == '&' || c == '*' || c == '!' || c == '|' || c == '>' || c == '\'' || c == '"' || c == '%'
        || c == '@' || c == '`' || c == '?' || c == '-' || c == ' ' || c == ':' || c == '#'
}

/// Check whether a YAML scalar value needs quoting.
///
/// Covers both block and flow contexts: flow indicators are always quoted, which is
/// harmless in block style.
pub fn needs_yaml_quoting(s: &str) -> (r: bool)
    ensures
        r == yaml_quoting_needed(s@),
{
    if is_reserved_word(s) {
        return true;
    }
    if is_float_literal(s) {
        return true;
    }
    let v = chars_of(s);
    let mut i: usize = 0;
    while i < v.len()
        invariant
            v@ == s@,
            i <= v@.len(),
            forall|j: int| 0 <= j < i ==> !flow_or_control(v@[j]),
        decreases v@.len() - i,
    {
        if is_flow_or_control(v[i]) {
            return true;
        }
        i = i + 1;
    }
    let colon_space = vec![':', ' '];
    let space_hash = vec![' ', '#'];
    let f1 = find_chars(&v, &colon_space);
    let f2 = find_chars(&v, &space_hash);
    if f1.is_some() || f2.is_some() {
        assert(colon_space@ == seq![':', ' ']);
        assert(space_hash@ == seq![' ', '#']);
        return true;
    }
    assert(colon_space@ == seq![':', ' ']);
    assert(space_hash@ == seq![' ', '#']);
    if v.len() > 0 && is_special_start(v[0]) {
        return true;
    }
    v.len() > 0 && (v[v.len() - 1] == ':' || v[v.len() - 1] == ' ')
}

/// Append the double-quoted-scalar escape of every character of `v` to `out`.
pub fn push_dq_escaped(out: &mut String, v: &Vec<char>)
    ensures
        final(out)@ == old(out)@ + dq_escape(v@),
{
    let mut i: usize = 0;
    while i < v.len()
        invariant
            i <= v@.len(),
            out@ == old(out)@ + dq_escape(v@.take(i as int)),
        decreases v@.len() - i,
    {
        let c = v[i];
        proof {
            assert(v@.take(i + 1).drop_last() == v@.take(i as int));
        }
        if c == '\\' {
            out.push('\\');
            out.push('\\');
        } else if c == '"' {
            out.push('\\');
            out.push('"');
        } else if c == '\n' {
            out.push('\\');
            out.push('n');
        } else if c == '\r' {
            out.push('\\');
            out.push('r');
        } else if c == '\t' {
            out.push('\\');
            out.push('t');
        } else {
            out.push(c);
        }
        i = i + 1;
    }
    assert(v@.take(v@.len() as int) == v@);
}

/// Format a string as a YAML flow scalar: double-quoted with escapes if needed,
/// plain otherwise.
pub fn yaml_flow_scalar(s: &str) -> (r: String)
    ensures
        r@ == flow_scalar(s@),
{
    let v = chars_of(s);
    if v.len() == 0 || needs_yaml_quoting(s) {
        let mut out = String::new();
        out.push('"');
        push_dq_escaped(&mut out, &v);
        out.push('"');
        out
    } else {
        string_from_chars(&v)
    }
}

/// Format a string as a YAML block scalar: single-quoted with escaped single quotes
/// if needed, plain otherwise.
pub fn yaml_block_scalar(s: &str) -> (r: String)
    ensures
        r@ == block_scalar(s@),
{
    let v = chars_of(s);
    if v.len() == 0 || needs_yaml_quoting(s) {
        let mut out = String::new();
        out.push('\'');
        push_sq_escaped(&mut out, &v);
        out.push('\'');
        out
    } else {
        string_from_chars(&v)
    }
}

/// Append `v` with each single quote doubled to `out`.
pub fn push_sq_escaped(out: &mut String, v: &Vec<char>)
    ensures
        final(out)@ == old(out)@ + sq_escape(v@),
{
    let mut i: usize = 0;
    while i < v.len()
        invariant
            i <= v@.len(),
            out@ == old(out)@ + sq_escape(v@.take(i as int)),
        decreases v@.len() - i,
    {
        let c = v[i];
        proof {
            assert(v@.take(i + 1).drop_last() == v@.take(i as int));
        }
        if c == '\'' {
            out.push('\'');
            out.push('\'');
        } else {
            out.push(c);
        }
        i = i + 1;
    }
    assert(v@.take(v@.len() as int) == v@);
}

/// Whether a mapping key needs quoting; numbers are valid keys as they are.
pub fn needs_yaml_key_quoting(s: &str) -> (r: bool)
    ensures
        r == key_quoting_needed(s@),
{
    if is_float_literal(s) {
        return false;
    }
    needs_yaml_quoting(s)
}

/// Quote a YAML flow key. Numbers are left unquoted since they're valid as keys.
pub fn yaml_flow_key(s: &str) -> (r: String)
    ensures
        r@ == flow_key(s@),
{
    let v = chars_of(s);
    if v.len() == 0 || needs_yaml_key_quoting(s) {
        yaml_flow_scalar(s)
    } else {
        string_from_chars(&v)
    }
}

} // verus!

//! Pretty JSON output, with chosen keys shown inline and optional ANSI colors.
use vstd::prelude::*;
use crate::json::{
    items_depth, members_depth, json_depth, lemma_items_depth, lemma_members_depth, entries_view, json_text, lemma_entries_view, lemma_seq_view, push_json_text, seq_view, Json,
    JsonV, ObjV,
};
use crate::text::{push_str, str_eq};
use crate::trusted::{json_quote, json_string_literal};

verus! {

pub open spec fn blue() -> Seq<char> { seq!['\u{1b}', '[', '3', '4', 'm'] }
pub open spec fn green() -> Seq<char> { seq!['\u{1b}', '[', '3', '2', 'm'] }
pub open spec fn yellow() -> Seq<char> { seq!['\u{1b}', '[', '3', '3', 'm'] }
pub open spec fn dim() -> Seq<char> { seq!['\u{1b}', '[', '2', 'm'] }
pub open spec fn reset() -> Seq<char> { seq!['\u{1b}', '[', '0', 'm'] }

/// Two spaces per level.
pub open spec fn indent_text(level: nat) -> Seq<char>
    decreases level,
{
    if level == 0 {
        Seq::empty()
    } else {
        indent_text((level - 1) as nat) + seq![' ', ' ']
    }
}

pub open spec fn in_keys(keys: Seq<Seq<char>>, k: Seq<char>) -> bool {
    exists|i: int| 0 <= i < keys.len() && keys[i] == k
}

/// A scalar in compact JSON, colored by kind when `color` is set.
pub open spec fn scalar_text(v: JsonV, color: bool) -> Seq<char> {
    if !color {
        json_text(v)
    } else {
        match v {
            JsonV::Str(_) => green() + json_text(v) + reset(),
            JsonV::Number(_) => yellow() + json_text(v) + reset(),
            JsonV::Bool(_) => dim() + json_text(v) + reset(),
            JsonV::Null => dim() + json_text(v) + reset(),
            _ => json_text(v),
        }
    }
}

/// A key followed by `": "`.
pub open spec fn key_text(k: Seq<char>, color: bool) -> Seq<char> {
    if color {
        blue() + json_string_literal(k) + reset() + seq![':', ' ']
    } else {
        json_string_literal(k) + seq![':', ' ']
    }
}

/// An object on one line, `{"k": v, ...}`; any other value as a scalar.
pub open spec fn inline_text(v: JsonV, color: bool) -> Seq<char> {
    match v {
        JsonV::Object(m) => seq!['{'] + inline_members(m, color) + seq!['}'],
        _ => scalar_text(v, color),
    }
}

pub open spec fn inline_member(k: Seq<char>, v: JsonV, color: bool) -> Seq<char> {
    if color {
        key_text(k, true) + scalar_text(v, true)
    } else {
        json_string_literal(k) + seq![':', ' '] + json_text(v)
    }
}

pub open spec fn inline_members(m: ObjV, color: bool) -> Seq<char>
    decreases m.len(),
{
    if m.len() == 0 {
        Seq::empty()
    } else if m.len() == 1 {
        inline_member(m[0].0, m[0].1, color)
    } else {
        inline_members(m.drop_last(), color) + seq![',', ' '] + inline_member(m.last().0, m.last().1, color)
    }
}

/// Pretty JSON of `v` at nesting level `level`.
pub open spec fn pretty_text(v: JsonV, level: nat, keys: Seq<Seq<char>>, color: bool) -> Seq<char>
    decreases v, 1nat,
{
    match v {
        JsonV::Object(m) => seq!['{', '\n'] + pretty_members(m, m.len(), level, keys, color)
            + indent_text(level) + seq!['}'],
        JsonV::Array(a) => seq!['[', '\n'] + pretty_items(a, a.len(), level, keys, color)
            + indent_text(level) + seq![']'],
        _ => scalar_text(v, color),
    }
}

/// One member line without its separator.
pub open spec fn pretty_member(k: Seq<char>, v: JsonV, level: nat, keys: Seq<Seq<char>>, color: bool) -> Seq<char>
    decreases v, 2nat,
{
    indent_text(level + 1) + key_text(k, color) + (if in_keys(keys, k) {
        inline_text(v, color)
    } else {
        pretty_text(v, level + 1, keys, color)
    })
}

/// A comma after every line but the last, then a newline.
pub open spec fn line_end(i: nat, n: nat) -> Seq<char> {
    if i + 1 < n { seq![',', '\n'] } else { seq!['\n'] }
}

/// The first `k` member lines of an object.
pub open spec fn pretty_members(m: ObjV, k: nat, level: nat, keys: Seq<Seq<char>>, color: bool) -> Seq<char>
    decreases m, k,
{
    if k == 0 || k > m.len() {
        Seq::empty()
    } else {
        pretty_members(m, (k - 1) as nat, level, keys, color) + pretty_member(
            m[k - 1].0,
            m[k - 1].1,
            level,
            keys,
            color,
        ) + line_end((k - 1) as nat, m.len())
    }
}

pub open spec fn pretty_item(v: JsonV, level: nat, keys: Seq<Seq<char>>, color: bool) -> Seq<char>
    decreases v, 2nat,
{
    indent_text(level + 1) + pretty_text(v, level + 1, keys, color)
}

/// The first `k` item lines of an array.
pub open spec fn pretty_items(a: Seq<JsonV>, k: nat, level: nat, keys: Seq<Seq<char>>, color: bool) -> Seq<char>
    decreases a, k,
{
    if k == 0 || k > a.len() {
        Seq::empty()
    } else {
        pretty_items(a, (k - 1) as nat, level, keys, color) + pretty_item(a[k - 1], level, keys, color)
            + line_end((k - 1) as nat, a.len())
    }
}

/// The whole document: pretty JSON followed by a newline.
pub open spec fn pretty_json(v: JsonV, keys: Seq<Seq<char>>, color: bool) -> Seq<char> {
    pretty_text(v, 0, keys, color) + seq!['\n']
}

pub open spec fn keys_view(keys: Seq<String>) -> Seq<Seq<char>> {
    keys.map_values(|k: String| k@)
}

fn push_blue(out: &mut String)
    ensures final(out)@ == old(out)@ + blue(),
{
    out.push('\u{1b}'); out.push('['); out.push('3'); out.push('4'); out.push('m');
}

fn push_green(out: &mut String)
    ensures final(out)@ == old(out)@ + green(),
{
    out.push('\u{1b}'); out.push('['); out.push('3'); out.push('2'); out.push('m');
}

fn push_yellow(out: &mut String)
    ensures final(out)@ == old(out)@ + yellow(),
{
    out.push('\u{1b}'); out.push('['); out.push('3'); out.push('3'); out.push('m');
}

fn push_dim(out: &mut String)
    ensures final(out)@ == old(out)@ + dim(),
{
    out.push('\u{1b}'); out.push('['); out.push('2'); out.push('m');
}

fn push_reset(out: &mut String)
    ensures final(out)@ == old(out)@ + reset(),
{
    out.push('\u{1b}'); out.push('['); out.push('0'); out.push('m');
}

/// Append two spaces per level.
pub fn write_indent(out: &mut String, level: usize)
    ensures
        final(out)@ == old(out)@ + indent_text(level as nat),
{
    let mut i: usize = 0;
    while i < level
        invariant
            i <= level,
            out@ == old(out)@ + indent_text(i as nat),
        decreases level - i,
    {
        out.push(' ');
        out.push(' ');
        i = i + 1;
    }
}

fn contains_key(keys: &Vec<String>, k: &str) -> (r: bool)
    ensures
        r == in_keys(keys_view(keys@), k@),
{
    let mut i: usize = 0;
    while i < keys.len()
        invariant
            i <= keys@.len(),
            forall|j: int| 0 <= j < i ==> keys@[j]@ != k@,
        decreases keys@.len() - i,
    {
        if str_eq(keys[i].as_str(), k) {
            assert(keys_view(keys@)[i as int] == k@);
            return true;
        }
        i = i + 1;
    }
    assert forall|j: int| 0 <= j < keys_view(keys@).len() implies keys_view(keys@)[j] != k@ by {
        assert(keys_view(keys@)[j] == keys@[j]@);
    }
    false
}

/// Append a scalar in compact JSON, colored by kind when `color` is set.
pub fn write_scalar(out: &mut String, val: &Json, color: bool)
    ensures
        final(out)@ == old(out)@ + scalar_text(val@, color),
{
    if !color {
        push_json_text(out, val);
        return;
    }
    match val {
        Json::Str(_) => {
            push_green(out);
            push_json_text(out, val);
            push_reset(out);
        },
        Json::Number(_) => {
            push_yellow(out);
            push_json_text(out, val);
            push_reset(out);
        },
        Json::Bool(_) | Json::Null => {
            push_dim(out);
            push_json_text(out, val);
            push_reset(out);
        },
        _ => push_json_text(out, val),
    }
}

fn write_key(out: &mut String, k: &str, color: bool)
    ensures
        final(out)@ == old(out)@ + key_text(k@, color),
{
    let q = json_quote(k);
    if color {
        push_blue(out);
        push_str(out, q.as_str());
        push_reset(out);
    } else {
        push_str(out, q.as_str());
    }
    out.push(':');
    out.push(' ');
}

/// Append an object on one line; any other value as a scalar.
pub fn write_inline_object(out: &mut String, val: &Json, color: bool)
    ensures
        final(out)@ == old(out)@ + inline_text(val@, color),
{
    match val {
        Json::Object(m) => {
            proof { lemma_entries_view(m@); }
            out.push('{');
            let ghost start = out@;
            let mut i: usize = 0;
            while i < m.len()
                invariant
                    i <= m@.len(),
                    entries_view(m@).len() == m@.len(),
                    forall|j: int| 0 <= j < m@.len() ==> #[trigger] entries_view(m@)[j] == (m@[j].0@, m@[j].1@),
                    out@ == start + inline_members(entries_view(m@).take(i as int), color),
                decreases m@.len() - i,
            {
                let ghost t = entries_view(m@).take(i + 1);
                proof {
                    assert(t.drop_last() == entries_view(m@).take(i as int));
                }
                if i > 0 {
                    out.push(',');
                    out.push(' ');
                }
                if color {
                    write_key(out, m[i].0.as_str(), true);
                    write_scalar(out, &m[i].1, true);
                } else {
                    let q = json_quote(m[i].0.as_str());
                    push_str(out, q.as_str());
                    out.push(':');
                    out.push(' ');
                    push_json_text(out, &m[i].1);
                }
                proof {
                    assert(t.last() == (m@[i as int].0@, m@[i as int].1@));
                    assert(out@ =~= start + inline_members(t, color));
                }
                i = i + 1;
            }
            assert(entries_view(m@).take(m@.len() as int) == entries_view(m@));
            out.push('}');
        },
        _ => write_scalar(out, val, color),
    }
}

proof fn lemma_members_step(m: ObjV, i: nat, level: nat, keys: Seq<Seq<char>>, color: bool)
    requires
        i < m.len(),
    ensures
        pretty_members(m, i + 1, level, keys, color) == pretty_members(m, i, level, keys, color)
            + pretty_member(m[i as int].0, m[i as int].1, level, keys, color) + line_end(i, m.len()),
{
}

proof fn lemma_items_step(a: Seq<JsonV>, i: nat, level: nat, keys: Seq<Seq<char>>, color: bool)
    requires
        i < a.len(),
    ensures
        pretty_items(a, i + 1, level, keys, color) == pretty_items(a, i, level, keys, color)
            + indent_text(level + 1) + pretty_text(a[i as int], level + 1, keys, color) + line_end(i, a.len()),
{
    assert(pretty_item(a[i as int], level, keys, color) == indent_text(level + 1) + pretty_text(
        a[i as int],
        level + 1,
        keys,
        color,
    ));
    assert(pretty_items(a, i + 1, level, keys, color) =~= pretty_items(a, i, level, keys, color)
        + indent_text(level + 1) + pretty_text(a[i as int], level + 1, keys, color) + line_end(i, a.len()));
}

/// Append the pretty JSON of `val` at nesting level `level`.
pub fn write_value(out: &mut String, val: &Json, level: usize, keys: &Vec<String>, color: bool)
    requires
        level + json_depth(val@) < usize::MAX,
    ensures
        final(out)@ == old(out)@ + pretty_text(val@, level as nat, keys_view(keys@), color),
    decreases val, 1nat,
{
    match val {
        Json::Object(m) => {
            proof { lemma_entries_view(m@); }
            write_object(out, m, level, keys, color);
        },
        Json::Array(a) => {
            proof { lemma_seq_view(a@); }
            write_array(out, a, level, keys, color);
        },
        _ => write_scalar(out, val, color),
    }
}

fn write_object(out: &mut String, m: &Vec<(String, Json)>, level: usize, keys: &Vec<String>, color: bool)
    requires
        level + 1 + members_depth(entries_view(m@), m@.len()) < usize::MAX,
    ensures
        final(out)@ == old(out)@ + pretty_text(JsonV::Object(entries_view(m@)), level as nat, keys_view(keys@), color),
    decreases m, 0nat,
{
    proof { lemma_entries_view(m@); }
    out.push('{');
    out.push('\n');
    let ghost start = out@;
    let ghost mv = entries_view(m@);
    let mut i: usize = 0;
    while i < m.len()
        invariant
            i <= m@.len(),
            mv == entries_view(m@),
            mv.len() == m@.len(),
            level + 1 + members_depth(mv, m@.len()) < usize::MAX,
            out@ == start + pretty_members(mv, i as nat, level as nat, keys_view(keys@), color),
        decreases m@.len() - i,
    {
        proof {
            assert(decreases_to!(*m => m@));
            assert(decreases_to!(m@ => m@[i as int]));
            assert(decreases_to!(m@[i as int] => m@[i as int].1));
            lemma_entries_view(m@);
            assert(mv[i as int] == (m@[i as int].0@, m@[i as int].1@));
            lemma_members_depth(mv, mv.len(), i as int);
        }
        let ghost before = out@;
        write_member(out, &m[i].0, &m[i].1, level, keys, color);
        let ghost mid = out@;
        if i + 1 < m.len() {
            out.push(',');
        }
        out.push('\n');
        proof {
            let kv = keys_view(keys@);
            assert(out@ == mid + line_end(i as nat, mv.len()));
            lemma_members_step(mv, i as nat, level as nat, kv, color);
            lemma_assoc3(
                start,
                pretty_members(mv, i as nat, level as nat, kv, color),
                pretty_member(mv[i as int].0, mv[i as int].1, level as nat, kv, color),
                line_end(i as nat, mv.len()),
            );
        }
        i = i + 1;
    }
    write_indent(out, level);
    out.push('}');
}

proof fn lemma_assoc3(a: Seq<char>, b: Seq<char>, c: Seq<char>, d: Seq<char>)
    ensures
        a + b + c + d == a + (b + c + d),
{
    assert(a + b + c + d =~= a + (b + c + d));
}

fn write_member(out: &mut String, k: &String, v: &Json, level: usize, keys: &Vec<String>, color: bool)
    requires
        level + 1 + json_depth(v@) < usize::MAX,
    ensures
        final(out)@ == old(out)@ + pretty_member(k@, v@, level as nat, keys_view(keys@), color),
    decreases v, 2nat,
{
    write_indent(out, level + 1);
    write_key(out, k.as_str(), color);
    if contains_key(keys, k.as_str()) {
        write_inline_object(out, v, color);
    } else {
        write_value(out, v, level + 1, keys, color);
    }
    assert(out@ =~= old(out)@ + pretty_member(k@, v@, level as nat, keys_view(keys@), color));
}

#[verifier::rlimit(40)]
#[verifier::spinoff_prover]
fn write_array(out: &mut String, a: &Vec<Json>, level: usize, keys: &Vec<String>, color: bool)
    requires
        level + 1 + items_depth(seq_view(a@), a@.len()) < usize::MAX,
    ensures
        final(out)@ == old(out)@ + pretty_text(JsonV::Array(seq_view(a@)), level as nat, keys_view(keys@), color),
    decreases a, 0nat,
{
    proof { lemma_seq_view(a@); }
    out.push('[');
    out.push('\n');
    let ghost start = out@;
    let ghost av = seq_view(a@);
    let mut i: usize = 0;
    while i < a.len()
        invariant
            i <= a@.len(),
            av == seq_view(a@),
            av.len() == a@.len(),
            forall|j: int| 0 <= j < a@.len() ==> #[trigger] av[j] == a@[j]@,
            level + 1 + items_depth(av, a@.len()) < usize::MAX,
            out@ == start + pretty_items(av, i as nat, level as nat, keys_view(keys@), color),
        decreases a@.len() - i,
    {
        proof {
            assert(decreases_to!(*a => a@));
            assert(decreases_to!(a@ => a@[i as int]));
            assert(av[i as int] == a@[i as int]@);
            lemma_items_depth(av, av.len(), i as int);
        }
        write_indent(out, level + 1);
        write_value(out, &a[i], level + 1, keys, color);
        if i + 1 < a.len() {
            out.push(',');
        }
        out.push('\n');
        proof {
            lemma_items_step(av, i as nat, level as nat, keys_view(keys@), color);
            assert(out@ =~= start + pretty_items(av, (i + 1) as nat, level as nat, keys_view(keys@), color));
        }
        i = i + 1;
    }
    write_indent(out, level);
    out.push(']');
}

/// Render a JSON value with pretty printing, with the values under `inline_keys`
/// written on one line.
pub fn to_pretty_json(val: &Json, inline_keys: &Vec<String>, color: bool) -> (r: String)
    requires
        json_depth(val@) < usize::MAX,
    ensures
        r@ == pretty_json(val@, keys_view(inline_keys@), color),
{
    let mut out = String::new();
    write_value(&mut out, val, 0, inline_keys, color);
    out.push('\n');
    out
}

} // verus!

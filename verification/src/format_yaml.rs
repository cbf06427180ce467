//! YAML output in block style, with chosen keys written inline (flow style).
use vstd::prelude::*;
use crate::format_json::{blue, dim, green, in_keys, indent_text, keys_view, reset, write_indent, yellow};
use crate::json::{
    entries_view, json_depth, items_depth, members_depth, lemma_entries_view, lemma_items_depth,
    lemma_members_depth, lemma_seq_view, num_text, push_num_text, seq_view, Json, JsonV, ObjV,
};
use crate::text::{chars_of, contains_char, push_str, str_eq};
use crate::yaml_util::{push_sq_escaped, sq_escape};

verus! {

pub open spec fn tinted(tint: Seq<char>, t: Seq<char>, color: bool) -> Seq<char> {
    if color { tint + t + reset() } else { t }
}

/// A string that the block writer single-quotes.
pub open spec fn single_quote_needed(s: Seq<char>) -> bool {
    ||| s.len() == 0
    ||| s.contains(':') || s.contains('#') || s.contains('\n')
    ||| s[0] == ' ' || s[0] == '"' || s[0] == '\''
    ||| s == "true"@ || s == "false"@ || s == "null"@
}

/// A scalar as YAML text.
pub open spec fn leaf_text(v: JsonV, color: bool) -> Seq<char> {
    match v {
        JsonV::Null => tinted(dim(), "null"@, color),
        JsonV::Bool(b) => tinted(dim(), if b { "true"@ } else { "false"@ }, color),
        JsonV::Number(n) => tinted(yellow(), num_text(n), color),
        JsonV::Str(s) => tinted(
            green(),
            if single_quote_needed(s) { seq!['\''] + sq_escape(s) + seq!['\''] } else { s },
            color,
        ),
        _ => Seq::empty(),
    }
}

pub open spec fn key_label(k: Seq<char>, color: bool) -> Seq<char> {
    tinted(blue(), k, color)
}

/// A value in flow style: `{k: v, ...}`, `[v, ...]`, or a scalar.
pub open spec fn flow_text(v: JsonV, color: bool) -> Seq<char>
    decreases v, 1nat,
{
    match v {
        JsonV::Object(m) => seq!['{'] + flow_members(m, m.len(), color) + seq!['}'],
        JsonV::Array(a) => seq!['['] + flow_items(a, a.len(), color) + seq![']'],
        _ => leaf_text(v, color),
    }
}

pub open spec fn flow_member(k: Seq<char>, v: JsonV, color: bool) -> Seq<char>
    decreases v, 2nat,
{
    key_label(k, color) + seq![':', ' '] + flow_text(v, color)
}

pub open spec fn sep(k: nat) -> Seq<char> {
    if k > 1 { seq![',', ' '] } else { Seq::empty() }
}

pub open spec fn flow_members(m: ObjV, k: nat, color: bool) -> Seq<char>
    decreases m, k,
{
    if k == 0 || k > m.len() {
        Seq::empty()
    } else {
        flow_members(m, (k - 1) as nat, color) + sep(k) + flow_member(m[k - 1].0, m[k - 1].1, color)
    }
}

pub open spec fn flow_items(a: Seq<JsonV>, k: nat, color: bool) -> Seq<char>
    decreases a, k,
{
    if k == 0 || k > a.len() {
        Seq::empty()
    } else {
        flow_items(a, (k - 1) as nat, color) + sep(k) + flow_text(a[k - 1], color)
    }
}

/// `key: value` in block style at a nesting level.
pub open spec fn block_entry(key: Seq<char>, v: JsonV, level: nat, color: bool) -> Seq<char>
    decreases v, 1nat,
{
    indent_text(level) + key_label(key, color) + match v {
        JsonV::Object(m) => if m.len() > 0 {
            seq![':', '\n'] + block_members(m, m.len(), level + 1, color)
        } else {
            seq![':', ' '] + flow_text(v, color) + seq!['\n']
        },
        JsonV::Array(a) => if a.len() > 0 {
            seq![':', '\n'] + block_items(a, a.len(), level + 1, color)
        } else {
            seq![':', ' '] + flow_text(v, color) + seq!['\n']
        },
        _ => seq![':', ' '] + flow_text(v, color) + seq!['\n'],
    }
}

pub open spec fn block_members(m: ObjV, k: nat, level: nat, color: bool) -> Seq<char>
    decreases m, k,
{
    if k == 0 || k > m.len() {
        Seq::empty()
    } else {
        block_members(m, (k - 1) as nat, level, color) + block_entry(m[k - 1].0, m[k - 1].1, level, color)
    }
}

/// List items, one `- value` line each, values in flow style.
pub open spec fn block_items(a: Seq<JsonV>, k: nat, level: nat, color: bool) -> Seq<char>
    decreases k,
{
    if k == 0 || k > a.len() {
        Seq::empty()
    } else {
        block_items(a, (k - 1) as nat, level, color) + indent_text(level) + seq!['-', ' '] + flow_text(
            a[k - 1],
            color,
        ) + seq!['\n']
    }
}

/// A top-level entry: inline keys in flow style, the others in block style.
pub open spec fn top_entry(k: Seq<char>, v: JsonV, keys: Seq<Seq<char>>, color: bool) -> Seq<char> {
    if in_keys(keys, k) {
        key_label(k, color) + seq![':', ' '] + flow_text(v, color) + seq!['\n']
    } else {
        block_entry(k, v, 0, color)
    }
}

pub open spec fn top_members(m: ObjV, k: nat, keys: Seq<Seq<char>>, color: bool) -> Seq<char>
    decreases k,
{
    if k == 0 || k > m.len() {
        Seq::empty()
    } else {
        top_members(m, (k - 1) as nat, keys, color) + top_entry(m[k - 1].0, m[k - 1].1, keys, color)
    }
}

/// The YAML document for a value; only objects produce output.
pub open spec fn yaml_text(v: JsonV, keys: Seq<Seq<char>>, color: bool) -> Seq<char> {
    match v {
        JsonV::Object(m) => top_members(m, m.len(), keys, color),
        _ => Seq::empty(),
    }
}

proof fn lemma_assoc3(a: Seq<char>, b: Seq<char>, c: Seq<char>, d: Seq<char>)
    ensures
        a + b + c + d == a + (b + c + d),
{
    assert(a + b + c + d =~= a + (b + c + d));
}

fn push_tint_start(out: &mut String, which: u8)
    requires
        which < 4,
    ensures
        final(out)@ == old(out)@ + (if which == 0 { blue() } else if which == 1 { green() } else if which
            == 2 { yellow() } else { dim() }),
{
    out.push('\u{1b}');
    out.push('[');
    if which == 0 {
        out.push('3');
        out.push('4');
    } else if which == 1 {
        out.push('3');
        out.push('2');
    } else if which == 2 {
        out.push('3');
        out.push('3');
    } else {
        out.push('2');
    }
    out.push('m');
}

fn push_reset(out: &mut String)
    ensures
        final(out)@ == old(out)@ + reset(),
{
    out.push('\u{1b}');
    out.push('[');
    out.push('0');
    out.push('m');
}

fn write_key_label(out: &mut String, k: &str, color: bool)
    ensures
        final(out)@ == old(out)@ + key_label(k@, color),
{
    if color {
        push_tint_start(out, 0);
        push_str(out, k);
        push_reset(out);
    } else {
        push_str(out, k);
    }
}

fn needs_single_quote(s: &str) -> (r: bool)
    ensures
        r == single_quote_needed(s@),
{
    let v = chars_of(s);
    v.len() == 0 || contains_char(&v, ':') || contains_char(&v, '#') || contains_char(&v, '\n')
        || v[0] == ' ' || v[0] == '"' || v[0] == '\'' || str_eq(s, "true") || str_eq(s, "false")
        || str_eq(s, "null")
}

/// Append a scalar; arrays and objects in flow style.
pub fn write_yaml_scalar(out: &mut String, val: &Json, color: bool)
    requires
        json_depth(val@) < usize::MAX,
    ensures
        final(out)@ == old(out)@ + flow_text(val@, color),
    decreases val, 0nat,
{
    match val {
        Json::Null => {
            if color { push_tint_start(out, 3); }
            push_str(out, "null");
            if color { push_reset(out); }
        },
        Json::Bool(b) => {
            if color { push_tint_start(out, 3); }
            if *b { push_str(out, "true"); } else { push_str(out, "false"); }
            if color { push_reset(out); }
        },
        Json::Number(n) => {
            if color { push_tint_start(out, 2); }
            push_num_text(out, n);
            if color { push_reset(out); }
        },
        Json::Str(s) => {
            if color { push_tint_start(out, 1); }
            if needs_single_quote(s.as_str()) {
                let v = chars_of(s.as_str());
                out.push('\'');
                push_sq_escaped(out, &v);
                out.push('\'');
            } else {
                push_str(out, s.as_str());
            }
            if color { push_reset(out); }
        },
        Json::Object(m) => {
            proof { lemma_entries_view(m@); }
            write_flow_object(out, m, color);
        },
        Json::Array(a) => {
            proof { lemma_seq_view(a@); }
            write_flow_array(out, a, color);
        },
    }
}

/// Append a value in YAML flow style.
pub fn write_flow(out: &mut String, val: &Json, color: bool)
    requires
        json_depth(val@) < usize::MAX,
    ensures
        final(out)@ == old(out)@ + flow_text(val@, color),
    decreases val, 1nat,
{
    match val {
        Json::Object(m) => {
            proof { lemma_entries_view(m@); }
            write_flow_object(out, m, color);
        },
        Json::Array(a) => {
            proof { lemma_seq_view(a@); }
            write_flow_array(out, a, color);
        },
        _ => write_yaml_scalar(out, val, color),
    }
}

fn write_flow_object(out: &mut String, m: &Vec<(String, Json)>, color: bool)
    requires
        1 + members_depth(entries_view(m@), m@.len()) < usize::MAX,
    ensures
        final(out)@ == old(out)@ + flow_text(JsonV::Object(entries_view(m@)), color),
    decreases m, 0nat,
{
    proof { lemma_entries_view(m@); }
    out.push('{');
    let ghost start = out@;
    let ghost mv = entries_view(m@);
    let mut i: usize = 0;
    while i < m.len()
        invariant
            i <= m@.len(),
            mv == entries_view(m@),
            mv.len() == m@.len(),
            1 + members_depth(mv, m@.len()) < usize::MAX,
            out@ == start + flow_members(mv, i as nat, color),
        decreases m@.len() - i,
    {
        proof {
            assert(decreases_to!(*m => m@));
            assert(decreases_to!(m@ => m@[i as int]));
            assert(decreases_to!(m@[i as int] => m@[i as int].1));
            lemma_entries_view(m@);
            lemma_members_depth(mv, mv.len(), i as int);
        }
        let ghost before = out@;
        if i > 0 {
            out.push(',');
            out.push(' ');
        }
        assert(out@ == before + sep((i + 1) as nat));
        let ghost mid = out@;
        write_key_label(out, m[i].0.as_str(), color);
        out.push(':');
        out.push(' ');
        write_flow(out, &m[i].1, color);
        proof {
            assert(out@ =~= mid + flow_member(mv[i as int].0, mv[i as int].1, color));
            lemma_assoc3(start, flow_members(mv, i as nat, color), sep((i + 1) as nat), flow_member(mv[i as int].0, mv[i as int].1, color));
        }
        i = i + 1;
    }
    out.push('}');
}

fn write_flow_array(out: &mut String, a: &Vec<Json>, color: bool)
    requires
        1 + items_depth(seq_view(a@), a@.len()) < usize::MAX,
    ensures
        final(out)@ == old(out)@ + flow_text(JsonV::Array(seq_view(a@)), color),
    decreases a, 0nat,
{
    proof { lemma_seq_view(a@); }
    out.push('[');
    let ghost start = out@;
    let ghost av = seq_view(a@);
    let mut i: usize = 0;
    while i < a.len()
        invariant
            i <= a@.len(),
            av == seq_view(a@),
            av.len() == a@.len(),
            1 + items_depth(av, a@.len()) < usize::MAX,
            out@ == start + flow_items(av, i as nat, color),
        decreases a@.len() - i,
    {
        proof {
            assert(decreases_to!(*a => a@));
            assert(decreases_to!(a@ => a@[i as int]));
            lemma_seq_view(a@);
            lemma_items_depth(av, av.len(), i as int);
        }
        let ghost before = out@;
        if i > 0 {
            out.push(',');
            out.push(' ');
        }
        assert(out@ == before + sep((i + 1) as nat));
        let ghost mid = out@;
        write_flow(out, &a[i], color);
        proof {
            lemma_assoc3(start, flow_items(av, i as nat, color), sep((i + 1) as nat), flow_text(av[i as int], color));
        }
        i = i + 1;
    }
    out.push(']');
}

/// The tail of a block entry after its key label.
pub open spec fn entry_tail(v: JsonV, level: nat, color: bool) -> Seq<char> {
    match v {
        JsonV::Object(m) => if m.len() > 0 {
            seq![':', '\n'] + block_members(m, m.len(), level + 1, color)
        } else {
            seq![':', ' '] + flow_text(v, color) + seq!['\n']
        },
        JsonV::Array(a) => if a.len() > 0 {
            seq![':', '\n'] + block_items(a, a.len(), level + 1, color)
        } else {
            seq![':', ' '] + flow_text(v, color) + seq!['\n']
        },
        _ => seq![':', ' '] + flow_text(v, color) + seq!['\n'],
    }
}

proof fn lemma_block_entry(key: Seq<char>, v: JsonV, level: nat, color: bool)
    ensures
        block_entry(key, v, level, color) == indent_text(level) + key_label(key, color) + entry_tail(
            v,
            level,
            color,
        ),
{
}

fn write_entry_tail(out: &mut String, val: &Json, level: usize, color: bool)
    requires
        level + json_depth(val@) < usize::MAX,
    ensures
        final(out)@ == old(out)@ + entry_tail(val@, level as nat, color),
    decreases val, 0nat,
{
    match val {
        Json::Object(m) => {
            proof { lemma_entries_view(m@); }
            if m.len() > 0 {
                out.push(':');
                out.push('\n');
                write_block_members(out, m, level + 1, color);
            } else {
                out.push(':');
                out.push(' ');
                write_flow_object(out, m, color);
                out.push('\n');
            }
        },
        Json::Array(a) => {
            proof { lemma_seq_view(a@); }
            if a.len() > 0 {
                out.push(':');
                out.push('\n');
                write_block_items(out, a, level + 1, color);
            } else {
                out.push(':');
                out.push(' ');
                write_flow_array(out, a, color);
                out.push('\n');
            }
        },
        _ => {
            out.push(':');
            out.push(' ');
            write_yaml_scalar(out, val, color);
            out.push('\n');
        },
    }
}

/// Append `key: value` in block style at a nesting level.
pub fn write_yaml_key_value(out: &mut String, key: &str, val: &Json, level: usize, color: bool)
    requires
        level + json_depth(val@) < usize::MAX,
    ensures
        final(out)@ == old(out)@ + block_entry(key@, val@, level as nat, color),
    decreases val, 1nat,
{
    let ghost start = out@;
    write_indent(out, level);
    write_key_label(out, key, color);
    write_entry_tail(out, val, level, color);
    proof {
        lemma_block_entry(key@, val@, level as nat, color);
        lemma_assoc3(start, indent_text(level as nat), key_label(key@, color), entry_tail(val@, level as nat, color));
    }
}

fn write_block_members(out: &mut String, m: &Vec<(String, Json)>, level: usize, color: bool)
    requires
        level + members_depth(entries_view(m@), m@.len()) < usize::MAX,
    ensures
        final(out)@ == old(out)@ + block_members(entries_view(m@), m@.len(), level as nat, color),
    decreases m, 0nat,
{
    proof { lemma_entries_view(m@); }
    let ghost start = out@;
    let ghost mv = entries_view(m@);
    let mut i: usize = 0;
    while i < m.len()
        invariant
            i <= m@.len(),
            mv == entries_view(m@),
            mv.len() == m@.len(),
            level + members_depth(mv, m@.len()) < usize::MAX,
            out@ == start + block_members(mv, i as nat, level as nat, color),
        decreases m@.len() - i,
    {
        proof {
            assert(decreases_to!(*m => m@));
            assert(decreases_to!(m@ => m@[i as int]));
            assert(decreases_to!(m@[i as int] => m@[i as int].1));
            lemma_entries_view(m@);
            lemma_members_depth(mv, mv.len(), i as int);
            assert(mv[i as int] == (m@[i as int].0@, m@[i as int].1@));
        }
        write_yaml_key_value(out, m[i].0.as_str(), &m[i].1, level, color);
        proof {
            assert(out@ =~= start + block_members(mv, (i + 1) as nat, level as nat, color));
        }
        i = i + 1;
    }
}

fn write_block_items(out: &mut String, a: &Vec<Json>, level: usize, color: bool)
    requires
        level + items_depth(seq_view(a@), a@.len()) < usize::MAX,
    ensures
        final(out)@ == old(out)@ + block_items(seq_view(a@), a@.len(), level as nat, color),
{
    proof { lemma_seq_view(a@); }
    let ghost start = out@;
    let ghost av = seq_view(a@);
    let mut i: usize = 0;
    while i < a.len()
        invariant
            i <= a@.len(),
            av == seq_view(a@),
            av.len() == a@.len(),
            level + items_depth(av, a@.len()) < usize::MAX,
            out@ == start + block_items(av, i as nat, level as nat, color),
        decreases a@.len() - i,
    {
        proof {
            lemma_seq_view(a@);
            lemma_items_depth(av, av.len(), i as int);
        }
        let ghost before = out@;
        write_indent(out, level);
        out.push('-');
        out.push(' ');
        write_flow(out, &a[i], color);
        out.push('\n');
        proof {
            assert(out@ =~= start + block_items(av, (i + 1) as nat, level as nat, color));
        }
        i = i + 1;
    }
}

/// Render a value as YAML, with the values under `inline_keys` in flow style.
pub fn to_yaml(val: &Json, inline_keys: &Vec<String>, color: bool) -> (r: String)
    requires
        json_depth(val@) < usize::MAX,
    ensures
        r@ == yaml_text(val@, keys_view(inline_keys@), color),
{
    let mut out = String::new();
    if let Json::Object(m) = val {
        proof { lemma_entries_view(m@); }
        let ghost mv = entries_view(m@);
        let ghost kv = keys_view(inline_keys@);
        let mut i: usize = 0;
        while i < m.len()
            invariant
                i <= m@.len(),
                mv == entries_view(m@),
                mv.len() == m@.len(),
                kv == keys_view(inline_keys@),
                1 + members_depth(mv, m@.len()) < usize::MAX,
                out@ == top_members(mv, i as nat, kv, color),
            decreases m@.len() - i,
        {
            proof {
                lemma_entries_view(m@);
                lemma_members_depth(mv, mv.len(), i as int);
                assert(mv[i as int] == (m@[i as int].0@, m@[i as int].1@));
            }
            let ghost before = out@;
            if contains_inline_key(inline_keys, m[i].0.as_str()) {
                write_key_label(&mut out, m[i].0.as_str(), color);
                out.push(':');
                out.push(' ');
                write_flow(&mut out, &m[i].1, color);
                out.push('\n');
            } else {
                write_yaml_key_value(&mut out, m[i].0.as_str(), &m[i].1, 0, color);
            }
            proof {
                assert(out@ =~= before + top_entry(mv[i as int].0, mv[i as int].1, kv, color));
                assert(out@ =~= top_members(mv, (i + 1) as nat, kv, color));
            }
            i = i + 1;
        }
    }
    out
}

fn contains_inline_key(keys: &Vec<String>, k: &str) -> (r: bool)
    ensures
        r == in_keys(keys_view(keys@), k@),
{
    let mut i: usize = 0;
    while i < keys.len()
        invariant
            i <= keys@.len(),
            forall|j: int| 0 <= j < i ==> keys@[j]@ != k@,
        decreases keys@.len() - i,
    {
        if str_eq(keys[i].as_str(), k) {
            assert(keys_view(keys@)[i as int] == k@);
            return true;
        }
        i = i + 1;
    }
    assert forall|j: int| 0 <= j < keys_view(keys@).len() implies keys_view(keys@)[j] != k@ by {
        assert(keys_view(keys@)[j] == keys@[j]@);
    }
    false
}

} // verus!

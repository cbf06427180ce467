//! `$VAR` references in header values, resolved against a snapshot of the environment.
use vstd::prelude::*;
use crate::json::{Json, JsonV, ObjV, entries_view, lemma_entries_view, lemma_seq_view, seq_view};
use crate::text::{chars_of, push_str, str_eq, string_from_range};

verus! {

/// The process environment as `std::env::var` sees it: each variable with its value,
/// or `None` where the value is not valid Unicode.
pub struct Env {
    pub vars: Vec<(String, Option<String>)>,
}

pub type EnvV = Seq<(Seq<char>, Option<Seq<char>>)>;

pub open spec fn env_entry_view(e: (String, Option<String>)) -> (Seq<char>, Option<Seq<char>>) {
    (e.0@, match e.1 {
        Some(s) => Some(s@),
        None => None,
    })
}

impl View for Env {
    type V = EnvV;

    open spec fn view(&self) -> EnvV {
        self.vars@.map_values(|e: (String, Option<String>)| env_entry_view(e))
    }
}

/// The first entry for `name`: `None` when unset, `Some(None)` when not Unicode.
pub open spec fn env_get(e: EnvV, name: Seq<char>) -> Option<Option<Seq<char>>>
    decreases e.len(),
{
    if e.len() == 0 {
        None
    } else if e[0].0 == name {
        Some(e[0].1)
    } else {
        env_get(e.drop_first(), name)
    }
}

/// Characters allowed in a variable reference: ASCII letters, digits and `_`.
pub open spec fn is_var_char(c: char) -> bool {
    ('a' <= c && c <= 'z') || ('A' <= c && c <= 'Z') || ('0' <= c && c <= '9') || c == '_'
}

/// The variable a whole value refers to: `$` followed by one or more variable characters.
pub open spec fn var_reference(s: Seq<char>) -> Option<Seq<char>> {
    if s.len() > 1 && s[0] == '$' && forall|i: int| 1 <= i < s.len() ==> is_var_char(#[trigger] s[i]) {
        Some(s.skip(1))
    } else {
        None
    }
}

pub open spec fn undefined_var_message(name: Seq<char>) -> Seq<char> {
    "undefined environment variable: $"@ + name
}

pub open spec fn non_unicode_var_message(name: Seq<char>) -> Seq<char> {
    "environment variable $"@ + name + " is not valid UTF-8"@
}

/// A value with its variable references replaced, strings inside arrays included; the
/// first reference that cannot be resolved gives the error.
pub open spec fn env_expanded(v: JsonV, env: EnvV) -> Result<JsonV, Seq<char>>
    decreases v, 1nat,
{
    match v {
        JsonV::Str(s) => match var_reference(s) {
            Some(name) => match env_get(env, name) {
                Some(Some(val)) => Ok(JsonV::Str(val)),
                Some(None) => Err(non_unicode_var_message(name)),
                None => Err(undefined_var_message(name)),
            },
            None => Ok(v),
        },
        JsonV::Array(a) => match env_expanded_items(a, env, a.len()) {
            Ok(b) => Ok(JsonV::Array(b)),
            Err(e) => Err(e),
        },
        _ => Ok(v),
    }
}

/// The first `k` items of `a`, expanded in order.
pub open spec fn env_expanded_items(a: Seq<JsonV>, env: EnvV, k: nat) -> Result<Seq<JsonV>, Seq<char>>
    decreases a, k,
{
    if k == 0 || k > a.len() {
        Ok(Seq::empty())
    } else {
        match env_expanded_items(a, env, (k - 1) as nat) {
            Err(e) => Err(e),
            Ok(p) => match env_expanded(a[k - 1], env) {
                Ok(x) => Ok(p.push(x)),
                Err(e) => Err(e),
            },
        }
    }
}

/// The first `k` members of a header object, each value expanded, in order.
pub open spec fn env_expanded_members(o: ObjV, env: EnvV, k: nat) -> Result<ObjV, Seq<char>>
    decreases k,
{
    if k == 0 || k > o.len() {
        Ok(Seq::empty())
    } else {
        match env_expanded_members(o, env, (k - 1) as nat) {
            Err(e) => Err(e),
            Ok(p) => match env_expanded(o[k - 1].1, env) {
                Ok(x) => Ok(p.push((o[k - 1].0, x))),
                Err(e) => Err(e),
            },
        }
    }
}

/// All members of a header object, expanded.
pub open spec fn env_expanded_headers(o: ObjV, env: EnvV) -> Result<ObjV, Seq<char>> {
    env_expanded_members(o, env, o.len())
}

proof fn lemma_items_err(a: Seq<JsonV>, env: EnvV, i: nat, k: nat)
    requires
        1 <= i <= k <= a.len(),
        env_expanded_items(a, env, i) is Err,
    ensures
        env_expanded_items(a, env, k) == env_expanded_items(a, env, i),
    decreases k - i,
{
    if k > i {
        lemma_items_err(a, env, i, (k - 1) as nat);
    }
}

proof fn lemma_members_err(o: ObjV, env: EnvV, i: nat, k: nat)
    requires
        1 <= i <= k <= o.len(),
        env_expanded_members(o, env, i) is Err,
    ensures
        env_expanded_members(o, env, k) == env_expanded_members(o, env, i),
    decreases k - i,
{
    if k > i {
        lemma_members_err(o, env, i, (k - 1) as nat);
    }
}

/// Look up `name` as `std::env::var` would.
pub fn env_lookup(env: &Env, name: &str) -> (r: Option<Option<String>>)
    ensures
        match r {
            None => env_get(env@, name@) is None,
            Some(None) => env_get(env@, name@) == Some(None::<Seq<char>>),
            Some(Some(v)) => env_get(env@, name@) == Some(Some(v@)),
        },
{
    let mut i: usize = 0;
    assert(env@.skip(0) == env@);
    while i < env.vars.len()
        invariant
            i <= env.vars@.len(),
            env_get(env@, name@) == env_get(env@.skip(i as int), name@),
        decreases env.vars@.len() - i,
    {
        let e = &env.vars[i];
        proof {
            assert(env@.skip(i as int)[0] == env_entry_view(env.vars@[i as int]));
            assert(env@.skip(i as int).drop_first() == env@.skip(i + 1));
        }
        if str_eq(e.0.as_str(), name) {
            return match &e.1 {
                Some(v) => Some(Some(v.clone())),
                None => Some(None),
            };
        }
        i = i + 1;
    }
    None
}

fn is_var_char_exec(c: char) -> (r: bool)
    ensures
        r == is_var_char(c),
{
    ('a' <= c && c <= 'z') || ('A' <= c && c <= 'Z') || ('0' <= c && c <= '9') || c == '_'
}

/// The variable that `s` refers to, if it is a whole `$NAME` reference.
pub fn var_reference_of(s: &str) -> (r: Option<String>)
    ensures
        match r {
            Some(n) => var_reference(s@) == Some(n@),
            None => var_reference(s@) is None,
        },
{
    let v = chars_of(s);
    if v.len() < 2 || v[0] != '$' {
        return None;
    }
    let mut i: usize = 1;
    while i < v.len()
        invariant
            1 <= i <= v@.len(),
            v@ == s@,
            forall|j: int| 1 <= j < i ==> is_var_char(#[trigger] v@[j]),
        decreases v@.len() - i,
    {
        if !is_var_char_exec(v[i]) {
            return None;
        }
        i = i + 1;
    }
    let n = string_from_range(&v, 1, v.len());
    assert(n@ == s@.skip(1));
    Some(n)
}

/// `v` with its variable references resolved.
#[verifier::loop_isolation(false)]
pub fn expand_env_value(v: &Json, env: &Env) -> (r: Result<Json, String>)
    ensures
        match r {
            Ok(x) => env_expanded(v@, env@) == Ok::<JsonV, Seq<char>>(x@),
            Err(e) => env_expanded(v@, env@) == Err::<JsonV, Seq<char>>(e@),
        },
    decreases v,
{
    match v {
        Json::Str(s) => match var_reference_of(s.as_str()) {
            Some(name) => match env_lookup(env, name.as_str()) {
                Some(Some(val)) => Ok(Json::Str(val)),
                Some(None) => {
                    let mut m = String::new();
                    push_str(&mut m, "environment variable $");
                    push_str(&mut m, name.as_str());
                    push_str(&mut m, " is not valid UTF-8");
                    proof {
                        reveal_strlit("environment variable $");
                        reveal_strlit(" is not valid UTF-8");
                    }
                    Err(m)
                },
                None => {
                    let mut m = String::new();
                    push_str(&mut m, "undefined environment variable: $");
                    push_str(&mut m, name.as_str());
                    proof {
                        reveal_strlit("undefined environment variable: $");
                    }
                    Err(m)
                },
            },
            None => Ok(Json::Str(s.clone())),
        },
        Json::Array(a) => {
            proof {
                lemma_seq_view(a@);
            }
            let mut out: Vec<Json> = Vec::new();
            let mut i: usize = 0;
            while i < a.len()
                invariant
                    i <= a@.len(),
                    seq_view(a@).len() == a@.len(),
                    env_expanded_items(seq_view(a@), env@, i as nat) == Ok::<Seq<JsonV>, Seq<char>>(
                        seq_view(out@),
                    ),
                decreases a@.len() - i,
            {
                proof {
                    assert(decreases_to!(*a => a@));
                    assert(decreases_to!(a@ => a@[i as int]));
                    lemma_seq_view(out@);
                }
                match expand_env_value(&a[i], env) {
                    Ok(x) => {
                        let ghost before = out@;
                        out.push(x);
                        proof {
                            assert(out@.drop_last() == before);
                            assert(seq_view(out@) == seq_view(before).push(out@.last()@));
                        }
                    },
                    Err(e) => {
                        proof {
                            lemma_items_err(seq_view(a@), env@, (i + 1) as nat, a@.len() as nat);
                        }
                        return Err(e);
                    },
                }
                i = i + 1;
            }
            Ok(Json::Array(out))
        },
        Json::Null => Ok(Json::Null),
        Json::Bool(b) => Ok(Json::Bool(*b)),
        Json::Number(n) => Ok(Json::Number(n.copy())),
        Json::Object(_) => Ok(v.copy()),
    }
}

/// Resolve the variable references in every header value. On success the headers hold
/// the resolved values; on failure they are left as they were and the error names the
/// first variable that could not be resolved.
pub fn expand_env_in_headers(headers: &mut Vec<(String, Json)>, env: &Env) -> (r: Result<(), String>)
    ensures
        match r {
            Ok(()) => env_expanded_headers(entries_view(old(headers)@), env@) == Ok::<ObjV, Seq<char>>(
                entries_view(final(headers)@),
            ),
            Err(e) => env_expanded_headers(entries_view(old(headers)@), env@) == Err::<ObjV, Seq<char>>(
                e@,
            ) && final(headers)@ == old(headers)@,
        },
{
    proof {
        lemma_entries_view(headers@);
    }
    let mut out: Vec<(String, Json)> = Vec::new();
    let mut i: usize = 0;
    while i < headers.len()
        invariant
            i <= headers@.len(),
            entries_view(headers@).len() == headers@.len(),
            forall|j: int| 0 <= j < headers@.len() ==> #[trigger] entries_view(headers@)[j] == (
                headers@[j].0@,
                headers@[j].1@,
            ),
            env_expanded_members(entries_view(headers@), env@, i as nat) == Ok::<ObjV, Seq<char>>(
                entries_view(out@),
            ),
        decreases headers@.len() - i,
    {
        proof {
            lemma_entries_view(out@);
        }
        match expand_env_value(&headers[i].1, env) {
            Ok(x) => {
                let ghost before = out@;
                out.push((headers[i].0.clone(), x));
                proof {
                    assert(out@.drop_last() == before);
                    assert(entries_view(out@) == entries_view(before).push(
                        (out@.last().0@, out@.last().1@),
                    ));
                }
            },
            Err(e) => {
                proof {
                    lemma_members_err(entries_view(headers@), env@, (i + 1) as nat, headers@.len() as nat);
                }
                return Err(e);
            },
        }
        i = i + 1;
    }
    *headers = out;
    Ok(())
}

} // verus!

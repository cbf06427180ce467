//! URL patterns for rules: `*` matches within one path segment, `**` across segments.
//!
//! Matching runs over the UTF-8 bytes of the text; a wildcard is tried at every
//! character boundary, so it always consumes whole characters. Every match has an
//! answer (`lemma_glob_parts_total`).
use vstd::prelude::*;
use vstd::utf8::{encode_utf8, is_continuation_byte};

verus! {

/// One piece of a split pattern, as bytes.
pub enum GlobPart {
    Star,
    DoubleStar,
    Literal(Vec<u8>),
}

/// The mathematical content of a `GlobPart`.
pub enum GlobTok {
    Star,
    DoubleStar,
    Literal(Seq<u8>),
}

impl View for GlobPart {
    type V = GlobTok;

    open spec fn view(&self) -> GlobTok {
        match self {
            GlobPart::Star => GlobTok::Star,
            GlobPart::DoubleStar => GlobTok::DoubleStar,
            GlobPart::Literal(l) => GlobTok::Literal(l@),
        }
    }
}

pub open spec fn parts_view(s: Seq<GlobPart>) -> Seq<GlobTok> {
    s.map_values(|g: GlobPart| g@)
}

/// The number of leading bytes before the first `*`.
pub open spec fn literal_len(p: Seq<u8>) -> nat
    decreases p.len(),
{
    if p.len() == 0 || p[0] == 42u8 {
        0
    } else {
        1 + literal_len(p.drop_first())
    }
}

pub proof fn lemma_literal_len(p: Seq<u8>)
    ensures
        literal_len(p) <= p.len(),
        p.len() > 0 && p[0] != 42u8 ==> literal_len(p) >= 1,
    decreases p.len(),
{
    if p.len() > 0 && p[0] != 42u8 {
        lemma_literal_len(p.drop_first());
    }
}

/// A pattern split into `**`, `*` and the literal runs between them, left to right.
pub open spec fn glob_split(p: Seq<u8>) -> Seq<GlobTok>
    decreases p.len(),
{
    if p.len() == 0 {
        Seq::empty()
    } else if p.len() >= 2 && p[0] == 42u8 && p[1] == 42u8 {
        seq![GlobTok::DoubleStar] + glob_split(p.skip(2))
    } else if p[0] == 42u8 {
        seq![GlobTok::Star] + glob_split(p.skip(1))
    } else {
        proof {
            lemma_literal_len(p);
        }
        seq![GlobTok::Literal(p.take(literal_len(p) as int))] + glob_split(p.skip(literal_len(p) as int))
    }
}

/// Whether the pieces from `p` on match all of `t`; `None` where matching would slice
/// `t` inside a character.
pub open spec fn glob_parts(parts: Seq<GlobTok>, p: nat, t: Seq<u8>) -> Option<bool>
    decreases parts.len() - p, 1nat, 0nat,
{
    if p >= parts.len() {
        Some(t.len() == 0)
    } else {
        match parts[p as int] {
            GlobTok::DoubleStar => glob_scan(parts, p, t, 0, false),
            GlobTok::Star => glob_scan(parts, p, t, 0, true),
            GlobTok::Literal(l) => if l.len() <= t.len() && t.take(l.len() as int) == l {
                glob_parts(parts, p + 1, t.skip(l.len() as int))
            } else {
                Some(false)
            },
        }
    }
}

/// A wildcard at piece `p` tried at byte positions `i`, `i + 1`, ... of `t`; a single
/// `*` stops after consuming a `/`.
pub open spec fn glob_scan(parts: Seq<GlobTok>, p: nat, t: Seq<u8>, i: nat, single: bool) -> Option<bool>
    decreases parts.len() - p, 0nat, t.len() + 1 - i,
{
    if p >= parts.len() || i > t.len() {
        Some(false)
    } else if single && i > 0 && t[i - 1] == 47u8 {
        Some(false)
    } else if 0 < i < t.len() && is_continuation_byte(t[i as int]) {
        glob_scan(parts, p, t, i + 1, single)
    } else {
        match glob_parts(parts, p + 1, t.skip(i as int)) {
            Some(true) => Some(true),
            Some(false) => glob_scan(parts, p, t, i + 1, single),
            None => None,
        }
    }
}

pub proof fn lemma_glob_parts_total(parts: Seq<GlobTok>, p: nat, t: Seq<u8>)
    ensures
        glob_parts(parts, p, t) is Some,
    decreases parts.len() - p, 1nat, 0nat,
{
    if p < parts.len() {
        match parts[p as int] {
            GlobTok::DoubleStar => lemma_glob_scan_total(parts, p, t, 0, false),
            GlobTok::Star => lemma_glob_scan_total(parts, p, t, 0, true),
            GlobTok::Literal(l) => {
                if l.len() <= t.len() && t.take(l.len() as int) == l {
                    lemma_glob_parts_total(parts, p + 1, t.skip(l.len() as int));
                }
            },
        }
    }
}

pub proof fn lemma_glob_scan_total(parts: Seq<GlobTok>, p: nat, t: Seq<u8>, i: nat, single: bool)
    ensures
        glob_scan(parts, p, t, i, single) is Some,
    decreases parts.len() - p, 0nat, t.len() + 1 - i,
{
    if p >= parts.len() || i > t.len() {
    } else if single && i > 0 && t[i - 1] == 47u8 {
    } else if 0 < i < t.len() && is_continuation_byte(t[i as int]) {
        lemma_glob_scan_total(parts, p, t, i + 1, single);
    } else {
        lemma_glob_parts_total(parts, p + 1, t.skip(i as int));
        lemma_glob_scan_total(parts, p, t, i + 1, single);
    }
}

/// The outcome of matching `text` against `pattern`.
pub open spec fn glob_result(pattern: Seq<char>, text: Seq<char>) -> Option<bool> {
    glob_parts(glob_split(encode_utf8(pattern)), 0, encode_utf8(text))
}

proof fn lemma_literal_run(p: Seq<u8>, i: int, j: int)
    requires
        0 <= i <= j <= p.len(),
        forall|k: int| i <= k < j ==> p[k] != 42u8,
        j == p.len() || p[j] == 42u8,
    ensures
        literal_len(p.skip(i)) == j - i,
    decreases j - i,
{
    if i < j {
        lemma_literal_run(p, i + 1, j);
        assert(p.skip(i).drop_first() == p.skip(i + 1));
    }
}

/// Split a pattern's bytes into pieces.
pub fn split_glob(p: &[u8]) -> (r: Vec<GlobPart>)
    ensures
        parts_view(r@) == glob_split(p@),
{
    let mut parts: Vec<GlobPart> = Vec::new();
    let mut i: usize = 0;
    assert(p@.skip(0) == p@);
    while i < p.len()
        invariant
            i <= p@.len(),
            parts_view(parts@) + glob_split(p@.skip(i as int)) == glob_split(p@),
        decreases p@.len() - i,
    {
        let ghost q = p@.skip(i as int);
        let ghost before = parts@;
        if i + 1 < p.len() && p[i] == 42u8 && p[i + 1] == 42u8 {
            parts.push(GlobPart::DoubleStar);
            proof {
                assert(q.skip(2) == p@.skip(i + 2));
                assert(parts_view(parts@) =~= parts_view(before).push(GlobTok::DoubleStar));
                assert(parts_view(parts@) + glob_split(p@.skip(i + 2)) =~= parts_view(before) + (seq![
                    GlobTok::DoubleStar,
                ] + glob_split(q.skip(2))));
            }
            i = i + 2;
        } else if p[i] == 42u8 {
            parts.push(GlobPart::Star);
            proof {
                assert(q.skip(1) == p@.skip(i + 1));
                assert(parts_view(parts@) =~= parts_view(before).push(GlobTok::Star));
                assert(parts_view(parts@) + glob_split(p@.skip(i + 1)) =~= parts_view(before) + (seq![
                    GlobTok::Star,
                ] + glob_split(q.skip(1))));
            }
            i = i + 1;
        } else {
            let mut lit: Vec<u8> = Vec::new();
            let mut j: usize = i;
            while j < p.len() && p[j] != 42u8
                invariant
                    i <= j <= p@.len(),
                    lit@ == p@.subrange(i as int, j as int),
                    forall|k: int| i <= k < j ==> p@[k] != 42u8,
                decreases p@.len() - j,
            {
                lit.push(p[j]);
                j = j + 1;
            }
            proof {
                lemma_literal_run(p@, i as int, j as int);
                assert(q.take(literal_len(q) as int) == lit@);
                assert(q.skip(literal_len(q) as int) == p@.skip(j as int));
            }
            let ghost litv = lit@;
            parts.push(GlobPart::Literal(lit));
            proof {
                assert(parts_view(parts@) =~= parts_view(before).push(GlobTok::Literal(litv)));
                assert(parts_view(parts@) + glob_split(p@.skip(j as int)) =~= parts_view(before) + (seq![
                    GlobTok::Literal(litv),
                ] + glob_split(p@.skip(j as int))));
            }
            i = j;
        }
    }
    assert(glob_split(p@.skip(i as int)) =~= Seq::<GlobTok>::empty());
    assert(parts_view(parts@) + Seq::<GlobTok>::empty() =~= parts_view(parts@));
    parts
}

fn bytes_prefix(l: &Vec<u8>, t: &[u8], s: usize) -> (r: bool)
    requires
        s <= t@.len(),
    ensures
        r == (l@.len() <= t@.skip(s as int).len() && t@.skip(s as int).take(l@.len() as int) == l@),
{
    let n = t.len();
    if l.len() > n - s {
        return false;
    }
    let mut k: usize = 0;
    while k < l.len()
        invariant
            n == t@.len(),
            s + l@.len() <= t@.len(),
            k <= l@.len(),
            forall|m: int| 0 <= m < k ==> t@[s + m] == l@[m],
        decreases l@.len() - k,
    {
        if t[s + k] != l[k] {
            assert(t@.skip(s as int).take(l@.len() as int)[k as int] != l@[k as int]);
            return false;
        }
        k = k + 1;
    }
    assert(t@.skip(s as int).take(l@.len() as int) =~= l@);
    true
}

/// Match `t[s..]` against the pieces from `p` on.
pub fn glob_match_parts(parts: &Vec<GlobPart>, p: usize, t: &[u8], s: usize) -> (r: Option<bool>)
    requires
        p <= parts@.len(),
        s <= t@.len(),
    ensures
        r == glob_parts(parts_view(parts@), p as nat, t@.skip(s as int)),
    decreases parts@.len() - p,
{
    let ghost pv = parts_view(parts@);
    let np = parts.len();
    let nt = t.len();
    if p >= np {
        return Some(s == t.len());
    }
    assert(pv[p as int] == parts@[p as int]@);
    match &parts[p] {
        GlobPart::Literal(l) => {
            if bytes_prefix(l, t, s) {
                proof {
                    assert(t@.skip(s as int).skip(l@.len() as int) == t@.skip(s + l@.len()));
                }
                glob_match_parts(parts, p + 1, t, s + l.len())
            } else {
                Some(false)
            }
        },
        _ => {
            let single = match &parts[p] {
                GlobPart::Star => true,
                _ => false,
            };
            let ghost u = t@.skip(s as int);
            let mut i: usize = s;
            assert(u.skip(0) == u);
            loop
                invariant
                    p < parts@.len(),
                    pv == parts_view(parts@),
                    u == t@.skip(s as int),
                    s <= i <= t@.len(),
                    np == parts@.len(),
                    nt == t@.len(),
                    glob_parts(pv, p as nat, u) == glob_scan(pv, p as nat, u, (i - s) as nat, single),
                    pv[p as int] is Star ==> single,
                    pv[p as int] is DoubleStar ==> !single,
                    !(pv[p as int] is Literal),
                decreases t@.len() - i,
            {
                let k: usize = i - s;
                if single && i > s && t[i - 1] == 47u8 {
                    assert(u[k - 1] == t@[i - 1]);
                    return Some(false);
                }
                if i > s && i < t.len() && t[i] >= 0x80u8 && t[i] < 0xC0u8 {
                    proof {
                        assert(u[k as int] == t@[i as int]);
                        assert(is_continuation_byte(t@[i as int]));
                    }
                    i = i + 1;
                    continue;
                }
                proof {
                    assert(u.skip(k as int) == t@.skip(i as int));
                    if 0 < k && k < u.len() {
                        assert(u[k as int] == t@[i as int]);
                        assert(!is_continuation_byte(t@[i as int]));
                    }
                }
                match glob_match_parts(parts, p + 1, t, i) {
                    Some(true) => {
                        return Some(true);
                    },
                    None => {
                        return None;
                    },
                    Some(false) => {},
                }
                if i == t.len() {
                    assert(glob_scan(pv, p as nat, u, (k + 1) as nat, single) == Some(false));
                    return Some(false);
                }
                i = i + 1;
            }
        },
    }
}

/// Match `text` against `pattern` (always `Some`: see `lemma_glob_parts_total`).
pub fn glob_outcome(pattern: &str, text: &str) -> (r: Option<bool>)
    ensures
        r == glob_result(pattern@, text@),
        r is Some,
{
    proof {
        lemma_glob_parts_total(glob_split(encode_utf8(pattern@)), 0, encode_utf8(text@));
    }
    let pb = pattern.as_bytes();
    let tb = text.as_bytes();
    let parts = split_glob(pb);
    assert(tb@.skip(0) == tb@);
    glob_match_parts(&parts, 0, tb, 0)
}

} // verus!

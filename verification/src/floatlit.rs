//! Recognition of the strings that `str::parse::<f64>` accepts.
//!
//! The standard library documents the accepted language as the strings that,
//! once ASCII-lowercased, follow the grammar
//! `Sign? ( 'inf' | 'infinity' | 'nan' | Number )`, where
//! `Number ::= ( Digit+ | Digit+ '.' Digit* | Digit* '.' Digit+ ) Exp?` and
//! `Exp ::= 'e' Sign? Digit+`.
use vstd::prelude::*;
use crate::text::chars_of;

verus! {

pub open spec fn is_digit(c: char) -> bool {
    '0' <= c && c <= '9'
}

pub open spec fn is_sign(c: char) -> bool {
    c == '+' || c == '-'
}

/// ASCII lowercase of a single character.
pub open spec fn lower_ascii(c: char) -> char {
    if 'A' <= c && c <= 'Z' {
        ((c as u32) + 32) as char
    } else {
        c
    }
}

pub open spec fn lower_ascii_seq(s: Seq<char>) -> Seq<char> {
    s.map_values(|c: char| lower_ascii(c))
}

pub open spec fn all_digits(s: Seq<char>) -> bool {
    forall|i: int| 0 <= i < s.len() ==> is_digit(#[trigger] s[i])
}

/// `Digit+ | Digit+ '.' Digit* | Digit* '.' Digit+`
pub open spec fn mantissa(m: Seq<char>) -> bool {
    ||| (m.len() > 0 && all_digits(m))
    ||| (m.len() > 1 && exists|d: int|
        0 <= d < m.len() && m[d] == '.' && all_digits(m.take(d)) && all_digits(m.skip(d + 1)))
}

/// `Sign? Digit+`
pub open spec fn signed_digits(r: Seq<char>) -> bool {
    ||| (r.len() > 0 && all_digits(r))
    ||| (r.len() > 1 && is_sign(r[0]) && all_digits(r.skip(1)))
}

/// `'e' Sign? Digit+`, the letter in either case.
pub open spec fn exponent(e: Seq<char>) -> bool {
    e.len() > 0 && lower_ascii(e[0]) == 'e' && signed_digits(e.skip(1))
}

/// `Number ::= Mantissa Exp?`
pub open spec fn float_number(s: Seq<char>) -> bool {
    exists|k: int| 0 <= k <= s.len() && mantissa(s.take(k)) && (k == s.len() || exponent(s.skip(k)))
}

/// The strings that `str::parse::<f64>` accepts.
pub open spec fn float_literal(s: Seq<char>) -> bool {
    let t = if s.len() > 0 && is_sign(s[0]) { s.skip(1) } else { s };
    ||| lower_ascii_seq(t) == seq!['i', 'n', 'f']
    ||| lower_ascii_seq(t) == seq!['i', 'n', 'f', 'i', 'n', 'i', 't', 'y']
    ||| lower_ascii_seq(t) == seq!['n', 'a', 'n']
    ||| float_number(t)
}

fn lower(c: char) -> (r: char)
    ensures
        r == lower_ascii(c),
{
    if 'A' <= c && c <= 'Z' {
        assert(((c as u32) + 32) as char == lower_ascii(c));
        char_from_ascii_offset(c)
    } else {
        c
    }
}

fn char_from_ascii_offset(c: char) -> (r: char)
    requires
        'A' <= c && c <= 'Z',
    ensures
        r == ((c as u32) + 32) as char,
{
    match c {
        'A' => 'a', 'B' => 'b', 'C' => 'c', 'D' => 'd', 'E' => 'e', 'F' => 'f', 'G' => 'g',
        'H' => 'h', 'I' => 'i', 'J' => 'j', 'K' => 'k', 'L' => 'l', 'M' => 'm', 'N' => 'n',
        'O' => 'o', 'P' => 'p', 'Q' => 'q', 'R' => 'r', 'S' => 's', 'T' => 't', 'U' => 'u',
        'V' => 'v', 'W' => 'w', 'X' => 'x', 'Y' => 'y', _ => 'z',
    }
}

/// Whether `v[from..]`, ASCII-lowercased, equals `word`.
fn lower_rest_eq(v: &Vec<char>, from: usize, word: &Vec<char>) -> (r: bool)
    requires
        from <= v@.len(),
    ensures
        r == (lower_ascii_seq(v@.skip(from as int)) == word@),
{
    let n = v.len();
    if n - from != word.len() {
        assert(lower_ascii_seq(v@.skip(from as int)).len() != word@.len());
        return false;
    }
    let mut i: usize = 0;
    while i < word.len()
        invariant
            n == v@.len(),
            from <= n,
            n - from == word@.len(),
            i <= word@.len(),
            forall|j: int| 0 <= j < i ==> lower_ascii(v@[from + j]) == word@[j],
        decreases word@.len() - i,
    {
        if lower(v[from + i]) != word[i] {
            assert(lower_ascii_seq(v@.skip(from as int))[i as int] != word@[i as int]);
            return false;
        }
        i = i + 1;
    }
    assert(lower_ascii_seq(v@.skip(from as int)) =~= word@);
    true
}

/// The first position at or after `i` that does not hold a digit.
fn skip_digits(v: &Vec<char>, i: usize) -> (r: usize)
    requires
        i <= v@.len(),
    ensures
        i <= r <= v@.len(),
        forall|j: int| i <= j < r ==> is_digit(v@[j]),
        r < v@.len() ==> !is_digit(v@[r as int]),
{
    let mut k = i;
    while k < v.len() && '0' <= v[k] && v[k] <= '9'
        invariant
            i <= k <= v@.len(),
            forall|j: int| i <= j < k ==> is_digit(v@[j]),
        decreases v@.len() - k,
    {
        k = k + 1;
    }
    k
}

proof fn lemma_lower_e(x: char)
    requires
        lower_ascii(x) == 'e',
    ensures
        !is_digit(x),
        x != '.',
{
}

/// A mantissa followed by the end of input or an exponent letter ends exactly where
/// the leading digits (and, after a dot, the following digits) end.
proof fn lemma_mantissa_end(t: Seq<char>, k: int, a: int, c: int, dot: bool)
    requires
        0 <= a <= t.len(),
        forall|j: int| 0 <= j < a ==> is_digit(t[j]),
        a < t.len() ==> !is_digit(t[a]),
        dot == (a < t.len() && t[a] == '.'),
        dot ==> a + 1 <= c <= t.len() && (forall|j: int| a < j < c ==> is_digit(t[j])) && (c
            < t.len() ==> !is_digit(t[c])),
        !dot ==> c == a,
        0 <= k <= t.len(),
        mantissa(t.take(k)),
        k == t.len() || lower_ascii(t[k]) == 'e',
    ensures
        k == c,
{
    let m = t.take(k);
    if k < t.len() {
        lemma_lower_e(t[k]);
    }
    if m.len() > 0 && all_digits(m) {
        assert forall|j: int| 0 <= j < k implies is_digit(t[j]) by {
            assert(is_digit(m[j]));
        }
        if a < k {
            assert(is_digit(t[a]));
        }
        if k < a {
            assert(is_digit(t[k]));
        }
        assert(k == a);
    } else {
        let d = choose|d: int|
            0 <= d < m.len() && m[d] == '.' && all_digits(m.take(d)) && all_digits(m.skip(d + 1));
        assert(t[d] == '.');
        assert forall|j: int| 0 <= j < d implies is_digit(t[j]) by {
            assert(is_digit(m.take(d)[j]));
        }
        assert forall|j: int| d < j < k implies is_digit(t[j]) by {
            assert(is_digit(m.skip(d + 1)[j - d - 1]));
        }
        if a < d {
            assert(is_digit(t[a]));
        }
        if d < a {
            assert(is_digit(t[d]));
        }
        assert(a == d);
        assert(dot);
        if c < k {
            assert(is_digit(t[c]));
        }
        if k < c {
            assert(is_digit(t[k]));
        }
    }
}

/// Whether `v[st..]` is a `Number` of the grammar.
fn number_from(v: &Vec<char>, st: usize) -> (r: bool)
    requires
        st <= v@.len(),
    ensures
        r == float_number(v@.skip(st as int)),
{
    let ghost t = v@.skip(st as int);
    let n = v.len();
    let a = skip_digits(v, st);
    let dot = a < n && v[a] == '.';
    let c = if dot { skip_digits(v, a + 1) } else { a };
    let ok = if dot { c - st >= 2 } else { a > st };
    proof {
        assert forall|j: int| 0 <= j < a - st implies is_digit(t[j]) by {
            assert(t[j] == v@[st + j]);
        }
        assert(dot ==> forall|j: int| a - st < j < c - st ==> is_digit(t[j]));
    }
    if !ok {
        proof {
            if float_number(t) {
                let k = choose|k: int|
                    0 <= k <= t.len() && mantissa(t.take(k)) && (k == t.len() || exponent(t.skip(k)));
                if k < t.len() {
                    assert(t.skip(k)[0] == t[k]);
                }
                lemma_mantissa_end(t, k, a - st, c - st, dot);
                let m = t.take(k);
                if dot {
                    assert(k <= 1);
                    if m.len() > 0 && all_digits(m) {
                        assert(is_digit(m[0]));
                        assert(m[0] == t[0]);
                        assert(t[0] == v@[st as int]);
                        assert(false);
                    }
                } else {
                    assert(k == 0);
                }
            }
        }
        return false;
    }
    proof {
        let m = t.take(c - st);
        assert(mantissa(m)) by {
            if dot {
                assert(m[a - st] == '.');
                assert(all_digits(m.take(a - st)));
                assert forall|j: int| 0 <= j < m.skip(a - st + 1).len() implies is_digit(
                    #[trigger] m.skip(a - st + 1)[j],
                ) by {
                    assert(m.skip(a - st + 1)[j] == t[a - st + 1 + j]);
                }
            } else {
                assert(all_digits(m));
            }
        }
    }
    if c == n {
        proof {
            assert(t.take(c - st) == t.take(t.len() as int));
            assert(float_number(t));
        }
        return true;
    }
    let ec = lower(v[c]);
    if ec != 'e' {
        proof {
            if float_number(t) {
                let k = choose|k: int|
                    0 <= k <= t.len() && mantissa(t.take(k)) && (k == t.len() || exponent(t.skip(k)));
                if k < t.len() {
                    assert(t.skip(k)[0] == t[k]);
                }
                lemma_mantissa_end(t, k, a - st, c - st, dot);
                assert(t.skip(k)[0] == v@[c as int]);
            }
        }
        return false;
    }
    let mut e = c + 1;
    let signed = e < n && (v[e] == '+' || v[e] == '-');
    if signed {
        e = e + 1;
    }
    let f = skip_digits(v, e);
    let r = f > e && f == n;
    proof {
        let x = t.skip(c - st);
        let rest = x.skip(1);
        assert(x[0] == v@[c as int]);
        if r {
            if signed {
                assert(rest[0] == v@[c + 1]);
                assert forall|j: int| 0 <= j < rest.skip(1).len() implies is_digit(
                    #[trigger] rest.skip(1)[j],
                ) by {
                    assert(rest.skip(1)[j] == v@[e + j]);
                }
            } else {
                assert forall|j: int| 0 <= j < rest.len() implies is_digit(#[trigger] rest[j]) by {
                    assert(rest[j] == v@[e + j]);
                }
            }
            assert(exponent(x));
            assert(float_number(t));
        } else if float_number(t) {
            let k = choose|k: int|
                0 <= k <= t.len() && mantissa(t.take(k)) && (k == t.len() || exponent(t.skip(k)));
            if k < t.len() {
                assert(t.skip(k)[0] == t[k]);
            }
            lemma_mantissa_end(t, k, a - st, c - st, dot);
            assert(exponent(x));
            if signed {
                assert(rest[0] == v@[c + 1]);
                if rest.len() > 0 && all_digits(rest) {
                    assert(is_digit(rest[0]));
                }
                assert(all_digits(rest.skip(1)));
                if f < n {
                    assert(rest.skip(1)[f - e] == v@[f as int]);
                } else {
                    assert(rest.skip(1).len() == 0);
                }
            } else {
                if rest.len() > 1 && is_sign(rest[0]) && all_digits(rest.skip(1)) {
                    assert(rest[0] == v@[c + 1]);
                }
                assert(all_digits(rest));
                if f < n {
                    assert(rest[f - e] == v@[f as int]);
                } else {
                    assert(rest.len() == 0);
                }
            }
        }
    }
    r
}

/// Whether `str::parse::<f64>` accepts `s`.
pub fn is_float_literal(s: &str) -> (r: bool)
    ensures
        r == float_literal(s@),
{
    let v = chars_of(s);
    let st: usize = if v.len() > 0 && (v[0] == '+' || v[0] == '-') { 1 } else { 0 };
    assert(v@.skip(st as int) == (if s@.len() > 0 && is_sign(s@[0]) { s@.skip(1) } else { s@ }));
    let inf = vec!['i', 'n', 'f'];
    let infinity = vec!['i', 'n', 'f', 'i', 'n', 'i', 't', 'y'];
    let nan = vec!['n', 'a', 'n'];
    if lower_rest_eq(&v, st, &inf) || lower_rest_eq(&v, st, &infinity) || lower_rest_eq(&v, st, &nan) {
        return true;
    }
    number_from(&v, st)
}

} // verus!

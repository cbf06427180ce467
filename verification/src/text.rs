//! Character-level helpers shared by the formatting and parsing modules.
//!
//! Strings are reasoned about through their views, sequences of `char`.
use vstd::prelude::*;

verus! {

pub assume_specification[ String::push ](s: &mut String, ch: char)
    ensures
        final(s)@ == old(s)@.push(ch),
;

/// `p` occurs at the start of `s`.
pub open spec fn is_prefix(p: Seq<char>, s: Seq<char>) -> bool {
    p.len() <= s.len() && s.subrange(0, p.len() as int) == p
}

/// `p` occurs at the end of `s`.
pub open spec fn is_suffix(p: Seq<char>, s: Seq<char>) -> bool {
    p.len() <= s.len() && s.subrange(s.len() - p.len(), s.len() as int) == p
}

/// `p` occurs in `s` starting at position `i`.
pub open spec fn occurs_at(s: Seq<char>, p: Seq<char>, i: int) -> bool {
    0 <= i && i + p.len() <= s.len() && s.subrange(i, i + p.len()) == p
}

/// `p` occurs somewhere in `s`.
pub open spec fn occurs_in(s: Seq<char>, p: Seq<char>) -> bool {
    exists|i: int| occurs_at(s, p, i)
}

/// The position of the first occurrence of `p` in `s`, if any.
pub open spec fn first_occurrence(s: Seq<char>, p: Seq<char>) -> Option<int> {
    if occurs_in(s, p) {
        Some(choose|i: int| occurs_at(s, p, i) && forall|j: int| 0 <= j < i ==> !occurs_at(s, p, j))
    } else {
        None
    }
}

/// The characters of `s`, in order.
pub fn chars_of(s: &str) -> (r: Vec<char>)
    ensures
        r@ == s@,
{
    let mut r: Vec<char> = Vec::new();
    for c in it: s.chars()
        invariant
            r@ == it.seq().take(it.index() as int),
            it.seq() == s@,
    {
        r.push(c);
    }
    r
}

/// A new string holding `v[from..to]`.
pub fn string_from_range(v: &Vec<char>, from: usize, to: usize) -> (r: String)
    requires
        from <= to <= v@.len(),
    ensures
        r@ == v@.subrange(from as int, to as int),
{
    let mut r = String::new();
    let mut i = from;
    while i < to
        invariant
            from <= i <= to <= v@.len(),
            r@ == v@.subrange(from as int, i as int),
        decreases to - i,
    {
        r.push(v[i]);
        i = i + 1;
    }
    r
}

/// A new string holding all of `v`.
pub fn string_from_chars(v: &Vec<char>) -> (r: String)
    ensures
        r@ == v@,
{
    let r = string_from_range(v, 0, v.len());
    assert(v@.subrange(0, v@.len() as int) == v@);
    r
}

/// A copy of `s` as an owned string.
pub fn owned(s: &str) -> (r: String)
    ensures
        r@ == s@,
{
    let v = chars_of(s);
    string_from_chars(&v)
}

/// Append `s` to `dst`.
pub fn push_str(dst: &mut String, s: &str)
    ensures
        final(dst)@ == old(dst)@ + s@,
{
    dst.append(s);
}

/// Whether the characters `a[from..from + b.len()]` equal `b`.
pub fn range_eq(a: &Vec<char>, from: usize, b: &Vec<char>) -> (r: bool)
    requires
        from <= a@.len(),
    ensures
        r == (from + b@.len() <= a@.len() && a@.subrange(from as int, from + b@.len()) == b@),
{
    if b.len() > a.len() - from {
        return false;
    }
    let n = a.len();
    let mut i: usize = 0;
    while i < b.len()
        invariant
            n == a@.len(),
            from + b@.len() <= n,
            i <= b@.len(),
            forall|j: int| 0 <= j < i ==> a@[from + j] == b@[j],
        decreases b@.len() - i,
    {
        if a[from + i] != b[i] {
            assert(a@.subrange(from as int, from + b@.len())[i as int] != b@[i as int]);
            return false;
        }
        i = i + 1;
    }
    assert(a@.subrange(from as int, from + b@.len()) =~= b@);
    true
}

/// Whether two strings hold the same characters.
pub fn str_eq(a: &str, b: &str) -> (r: bool)
    ensures
        r == (a@ == b@),
{
    let va = chars_of(a);
    let vb = chars_of(b);
    if va.len() != vb.len() {
        return false;
    }
    let r = range_eq(&va, 0, &vb);
    assert(va@.subrange(0, va@.len() as int) == va@);
    r
}

/// Whether `p` is a prefix of `s`.
pub fn starts_with(s: &str, p: &str) -> (r: bool)
    ensures
        r == is_prefix(p@, s@),
{
    let vs = chars_of(s);
    let vp = chars_of(p);
    range_eq(&vs, 0, &vp)
}

/// Whether `p` is a suffix of `s`.
pub fn ends_with(s: &str, p: &str) -> (r: bool)
    ensures
        r == is_suffix(p@, s@),
{
    let vs = chars_of(s);
    let vp = chars_of(p);
    if vp.len() > vs.len() {
        return false;
    }
    range_eq(&vs, vs.len() - vp.len(), &vp)
}

/// The position of the first occurrence of `p` in `s`, counted in characters.
pub fn find_chars(s: &Vec<char>, p: &Vec<char>) -> (r: Option<usize>)
    ensures
        r matches Some(i) ==> occurs_at(s@, p@, i as int) && forall|j: int|
            0 <= j < i ==> !occurs_at(s@, p@, j),
        r is None ==> !occurs_in(s@, p@),
        r matches Some(i) ==> first_occurrence(s@, p@) == Some(i as int),
        r is None ==> first_occurrence(s@, p@) is None,
{
    if p.len() > s.len() {
        proof {
            assert forall|j: int| !occurs_at(s@, p@, j) by {}
        }
        return None;
    }
    let limit = s.len() - p.len();
    let mut i: usize = 0;
    loop
        invariant
            p@.len() <= s@.len(),
            limit == s@.len() - p@.len(),
            i <= limit,
            forall|j: int| 0 <= j < i ==> !occurs_at(s@, p@, j),
        ensures
            forall|j: int| 0 <= j <= limit ==> !occurs_at(s@, p@, j),
        decreases limit - i,
    {
        if range_eq(s, i, p) {
            proof {
                assert(occurs_at(s@, p@, i as int) && forall|j: int| 0 <= j < i ==> !occurs_at(s@, p@, j));
                let k = choose|k: int| occurs_at(s@, p@, k) && forall|j: int| 0 <= j < k ==> !occurs_at(s@, p@, j);
                if k < i { assert(!occurs_at(s@, p@, k)); }
                if k > i { assert(!occurs_at(s@, p@, i as int)); }
            }
            return Some(i);
        }
        if i == limit {
            break;
        }
        i = i + 1;
    }
    proof {
        assert forall|j: int| !occurs_at(s@, p@, j) by {
            if 0 <= j && j + p@.len() <= s@.len() {
                assert(j <= limit);
            }
        }
    }
    None
}

/// Whether `c` occurs in `v`.
pub fn contains_char(v: &Vec<char>, c: char) -> (r: bool)
    ensures
        r == v@.contains(c),
{
    let mut i: usize = 0;
    while i < v.len()
        invariant
            i <= v@.len(),
            forall|j: int| 0 <= j < i ==> v@[j] != c,
        decreases v@.len() - i,
    {
        if v[i] == c {
            return true;
        }
        i = i + 1;
    }
    false
}

/// The decimal digits of `n`, most significant first, without leading zeros ("0" for zero).
pub open spec fn decimal(n: nat) -> Seq<char>
    decreases n,
{
    if n < 10 {
        seq![digit_char(n)]
    } else {
        decimal(n / 10).push(digit_char(n % 10))
    }
}

/// The ASCII digit for `d < 10`.
pub open spec fn digit_char(d: nat) -> char {
    if d == 0 { '0' } else if d == 1 { '1' } else if d == 2 { '2' } else if d == 3 { '3' }
    else if d == 4 { '4' } else if d == 5 { '5' } else if d == 6 { '6' } else if d == 7 { '7' }
    else if d == 8 { '8' } else { '9' }
}

fn digit(d: u64) -> (c: char)
    requires
        d < 10,
    ensures
        c == digit_char(d as nat),
{
    if d == 0 { '0' } else if d == 1 { '1' } else if d == 2 { '2' } else if d == 3 { '3' }
    else if d == 4 { '4' } else if d == 5 { '5' } else if d == 6 { '6' } else if d == 7 { '7' }
    else if d == 8 { '8' } else { '9' }
}

/// `n` written in decimal.
pub fn u64_to_decimal(n: u64) -> (r: String)
    ensures
        r@ == decimal(n as nat),
    decreases n,
{
    if n < 10 {
        let mut r = String::new();
        r.push(digit(n));
        r
    } else {
        let mut r = u64_to_decimal(n / 10);
        r.push(digit(n % 10));
        r
    }
}

/// `n` written in decimal.
pub fn usize_to_decimal(n: usize) -> (r: String)
    ensures
        r@ == decimal(n as nat),
{
    u64_to_decimal(n as u64)
}

/// The number that a string of decimal digits denotes.
pub open spec fn digits_value(d: Seq<char>) -> nat
    decreases d.len(),
{
    if d.len() == 0 {
        0
    } else {
        digits_value(d.drop_last()) * 10 + ((d.last() as u32) - ('0' as u32)) as nat
    }
}

pub open spec fn all_ascii_digits(d: Seq<char>) -> bool {
    forall|i: int| 0 <= i < d.len() ==> '0' <= #[trigger] d[i] && d[i] <= '9'
}

/// What `str::parse::<u16>` returns: an optional `+`, then one or more decimal digits
/// whose value fits in 16 bits.
pub open spec fn u16_text(s: Seq<char>) -> Option<u16> {
    let d = if s.len() > 0 && s[0] == '+' { s.skip(1) } else { s };
    if d.len() > 0 && all_ascii_digits(d) && digits_value(d) <= 65535 {
        Some(digits_value(d) as u16)
    } else {
        None
    }
}

/// `decimal(n)` is a non-empty run of ASCII digits whose value is `n`.
pub proof fn lemma_decimal_value(n: nat)
    ensures
        decimal(n).len() > 0,
        decimal(n)[0] != '+',
        all_ascii_digits(decimal(n)),
        digits_value(decimal(n)) == n,
    decreases n,
{
    if n < 10 {
        let d = decimal(n);
        assert(d.drop_last() =~= Seq::<char>::empty());
        assert(digits_value(d.drop_last()) == 0);
    } else {
        lemma_decimal_value(n / 10);
        let d = decimal(n);
        assert(d.drop_last() =~= decimal(n / 10));
        assert(d[0] == decimal(n / 10)[0]);
        assert forall|i: int| 0 <= i < d.len() implies '0' <= #[trigger] d[i] && d[i] <= '9' by {
            if i < d.len() - 1 {
                assert(d[i] == decimal(n / 10)[i]);
            }
        }
        assert(((digit_char(n % 10) as u32) - ('0' as u32)) as nat == n % 10);
    }
}

/// A `u16` written in decimal reads back as itself.
pub proof fn lemma_u16_decimal(n: u16)
    ensures
        u16_text(decimal(n as nat)) == Some(n),
{
    lemma_decimal_value(n as nat);
}

proof fn lemma_digits_value_mono(d: Seq<char>, i: int)
    requires
        0 <= i <= d.len(),
        all_ascii_digits(d),
    ensures
        digits_value(d.take(i)) <= digits_value(d),
    decreases d.len() - i,
{
    if i < d.len() {
        lemma_digits_value_mono(d.drop_last(), i);
        assert(d.drop_last().take(i) == d.take(i));
    } else {
        assert(d.take(i) == d);
    }
}

/// Parse a decimal `u16` as `str::parse::<u16>` does.
pub fn parse_u16(s: &str) -> (r: Option<u16>)
    ensures
        r == u16_text(s@),
{
    let v = chars_of(s);
    let st: usize = if v.len() > 0 && v[0] == '+' { 1 } else { 0 };
    let ghost d = if s@.len() > 0 && s@[0] == '+' { s@.skip(1) } else { s@ };
    assert(d == v@.skip(st as int));
    if st >= v.len() {
        return None;
    }
    let mut acc: u32 = 0;
    let mut i = st;
    while i < v.len()
        invariant
            st <= i <= v@.len(),
            d == v@.skip(st as int),
            d == (if s@.len() > 0 && s@[0] == '+' { s@.skip(1) } else { s@ }),
            acc as nat == digits_value(d.take(i - st)),
            all_ascii_digits(d.take(i - st)),
            acc <= 65535,
        decreases v@.len() - i,
    {
        let c = v[i];
        proof {
            assert(d.take(i - st + 1).drop_last() == d.take(i - st));
            assert(d.take(i - st + 1).last() == c);
        }
        if c < '0' || c > '9' {
            proof {
                assert(d[i - st] == c);
            }
            return None;
        }
        let digit = (c as u32) - ('0' as u32);
        acc = acc * 10 + digit;
        if acc > 65535 {
            proof {
                assert(all_ascii_digits(d.take(i - st + 1)));
                if all_ascii_digits(d) {
                    lemma_digits_value_mono(d, i - st + 1);
                }
            }
            return None;
        }
        i = i + 1;
    }
    assert(d.take(i - st) == d);
    Some(acc as u16)
}

/// Characters with the Unicode `White_Space` property, as `char::is_whitespace` tests.
pub open spec fn is_ws(c: char) -> bool {
    ||| ('\u{9}' <= c && c <= '\u{d}')
    ||| c == ' ' || c == '\u{85}' || c == '\u{a0}' || c == '\u{1680}'
    ||| ('\u{2000}' <= c && c <= '\u{200a}')
    ||| c == '\u{2028}' || c == '\u{2029}' || c == '\u{202f}' || c == '\u{205f}' || c == '\u{3000}'
}

pub fn is_whitespace(c: char) -> (r: bool)
    ensures
        r == is_ws(c),
{
    ('\u{9}' <= c && c <= '\u{d}') || c == ' ' || c == '\u{85}' || c == '\u{a0}' || c == '\u{1680}'
        || ('\u{2000}' <= c && c <= '\u{200a}') || c == '\u{2028}' || c == '\u{2029}'
        || c == '\u{202f}' || c == '\u{205f}' || c == '\u{3000}'
}

/// `s` without leading whitespace.
pub open spec fn trim_start(s: Seq<char>) -> Seq<char>
    decreases s.len(),
{
    if s.len() > 0 && is_ws(s[0]) {
        trim_start(s.skip(1))
    } else {
        s
    }
}

/// `s` without trailing whitespace.
pub open spec fn trim_end(s: Seq<char>) -> Seq<char>
    decreases s.len(),
{
    if s.len() > 0 && is_ws(s.last()) {
        trim_end(s.drop_last())
    } else {
        s
    }
}

/// `s` without leading and trailing whitespace, as `str::trim` returns it.
pub open spec fn trim(s: Seq<char>) -> Seq<char> {
    trim_end(trim_start(s))
}

proof fn lemma_trim_start(s: Seq<char>, i: int)
    requires
        0 <= i <= s.len(),
        forall|j: int| 0 <= j < i ==> is_ws(s[j]),
        i == s.len() || !is_ws(s[i]),
    ensures
        trim_start(s) == s.skip(i),
    decreases i,
{
    if i > 0 {
        lemma_trim_start(s.skip(1), i - 1);
        assert(s.skip(1).skip(i - 1) == s.skip(i));
    } else {
        assert(s.skip(0) == s);
    }
}

/// A string that neither starts nor ends with whitespace is its own trim.
pub proof fn lemma_trim_plain(s: Seq<char>)
    requires
        s.len() > 0,
        !is_ws(s[0]),
        !is_ws(s.last()),
    ensures
        trim(s) == s,
{
    lemma_trim_start(s, 0);
    assert(s.skip(0) == s);
    lemma_trim_end(s, s.len() as int);
    assert(s.take(s.len() as int) == s);
}

proof fn lemma_trim_end(s: Seq<char>, e: int)
    requires
        0 <= e <= s.len(),
        forall|j: int| e <= j < s.len() ==> is_ws(s[j]),
        e == 0 || !is_ws(s[e - 1]),
    ensures
        trim_end(s) == s.take(e),
    decreases s.len() - e,
{
    if e < s.len() {
        lemma_trim_end(s.drop_last(), e);
        assert(s.drop_last().take(e) == s.take(e));
    } else {
        assert(s.take(e) == s);
    }
}

/// The characters of `s` with surrounding whitespace removed.
pub fn trim_chars(v: &Vec<char>) -> (r: Vec<char>)
    ensures
        r@ == trim(v@),
{
    let mut a: usize = 0;
    while a < v.len() && is_whitespace(v[a])
        invariant
            a <= v@.len(),
            forall|j: int| 0 <= j < a ==> is_ws(v@[j]),
        decreases v@.len() - a,
    {
        a = a + 1;
    }
    proof { lemma_trim_start(v@, a as int); }
    let mut e: usize = v.len();
    while e > a && is_whitespace(v[e - 1])
        invariant
            a <= e <= v@.len(),
            forall|j: int| e <= j < v@.len() ==> is_ws(v@[j]),
        decreases e,
    {
        e = e - 1;
    }
    proof {
        let t = v@.skip(a as int);
        if e > a {
            lemma_trim_end(t, e - a);
        } else {
            lemma_trim_end(t, 0);
        }
        assert(t.take(e - a) =~= v@.subrange(a as int, e as int));
    }
    let mut r: Vec<char> = Vec::new();
    let mut i = a;
    while i < e
        invariant
            a <= i <= e <= v@.len(),
            r@ == v@.subrange(a as int, i as int),
        decreases e - i,
    {
        r.push(v[i]);
        i = i + 1;
    }
    r
}

/// Length of the run of non-whitespace characters that starts `s`.
pub open spec fn word_len(s: Seq<char>) -> nat
    decreases s.len(),
{
    if s.len() == 0 || is_ws(s[0]) {
        0
    } else {
        1 + word_len(s.skip(1))
    }
}

/// The maximal runs of non-whitespace characters of `s`, as `str::split_whitespace` yields them.
pub open spec fn words(s: Seq<char>) -> Seq<Seq<char>>
    decreases s.len(),
{
    if s.len() == 0 {
        Seq::empty()
    } else if is_ws(s[0]) {
        words(s.skip(1))
    } else {
        let n = word_len(s);
        proof {
            lemma_word_len_bounds(s);
        }
        seq![s.take(n as int)] + words(s.skip(n as int))
    }
}

pub proof fn lemma_word_len_bounds(s: Seq<char>)
    ensures
        word_len(s) <= s.len(),
        s.len() > 0 && !is_ws(s[0]) ==> word_len(s) > 0,
    decreases s.len(),
{
    if s.len() > 0 && !is_ws(s[0]) {
        lemma_word_len_bounds(s.skip(1));
    }
}

proof fn lemma_word_len(s: Seq<char>, i: int)
    requires
        0 <= i <= s.len(),
        forall|j: int| 0 <= j < i ==> !is_ws(s[j]),
        i == s.len() || is_ws(s[i]),
    ensures
        word_len(s) == i,
    decreases i,
{
    if i > 0 {
        lemma_word_len(s.skip(1), i - 1);
    }
}

proof fn lemma_words_skip_ws(s: Seq<char>, i: int)
    requires
        0 <= i <= s.len(),
        forall|j: int| 0 <= j < i ==> is_ws(s[j]),
    ensures
        words(s) == words(s.skip(i)),
    decreases i,
{
    if i > 0 {
        lemma_words_skip_ws(s.skip(1), i - 1);
        assert(s.skip(1).skip(i - 1) == s.skip(i));
    } else {
        assert(s.skip(0) == s);
    }
}

/// The whitespace-separated words of `v`.
pub fn split_words(v: &Vec<char>) -> (r: Vec<Vec<char>>)
    ensures
        r@.len() == words(v@).len(),
        forall|k: int| 0 <= k < r@.len() ==> #[trigger] r@[k]@ == words(v@)[k],
{
    let mut r: Vec<Vec<char>> = Vec::new();
    let ghost done: Seq<Seq<char>> = Seq::empty();
    let mut i: usize = 0;
    assert(v@.skip(0) == v@);
    while i < v.len()
        invariant
            i <= v@.len(),
            done + words(v@.skip(i as int)) == words(v@),
            r@.len() == done.len(),
            forall|k: int| 0 <= k < r@.len() ==> #[trigger] r@[k]@ == done[k],
        decreases v@.len() - i,
    {
        let ghost rest = v@.skip(i as int);
        if is_whitespace(v[i]) {
            proof {
                assert(rest[0] == v@[i as int]);
                assert(rest.skip(1) == v@.skip(i + 1));
            }
            i = i + 1;
        } else {
            let mut j = i;
            let mut w: Vec<char> = Vec::new();
            while j < v.len() && !is_whitespace(v[j])
                invariant
                    i <= j <= v@.len(),
                    w@ == v@.subrange(i as int, j as int),
                    forall|k: int| i <= k < j ==> !is_ws(v@[k]),
                decreases v@.len() - j,
            {
                w.push(v[j]);
                j = j + 1;
            }
            proof {
                assert forall|k: int| 0 <= k < j - i implies !is_ws(rest[k]) by {
                    assert(rest[k] == v@[i + k]);
                }
                if j < v@.len() {
                    assert(rest[j - i] == v@[j as int]);
                }
                lemma_word_len(rest, j - i);
                assert(rest[0] == v@[i as int]);
                assert(rest.take(j - i) == w@);
                assert(rest.skip(j - i) == v@.skip(j as int));
                assert(words(rest) == seq![w@] + words(v@.skip(j as int)));
                done = done.push(w@);
                assert(done + words(v@.skip(j as int)) == words(v@));
            }
            r.push(w);
            i = j;
        }
    }
    proof {
        assert(v@.skip(i as int).len() == 0);
        assert(done == words(v@));
    }
    r
}

} // verus!

verus! {

/// The position of the first `c` in `s`.
pub open spec fn char_index(s: Seq<char>, c: char) -> Option<int>
    decreases s.len(),
{
    if s.len() == 0 {
        None
    } else if s[0] == c {
        Some(0)
    } else {
        match char_index(s.drop_first(), c) {
            Some(i) => Some(i + 1),
            None => None,
        }
    }
}

/// `s` up to, not including, its first `c`; all of `s` when there is none.
pub open spec fn before_char(s: Seq<char>, c: char) -> Seq<char> {
    match char_index(s, c) {
        Some(i) => s.take(i),
        None => s,
    }
}

/// `s` without trailing `c`s.
pub open spec fn trim_trailing(s: Seq<char>, c: char) -> Seq<char>
    decreases s.len(),
{
    if s.len() > 0 && s.last() == c {
        trim_trailing(s.drop_last(), c)
    } else {
        s
    }
}

pub proof fn lemma_char_index(s: Seq<char>, c: char)
    ensures
        char_index(s, c) matches Some(i) ==> 0 <= i < s.len() && s[i] == c && forall|j: int|
            0 <= j < i ==> s[j] != c,
        char_index(s, c) is None ==> !s.contains(c),
    decreases s.len(),
{
    if s.len() > 0 && s[0] != c {
        lemma_char_index(s.drop_first(), c);
        if let Some(i) = char_index(s, c) {
            assert(s.drop_first()[i - 1] == s[i]);
            assert forall|j: int| 0 <= j < i implies s[j] != c by {
                if j > 0 {
                    assert(s.drop_first()[j - 1] == s[j]);
                }
            }
        }
        if char_index(s, c) is None {
            assert forall|j: int| 0 <= j < s.len() implies s[j] != c by {
                if j > 0 {
                    assert(s.drop_first()[j - 1] == s[j]);
                }
            }
        }
    }
}

/// The position of the first `c` in `v`.
pub fn char_pos(v: &Vec<char>, c: char) -> (r: Option<usize>)
    ensures
        r matches Some(i) ==> i < v@.len() && v@[i as int] == c,
        match r {
            Some(i) => char_index(v@, c) == Some(i as int),
            None => char_index(v@, c) is None,
        },
{
    let mut i: usize = 0;
    assert(v@.skip(0) == v@);
    while i < v.len()
        invariant
            i <= v@.len(),
            char_index(v@, c) == match char_index(v@.skip(i as int), c) {
                Some(k) => Some(k + i),
                None => None::<int>,
            },
        decreases v@.len() - i,
    {
        proof {
            assert(v@.skip(i as int)[0] == v@[i as int]);
            assert(v@.skip(i as int).drop_first() == v@.skip(i + 1));
        }
        if v[i] == c {
            return Some(i);
        }
        i = i + 1;
    }
    None
}

/// `v[..to]` without trailing `c`s: the end of what remains.
pub fn trim_trailing_end(v: &Vec<char>, to: usize, c: char) -> (r: usize)
    requires
        to <= v@.len(),
    ensures
        r <= to,
        v@.take(r as int) == trim_trailing(v@.take(to as int), c),
{
    let mut e = to;
    while e > 0 && v[e - 1] == c
        invariant
            e <= to <= v@.len(),
            trim_trailing(v@.take(to as int), c) == trim_trailing(v@.take(e as int), c),
        decreases e,
    {
        assert(v@.take(e as int).drop_last() == v@.take(e - 1));
        e = e - 1;
    }
    e
}

} // verus!

verus! {

/// `s` without leading whitespace, as `str::trim_start` gives it.
pub fn trim_start_str(s: &str) -> (r: String)
    ensures
        r@ == trim_start(s@),
{
    let v = chars_of(s);
    let mut a: usize = 0;
    while a < v.len() && is_whitespace(v[a])
        invariant
            a <= v@.len(),
            forall|j: int| 0 <= j < a ==> is_ws(v@[j]),
        decreases v@.len() - a,
    {
        a = a + 1;
    }
    proof {
        lemma_trim_start(v@, a as int);
    }
    let r = string_from_range(&v, a, v.len());
    assert(r@ == v@.skip(a as int));
    r
}

/// The lines of `s`, as `str::lines` gives them: split after each `\n`, which is
/// dropped together with a `\r` just before it; no empty line after a final `\n`.
pub open spec fn lines_of(s: Seq<char>) -> Seq<Seq<char>>
    decreases s.len(),
{
    if s.len() == 0 {
        Seq::empty()
    } else {
        match char_index(s, '\n') {
            None => seq![s],
            Some(i) => {
                proof {
                    lemma_char_index(s, '\n');
                }
                let line = s.take(i);
                let line = if line.len() > 0 && line.last() == '\r' { line.drop_last() } else { line };
                seq![line] + lines_of(s.skip(i + 1))
            },
        }
    }
}

/// The lines of `s`.
pub fn split_lines(s: &str) -> (r: Vec<String>)
    ensures
        r@.map_values(|x: String| x@) == lines_of(s@),
{
    let v = chars_of(s);
    let n = v.len();
    let mut out: Vec<String> = Vec::new();
    let mut start: usize = 0;
    assert(v@.skip(0) == v@);
    while start < n
        invariant
            start <= n == v@.len(),
            v@ == s@,
            out@.map_values(|x: String| x@) + lines_of(v@.skip(start as int)) == lines_of(s@),
        decreases n - start,
    {
        let ghost rest = v@.skip(start as int);
        let mut e = start;
        while e < n && v[e] != '\n'
            invariant
                start <= e <= n == v@.len(),
                forall|j: int| start <= j < e ==> v@[j] != '\n',
            decreases n - e,
        {
            e = e + 1;
        }
        let mut le = e;
        if le > start && v[le - 1] == '\r' && e < n {
            le = le - 1;
        }
        let line = string_from_range(&v, start, le);
        let ghost before = out@;
        out.push(line);
        proof {
            lemma_char_index(rest, '\n');
            if e < n {
                assert(rest[e - start] == '\n');
                match char_index(rest, '\n') {
                    Some(i) => {
                        if i < e - start {
                            assert(rest[i] == v@[start + i]);
                        }
                        if i > e - start {
                            assert(rest[e - start] != '\n');
                        }
                    },
                    None => {
                        assert(rest.contains('\n')) by {
                            assert(rest[e - start] == '\n');
                        }
                    },
                }
                assert(char_index(rest, '\n') == Some(e - start));
                assert(rest.take(e - start) == v@.subrange(start as int, e as int));
                assert(rest.skip(e - start + 1) == v@.skip(e + 1));
                let t = rest.take(e - start);
                let t2 = if t.len() > 0 && t.last() == '\r' { t.drop_last() } else { t };
                assert(t2 =~= line@);
                assert(lines_of(rest) == seq![t2] + lines_of(rest.skip(e - start + 1)));
            } else {
                match char_index(rest, '\n') {
                    Some(i) => {
                        assert(rest[i] == v@[start + i]);
                    },
                    None => {},
                }
                assert(char_index(rest, '\n') is None);
                assert(rest =~= line@);
                assert(lines_of(rest) == seq![rest]);
            }
            assert(out@.map_values(|x: String| x@) =~= before.map_values(|x: String| x@).push(line@));
        }
        if e < n {
            start = e + 1;
        } else {
            start = n;
            assert(v@.skip(n as int) =~= Seq::<char>::empty());
        }
        proof {
            assert(out@.map_values(|x: String| x@) + lines_of(v@.skip(start as int)) =~= before.map_values(
                |x: String| x@,
            ) + lines_of(rest));
        }
    }
    assert(v@.skip(n as int) =~= Seq::<char>::empty());
    assert(out@.map_values(|x: String| x@) + Seq::<Seq<char>>::empty() =~= out@.map_values(|x: String| x@));
    out
}

} // verus!

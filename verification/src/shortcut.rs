//! Header shortcuts: short keys (`a!`, `c!`) and short values (`j!`, `bearer!tok`, ...).
use vstd::prelude::*;
use vstd::utf8::encode_utf8;
use crate::json::{Json, JsonV, ObjV, entries_view, lemma_entries_view, obj_insert, obj_put, obj_remove, obj_take, copy_entries};
use crate::text::{chars_of, is_prefix, owned, push_str, starts_with, str_eq, string_from_range};
use crate::trusted::{base64_encode, base64_standard};

verus! {

/// What a header value shortcut expands to: `basic!user:pass` to a Basic credential,
/// `bearer!tok` to a Bearer token, content-type names (`json!`/`j!`, `form!`/`f!`,
/// `multi!`/`m!`, `html!`/`h!`, `text!`/`t!`, `xml!`/`x!`) to MIME types, and the
/// prefixes `a!/`, `t!/`, `i!/` to `application/`, `text/`, `image/`; anything else
/// stays as it is.
pub open spec fn expanded_value(s: Seq<char>) -> Seq<char> {
    if is_prefix("basic!"@, s) {
        "Basic "@ + base64_standard(encode_utf8(s.skip(6)))
    } else if is_prefix("bearer!"@, s) {
        "Bearer "@ + s.skip(7)
    } else if s == "json!"@ || s == "j!"@ {
        "application/json"@
    } else if s == "form!"@ || s == "f!"@ {
        "application/x-www-form-urlencoded"@
    } else if s == "multi!"@ || s == "m!"@ {
        "multipart/form-data"@
    } else if s == "html!"@ || s == "h!"@ {
        "text/html"@
    } else if s == "text!"@ || s == "t!"@ {
        "text/plain"@
    } else if s == "xml!"@ || s == "x!"@ {
        "application/xml"@
    } else if is_prefix("a!/"@, s) {
        "application/"@ + s.skip(3)
    } else if is_prefix("t!/"@, s) {
        "text/"@ + s.skip(3)
    } else if is_prefix("i!/"@, s) {
        "image/"@ + s.skip(3)
    } else {
        s
    }
}

/// The header a shortcut key stands for: `a!`/`auth!` Authorization, `c!`/`ct!`
/// Content-Type.
pub open spec fn expanded_key(k: Seq<char>) -> Option<Seq<char>> {
    if k == "a!"@ || k == "auth!"@ {
        Some("Authorization"@)
    } else if k == "c!"@ || k == "ct!"@ {
        Some("Content-Type"@)
    } else {
        None
    }
}

/// A value short enough for its base64 text to be sized without overflow.
pub open spec fn value_encodable(s: Seq<char>) -> bool {
    encode_utf8(s).len() <= usize::MAX / 2
}

proof fn lemma_encode_skip_len(s: Seq<char>, k: int)
    requires
        0 <= k <= s.len(),
    ensures
        encode_utf8(s.skip(k)).len() <= encode_utf8(s).len(),
    decreases k,
{
    if k > 0 {
        lemma_encode_skip_len(s.drop_first(), k - 1);
        assert(s.drop_first().skip(k - 1) == s.skip(k));
    } else {
        assert(s.skip(0) == s);
    }
}

/// Rename entries carry encodable values.
pub open spec fn renames_encodable(r: Seq<(Seq<char>, Seq<char>, JsonV)>) -> bool {
    forall|i: int| 0 <= i < r.len() ==> (#[trigger] r[i].2 matches JsonV::Str(s) ==> value_encodable(s))
}

proof fn lemma_key_renames_encodable(h: ObjV)
    requires
        values_encodable(h),
    ensures
        renames_encodable(key_renames(h)),
    decreases h.len(),
{
    if h.len() > 0 {
        assert(values_encodable(h.drop_last())) by {
            assert forall|i: int| 0 <= i < h.drop_last().len() implies (#[trigger] h.drop_last()[i].1 matches JsonV::Str(s) ==> value_encodable(s)) by {
                assert(h.drop_last()[i] == h[i]);
            }
        }
        lemma_key_renames_encodable(h.drop_last());
        assert(h.last() == h[h.len() - 1]);
    }
}

proof fn lemma_renamed_encodable(h: ObjV, r: Seq<(Seq<char>, Seq<char>, JsonV)>)
    requires
        values_encodable(h),
        renames_encodable(r),
    ensures
        values_encodable(renamed(h, r)),
    decreases r.len(),
{
    if r.len() > 0 {
        let rp = r.drop_last();
        assert(renames_encodable(rp)) by {
            assert forall|i: int| 0 <= i < rp.len() implies (#[trigger] rp[i].2 matches JsonV::Str(s) ==> value_encodable(s)) by {
                assert(rp[i] == r[i]);
            }
        }
        lemma_renamed_encodable(h, rp);
        let o = renamed(h, rp);
        let e = r.last();
        assert(e == r[r.len() - 1]);
        crate::json::lemma_obj_index(o, e.0);
        let o2 = obj_remove(o, e.0);
        assert(values_encodable(o2)) by {
            assert forall|i: int| 0 <= i < o2.len() implies (#[trigger] o2[i].1 matches JsonV::Str(s) ==> value_encodable(s)) by {
                match crate::json::obj_index(o, e.0) {
                    Some(k) => {
                        if i == k {
                            assert(o2[i] == o[o.len() - 1]);
                        } else {
                            assert(o2[i] == o[i]);
                        }
                    },
                    None => {},
                }
            }
        }
        crate::json::lemma_obj_index(o2, e.1);
        let o3 = obj_insert(o2, e.1, e.2);
        assert forall|i: int| 0 <= i < o3.len() implies (#[trigger] o3[i].1 matches JsonV::Str(s) ==> value_encodable(s)) by {
            match crate::json::obj_index(o2, e.1) {
                Some(k) => {
                    if i != k {
                        assert(o3[i] == o2[i]);
                    }
                },
                None => {
                    if i < o2.len() {
                        assert(o3[i] == o2[i]);
                    }
                },
            }
        }
    }
}

fn prefixed(prefix: &str, rest: &Vec<char>, from: usize) -> (r: String)
    requires
        from <= rest@.len(),
    ensures
        r@ == prefix@ + rest@.skip(from as int),
{
    let mut out = owned(prefix);
    let tail = string_from_range(rest, from, rest.len());
    push_str(&mut out, tail.as_str());
    out
}

/// Expand shortcut syntax in a header value string.
pub fn expand_value(s: &str) -> (r: String)
    requires
        value_encodable(s@),
    ensures
        r@ == expanded_value(s@),
{
    proof {
        reveal_strlit("basic!");
        reveal_strlit("bearer!");
        reveal_strlit("a!/");
        reveal_strlit("t!/");
        reveal_strlit("i!/");
    }
    let v = chars_of(s);
    if starts_with(s, "basic!") {
        let rest = string_from_range(&v, 6, v.len());
        assert(rest@ == s@.skip(6));
        proof {
            lemma_encode_skip_len(s@, 6);
        }
        let enc = base64_encode(rest.as_str().as_bytes());
        let mut out = owned("Basic ");
        push_str(&mut out, enc.as_str());
        return out;
    }
    if starts_with(s, "bearer!") {
        return prefixed("Bearer ", &v, 7);
    }
    if str_eq(s, "json!") || str_eq(s, "j!") {
        return owned("application/json");
    }
    if str_eq(s, "form!") || str_eq(s, "f!") {
        return owned("application/x-www-form-urlencoded");
    }
    if str_eq(s, "multi!") || str_eq(s, "m!") {
        return owned("multipart/form-data");
    }
    if str_eq(s, "html!") || str_eq(s, "h!") {
        return owned("text/html");
    }
    if str_eq(s, "text!") || str_eq(s, "t!") {
        return owned("text/plain");
    }
    if str_eq(s, "xml!") || str_eq(s, "x!") {
        return owned("application/xml");
    }
    if starts_with(s, "a!/") {
        return prefixed("application/", &v, 3);
    }
    if starts_with(s, "t!/") {
        return prefixed("text/", &v, 3);
    }
    if starts_with(s, "i!/") {
        return prefixed("image/", &v, 3);
    }
    owned(s)
}

/// The header a shortcut key stands for.
pub fn expand_key(key: &str) -> (r: Option<&'static str>)
    ensures
        match r {
            Some(f) => expanded_key(key@) == Some(f@),
            None => expanded_key(key@) is None,
        },
{
    if str_eq(key, "a!") || str_eq(key, "auth!") {
        Some("Authorization")
    } else if str_eq(key, "c!") || str_eq(key, "ct!") {
        Some("Content-Type")
    } else {
        None
    }
}

/// The key renames of a header object, in order: old key, full name, value.
pub open spec fn key_renames(h: ObjV) -> Seq<(Seq<char>, Seq<char>, JsonV)>
    decreases h.len(),
{
    if h.len() == 0 {
        Seq::empty()
    } else {
        let p = key_renames(h.drop_last());
        match expanded_key(h.last().0) {
            Some(full) => p.push((h.last().0, full, h.last().1)),
            None => p,
        }
    }
}

/// Renames applied in order: the old key removed, the full name inserted.
pub open spec fn renamed(h: ObjV, r: Seq<(Seq<char>, Seq<char>, JsonV)>) -> ObjV
    decreases r.len(),
{
    if r.len() == 0 {
        h
    } else {
        let e = r.last();
        obj_insert(obj_remove(renamed(h, r.drop_last()), e.0), e.1, e.2)
    }
}

/// Each string value expanded, in place.
pub open spec fn values_expanded(h: ObjV) -> ObjV {
    h.map_values(|e: (Seq<char>, JsonV)| (e.0, match e.1 {
        JsonV::Str(s) => JsonV::Str(expanded_value(s)),
        v => v,
    }))
}

/// Shortcut keys renamed to their headers, then every string value expanded.
pub open spec fn expanded_headers(h: ObjV) -> ObjV {
    values_expanded(renamed(h, key_renames(h)))
}

/// Every string value can be expanded.
pub open spec fn values_encodable(h: ObjV) -> bool {
    forall|i: int| 0 <= i < h.len() ==> (#[trigger] h[i].1 matches JsonV::Str(s) ==> value_encodable(s))
}

fn renames_of(h: &Vec<(String, Json)>) -> (r: Vec<(String, String, Json)>)
    ensures
        r@.map_values(|e: (String, String, Json)| (e.0@, e.1@, e.2@)) == key_renames(entries_view(h@)),
{
    proof {
        lemma_entries_view(h@);
    }
    let mut out: Vec<(String, String, Json)> = Vec::new();
    let mut i: usize = 0;
    while i < h.len()
        invariant
            i <= h@.len(),
            entries_view(h@).len() == h@.len(),
            forall|j: int| 0 <= j < h@.len() ==> #[trigger] entries_view(h@)[j] == (h@[j].0@, h@[j].1@),
            out@.map_values(|e: (String, String, Json)| (e.0@, e.1@, e.2@)) == key_renames(entries_view(h@).take(i as int)),
        decreases h@.len() - i,
    {
        proof {
            assert(entries_view(h@).take(i + 1).drop_last() == entries_view(h@).take(i as int));
            assert(entries_view(h@).take(i + 1).last() == (h@[i as int].0@, h@[i as int].1@));
        }
        if let Some(full) = expand_key(h[i].0.as_str()) {
            let ghost before = out@.map_values(|e: (String, String, Json)| (e.0@, e.1@, e.2@));
            out.push((h[i].0.clone(), owned(full), h[i].1.copy()));
            assert(out@.map_values(|e: (String, String, Json)| (e.0@, e.1@, e.2@)) =~= before.push((h@[i as int].0@, full@, h@[i as int].1@)));
        }
        i = i + 1;
    }
    assert(entries_view(h@).take(h@.len() as int) == entries_view(h@));
    out
}

/// Expand shortcut keys and values in a headers map.
pub fn expand_headers(headers: &mut Vec<(String, Json)>)
    requires
        values_encodable(entries_view(old(headers)@)),
    ensures
        entries_view(final(headers)@) == expanded_headers(entries_view(old(headers)@)),
{
    let ghost h0 = entries_view(headers@);
    let renames = renames_of(headers);
    let ghost rv = renames@.map_values(|e: (String, String, Json)| (e.0@, e.1@, e.2@));
    let mut i: usize = 0;
    while i < renames.len()
        invariant
            i <= renames@.len(),
            rv == renames@.map_values(|e: (String, String, Json)| (e.0@, e.1@, e.2@)),
            entries_view(headers@) == renamed(h0, rv.take(i as int)),
        decreases renames@.len() - i,
    {
        proof {
            assert(rv.take(i + 1).drop_last() == rv.take(i as int));
            assert(rv.take(i + 1).last() == rv[i as int]);
        }
        obj_take(headers, renames[i].0.as_str());
        obj_put(headers, renames[i].1.clone(), renames[i].2.copy());
        i = i + 1;
    }
    assert(rv.take(renames@.len() as int) == rv);
    proof {
        lemma_key_renames_encodable(h0);
        lemma_renamed_encodable(h0, rv);
    }
    let ghost h1 = entries_view(headers@);
    proof {
        lemma_entries_view(headers@);
    }
    let mut j: usize = 0;
    while j < headers.len()
        invariant
            j <= headers@.len(),
            h1.len() == headers@.len(),
            values_encodable(h1),
            forall|k: int| 0 <= k < headers@.len() ==> #[trigger] entries_view(headers@)[k] == (headers@[k].0@, headers@[k].1@),
            forall|k: int| j <= k < headers@.len() ==> entries_view(headers@)[k] == h1[k],
            forall|k: int| 0 <= k < j ==> entries_view(headers@)[k] == values_expanded(h1)[k],
        decreases headers@.len() - j,
    {
        let expanded = match &headers[j].1 {
            Json::Str(s) => {
                assert(h1[j as int].1 == JsonV::Str(s@));
                Some(expand_value(s.as_str()))
            },
            _ => None,
        };
        if let Some(e) = expanded {
            let k = headers[j].0.clone();
            let ghost before = headers@;
            headers.set(j, (k, Json::Str(e)));
            proof {
                lemma_entries_view(headers@);
                assert forall|m: int| 0 <= m < headers@.len() && m != j implies headers@[m] == before[m] by {}
            }
        }
        j = j + 1;
    }
    proof {
        lemma_entries_view(headers@);
        assert(entries_view(headers@) =~= values_expanded(h1));
    }
}


/// The shortcut keys of an object with string values, as full headers with expanded
/// values, in order; a later key for the same header replaces an earlier one.
pub open spec fn shortcut_extracted(o: ObjV) -> ObjV
    decreases o.len(),
{
    if o.len() == 0 {
        Seq::empty()
    } else {
        let p = shortcut_extracted(o.drop_last());
        match expanded_key(o.last().0) {
            Some(full) => match o.last().1 {
                JsonV::Str(s) => obj_insert(p, full, JsonV::Str(expanded_value(s))),
                _ => p,
            },
            None => p,
        }
    }
}

/// Extract shortcut keys (`a!`, `auth!`, `c!`, `ct!`) from an object as headers.
pub fn extract_shortcut_headers(obj: &Vec<(String, Json)>) -> (r: Vec<(String, Json)>)
    requires
        values_encodable(entries_view(obj@)),
    ensures
        entries_view(r@) == shortcut_extracted(entries_view(obj@)),
{
    proof {
        lemma_entries_view(obj@);
    }
    let mut extra: Vec<(String, Json)> = Vec::new();
    proof {
        lemma_entries_view(extra@);
    }
    let mut i: usize = 0;
    while i < obj.len()
        invariant
            i <= obj@.len(),
            entries_view(obj@).len() == obj@.len(),
            forall|j: int| 0 <= j < obj@.len() ==> #[trigger] entries_view(obj@)[j] == (obj@[j].0@, obj@[j].1@),
            values_encodable(entries_view(obj@)),
            entries_view(extra@) == shortcut_extracted(entries_view(obj@).take(i as int)),
        decreases obj@.len() - i,
    {
        proof {
            assert(entries_view(obj@).take(i + 1).drop_last() == entries_view(obj@).take(i as int));
            assert(entries_view(obj@).take(i + 1).last() == (obj@[i as int].0@, obj@[i as int].1@));
        }
        if let Some(full) = expand_key(obj[i].0.as_str()) {
            if let Json::Str(v) = &obj[i].1 {
                assert(entries_view(obj@)[i as int].1 == JsonV::Str(v@));
                obj_put(&mut extra, owned(full), Json::Str(expand_value(v.as_str())));
            }
        }
        i = i + 1;
    }
    assert(entries_view(obj@).take(obj@.len() as int) == entries_view(obj@));
    extra
}

} // verus!

//! Splitting a stream of input lines into request documents.
use vstd::prelude::*;
use crate::trusted::{yaml_document_text, yaml_to_json};
use crate::text::{chars_of, owned, push_str, str_eq, trim, trim_chars, string_from_chars};

verus! {

/// A complete request document: a JSON line, or the text of a YAML document.
#[derive(Debug)]
pub enum Chunk {
    Json(String),
    Yaml(String),
}

/// Splits input lines into request documents. The first non-blank line decides the
/// format: a line starting with `{` means one JSON document per line, anything else
/// YAML documents separated by `---`.
pub struct StdinReader {
    pub is_yaml: Option<bool>,
    pub buf: String,
    pub done: bool,
}

/// What feeding one line gives: the new format decision and buffer, and the document
/// completed by this line, if any (as `(is_yaml_doc, text)`).
pub open spec fn fed(is_yaml: Option<bool>, buf: Seq<char>, line: Seq<char>) -> (Option<bool>, Seq<char>, Option<(bool, Seq<char>)>) {
    let t = trim(line);
    if t.len() == 0 && is_yaml is None {
        (is_yaml, buf, None)
    } else {
        let y = match is_yaml {
            Some(b) => b,
            None => !(t.len() > 0 && t[0] == '{'),
        };
        if y {
            if t == "---"@ {
                if trim(buf).len() == 0 {
                    (Some(true), buf, None)
                } else {
                    (Some(true), Seq::empty(), Some((true, trim(buf))))
                }
            } else {
                (Some(true), buf + line, None)
            }
        } else if t.len() > 0 {
            (Some(false), buf, Some((false, t)))
        } else {
            (Some(false), buf, None)
        }
    }
}

pub open spec fn chunk_view(c: Option<Chunk>) -> Option<(bool, Seq<char>)> {
    match c {
        Some(Chunk::Json(s)) => Some((false, s@)),
        Some(Chunk::Yaml(s)) => Some((true, s@)),
        None => None,
    }
}

impl StdinReader {
    /// A reader that has seen nothing yet.
    pub fn new() -> (r: StdinReader)
        ensures
            r.is_yaml is None,
            r.buf@ == Seq::<char>::empty(),
            !r.done,
    {
        StdinReader { is_yaml: None, buf: String::new(), done: false }
    }

    fn flush_yaml_buf(&mut self) -> (r: Option<Chunk>)
        ensures
            trim(old(self).buf@).len() == 0 ==> r is None && final(self).buf@ == old(self).buf@,
            trim(old(self).buf@).len() > 0 ==> chunk_view(r) == Some((true, trim(old(self).buf@)))
                && final(self).buf@ == Seq::<char>::empty(),
            final(self).is_yaml == old(self).is_yaml,
            final(self).done == old(self).done,
    {
        let t = trim_chars(&chars_of(self.buf.as_str()));
        if t.len() == 0 {
            return None;
        }
        self.buf = String::new();
        Some(Chunk::Yaml(string_from_chars(&t)))
    }

    /// Take one input line (with its line ending); a document when this line completes
    /// one. After the end of input nothing more is taken.
    pub fn feed(&mut self, line: &str) -> (r: Option<Chunk>)
        ensures
            old(self).done ==> r is None && *final(self) == *old(self),
            !old(self).done ==> {
                let f = fed(old(self).is_yaml, old(self).buf@, line@);
                &&& final(self).is_yaml == f.0
                &&& final(self).buf@ == f.1
                &&& chunk_view(r) == f.2
                &&& !final(self).done
            },
    {
        if self.done {
            return None;
        }
        proof {
            reveal_strlit("---");
        }
        let tv = trim_chars(&chars_of(line));
        if tv.len() == 0 && self.is_yaml.is_none() {
            return None;
        }
        if self.is_yaml.is_none() {
            self.is_yaml = Some(!(tv.len() > 0 && tv[0] == '{'));
        }
        let t = string_from_chars(&tv);
        if self.is_yaml == Some(true) {
            if str_eq(t.as_str(), "---") {
                self.flush_yaml_buf()
            } else {
                push_str(&mut self.buf, line);
                None
            }
        } else if tv.len() > 0 {
            Some(Chunk::Json(t))
        } else {
            None
        }
    }

    /// The end of input (or a read error): the buffered YAML document, if any.
    pub fn finish(&mut self) -> (r: Option<Chunk>)
        ensures
            final(self).done,
            old(self).done ==> r is None,
            !old(self).done && trim(old(self).buf@).len() > 0 ==> chunk_view(r) == Some((true, trim(old(self).buf@))),
            !old(self).done && trim(old(self).buf@).len() == 0 ==> r is None,
    {
        if self.done {
            return None;
        }
        self.done = true;
        self.flush_yaml_buf()
    }
}

/// What a reader hands on for a document `c`: a JSON line as it is, a YAML document
/// converted to JSON text, or an error where the YAML does not parse.
pub open spec fn document_given(c: Option<(bool, Seq<char>)>, r: Option<Result<String, String>>) -> bool {
    match c {
        None => r is None,
        Some((false, s)) => r matches Some(Ok(j)) && j@ == s,
        Some((true, s)) => match r {
            Some(Ok(j)) => yaml_document_text(s) == Some(j@),
            Some(Err(_)) => yaml_document_text(s) is None,
            None => false,
        },
    }
}

impl StdinReader {
    /// Take one input line, as `feed` does, and hand on the document it completes as
    /// request text.
    pub fn feed_document(&mut self, line: &str) -> (r: Option<Result<String, String>>)
        ensures
            old(self).done ==> r is None && *final(self) == *old(self),
            !old(self).done ==> {
                let f = fed(old(self).is_yaml, old(self).buf@, line@);
                &&& final(self).is_yaml == f.0
                &&& final(self).buf@ == f.1
                &&& document_given(f.2, r)
                &&& !final(self).done
            },
    {
        match self.feed(line) {
            Some(c) => Some(chunk_document(c)),
            None => None,
        }
    }

    /// The end of input, as `finish` does, with the last document as request text.
    pub fn finish_document(&mut self) -> (r: Option<Result<String, String>>)
        ensures
            final(self).done,
            old(self).done ==> r is None,
            !old(self).done && trim(old(self).buf@).len() > 0 ==> document_given(Some((true, trim(old(self).buf@))), r),
            !old(self).done && trim(old(self).buf@).len() == 0 ==> r is None,
    {
        match self.finish() {
            Some(c) => Some(chunk_document(c)),
            None => None,
        }
    }
}

/// A YAML document as compact JSON text; an error where it is no YAML.
pub fn yaml_document_json(doc: &str) -> (r: Result<String, String>)
    ensures
        match r {
            Ok(j) => yaml_document_text(doc@) == Some(j@),
            Err(_) => yaml_document_text(doc@) is None,
        },
{
    yaml_to_json(doc)
}

/// The request text of a document: a JSON line as it is, a YAML document as JSON text.
pub fn chunk_document(c: Chunk) -> (r: Result<String, String>)
    ensures
        match chunk_view(Some(c)) {
            Some((false, s)) => r matches Ok(j) && j@ == s,
            Some((true, s)) => match r {
                Ok(j) => yaml_document_text(s) == Some(j@),
                Err(_) => yaml_document_text(s) is None,
            },
            None => false,
        },
{
    match c {
        Chunk::Json(s) => Ok(s),
        Chunk::Yaml(s) => yaml_document_json(s.as_str()),
    }
}

} // verus!

//! The interactive session as a state machine: inputs in, effects out.
//!
//! The shell around it reads lines, runs requests and reads files; the driver decides
//! what each input means: history navigation, pre-filled prompts, multi-line YAML,
//! commands, and which request is in flight.
use vstd::prelude::*;
use crate::config::{Config, ConfigV, summary_text, joined};
use crate::env::Env;
use crate::error::{RequestError, RequestErrorV};
use crate::json::{Json, JsonV};
use crate::request::{
    appended_url, curl_lines, doc_block, doc_flow, expand_request, preview_request_curl,
    preview_request_wire, resolved_request, wire_document,
};
use crate::text::{usize_to_decimal, chars_of, is_prefix, owned, push_str, starts_with, str_eq, string_from_range, trim, trim_chars, string_from_chars, words, split_words};

verus! {

/// The output of a finished request.
#[derive(Debug)]
pub struct OutputResult {
    pub stdout: String,
    pub stderr: String,
}

/// Input events, from the user or the system.
#[derive(Debug)]
pub enum Input {
    /// User typed text and pressed Enter.
    Text(String),
    /// Arrow up: previous history entry.
    Up,
    /// Arrow down: next history entry.
    Down,
    /// Ctrl-C: interrupt or cancel.
    CtrlC,
    /// Ctrl-D: exit.
    CtrlD,
    /// A request completed.
    RequestComplete { id: usize, result: OutputResult },
}

/// Effects for the shell to apply.
#[derive(Debug, PartialEq)]
pub enum Effect {
    /// Send a request.
    Execute { id: usize, line: String },
    /// Cancel the in-flight request.
    Cancel { id: usize },
    /// Response output for stdout.
    Stdout(String),
    /// Response output for stderr.
    Stderr(String),
    /// Pre-fill the next prompt.
    Prefill(String),
    /// A message for the user.
    Print(String),
    /// Record an entry in the line editor's history.
    AddHistory(String),
    /// Leave the session.
    Exit,
    /// Open a file as the source of requests, then report with `source_opened`.
    Open(String),
    /// Take the next request from the source and hand it to `popped`.
    Pop,
    /// Take the remaining requests from the source and hand them to `go`.
    Go,
    /// Parse a configuration document and hand the outcome to `config_loaded`.
    LoadConfig(String),
    /// Expand a request with flags and hand the outcome to `expanded`.
    Expand { flags: String, request: String, input: String },
}

/// The texts the help commands show.
pub struct HelpTexts {
    pub help: String,
    pub expand_help: String,
    pub reference: String,
    pub templates: String,
}

/// The session state.
pub struct Driver {
    pub config: Config,
    pub texts: HelpTexts,
    history: Vec<String>,
    history_cursor: usize,
    has_source: bool,
    prefill: Option<String>,
    yaml_buf: Option<String>,
    request_in_flight: Option<usize>,
    next_request_id: usize,
    last_popped: Option<String>,
}

/// The mathematical content of an `Effect`.
pub enum EffectV {
    Execute { id: usize, line: Seq<char> },
    Cancel { id: usize },
    Stdout(Seq<char>),
    Stderr(Seq<char>),
    Prefill(Seq<char>),
    Print(Seq<char>),
    AddHistory(Seq<char>),
    Exit,
    Open(Seq<char>),
    Pop,
    Go,
    LoadConfig(Seq<char>),
    Expand { flags: Seq<char>, request: Seq<char>, input: Seq<char> },
}

impl View for Effect {
    type V = EffectV;

    open spec fn view(&self) -> EffectV {
        match self {
            Effect::Execute { id, line } => EffectV::Execute { id: *id, line: line@ },
            Effect::Cancel { id } => EffectV::Cancel { id: *id },
            Effect::Stdout(s) => EffectV::Stdout(s@),
            Effect::Stderr(s) => EffectV::Stderr(s@),
            Effect::Prefill(s) => EffectV::Prefill(s@),
            Effect::Print(s) => EffectV::Print(s@),
            Effect::AddHistory(s) => EffectV::AddHistory(s@),
            Effect::Exit => EffectV::Exit,
            Effect::Open(s) => EffectV::Open(s@),
            Effect::Pop => EffectV::Pop,
            Effect::Go => EffectV::Go,
            Effect::LoadConfig(s) => EffectV::LoadConfig(s@),
            Effect::Expand { flags, request, input } => EffectV::Expand {
                flags: flags@,
                request: request@,
                input: input@,
            },
        }
    }
}

pub open spec fn effects_view(e: Seq<Effect>) -> Seq<EffectV> {
    e.map_values(|x: Effect| x@)
}

pub open spec fn opt_text(s: Option<String>) -> Option<Seq<char>> {
    match s {
        Some(x) => Some(x@),
        None => None,
    }
}

/// The mathematical content of the session state.
pub struct DriverV {
    pub history: Seq<Seq<char>>,
    pub cursor: usize,
    pub has_source: bool,
    pub prefill: Option<Seq<char>>,
    pub yaml_buf: Option<Seq<char>>,
    pub in_flight: Option<usize>,
    pub next_id: usize,
    pub last_popped: Option<Seq<char>>,
}

impl View for Driver {
    type V = DriverV;

    closed spec fn view(&self) -> DriverV {
        DriverV {
            history: self.history@.map_values(|s: String| s@),
            cursor: self.history_cursor,
            has_source: self.has_source,
            prefill: opt_text(self.prefill),
            yaml_buf: opt_text(self.yaml_buf),
            in_flight: self.request_in_flight,
            next_id: self.next_request_id,
            last_popped: opt_text(self.last_popped),
        }
    }
}

impl Driver {
    /// The history cursor is within the history.
    pub closed spec fn wf(&self) -> bool {
        self.history_cursor <= self.history@.len()
    }

    /// The help texts, as sequences of characters.
    pub closed spec fn texts_v(&self) -> (Seq<char>, Seq<char>, Seq<char>, Seq<char>) {
        texts_view(self.texts)
    }

    /// The configuration in force.
    pub closed spec fn config_v(&self) -> ConfigV {
        self.config@
    }

    /// Another entry and another request id fit in a `usize`.
    pub closed spec fn has_room(&self) -> bool {
        &&& self.next_request_id < usize::MAX
        &&& self.history@.len() < usize::MAX
    }
}

/// Up: the previous history entry (staying at the first), pre-filled.
pub open spec fn after_up(d: DriverV) -> (DriverV, Seq<EffectV>) {
    if d.history.len() == 0 {
        (d, Seq::empty())
    } else {
        let c = if d.cursor > 0 { (d.cursor - 1) as usize } else { d.cursor };
        let e = d.history[c as int];
        (DriverV { cursor: c, prefill: Some(e), ..d }, seq![EffectV::Prefill(e)])
    }
}

/// Down: the next history entry, pre-filled; past the last, an empty prompt.
pub open spec fn after_down(d: DriverV) -> (DriverV, Seq<EffectV>) {
    if d.cursor >= d.history.len() {
        (d, Seq::empty())
    } else {
        let c = (d.cursor + 1) as usize;
        if c < d.history.len() {
            let e = d.history[c as int];
            (DriverV { cursor: c, prefill: Some(e), ..d }, seq![EffectV::Prefill(e)])
        } else {
            (DriverV { cursor: c, prefill: None, ..d }, seq![EffectV::Prefill(Seq::empty())])
        }
    }
}

/// A request sent: the next id, now in flight.
pub open spec fn after_execute(d: DriverV, line: Seq<char>) -> (DriverV, EffectV) {
    (
        DriverV { in_flight: Some(d.next_id), next_id: (d.next_id + 1) as usize, ..d },
        EffectV::Execute { id: d.next_id, line },
    )
}

/// An entry recorded in the history, with the cursor after it.
pub open spec fn with_history(d: DriverV, entry: Seq<char>) -> DriverV {
    DriverV { history: d.history.push(entry), cursor: (d.history.len() + 1) as usize, ..d }
}

/// A line while multi-line YAML is being gathered: `---`, or a blank line after some
/// text, ends the document and sends it; Ctrl-C or Ctrl-D drops it.
pub open spec fn after_yaml_line(d: DriverV, text: Seq<char>) -> (DriverV, Seq<EffectV>) {
    let buf = match d.yaml_buf {
        Some(b) => b,
        None => Seq::empty(),
    };
    let t = trim(text);
    if t == "---"@ || (t.len() == 0 && trim(buf).len() > 0) {
        let fin = trim(buf);
        let d2 = DriverV { yaml_buf: None, ..d };
        if fin.len() == 0 {
            (d2, Seq::empty())
        } else {
            let (d3, e) = after_execute(d2, fin);
            (d3, seq![e])
        }
    } else {
        (DriverV { yaml_buf: Some(buf + text + seq!['\n']), ..d }, Seq::empty())
    }
}

impl Driver {
    /// A session with no history, no source and nothing in flight.
    pub fn new(config: Config, texts: HelpTexts, has_source: bool) -> (r: Driver)
        ensures
            r.wf(),
            r.has_room(),
            r@.history.len() == 0,
            r@.prefill is None,
            r@.yaml_buf is None,
            r@.in_flight is None,
            r@.next_id == 0,
            r@.has_source == has_source,
            r@.last_popped is None,
    {
        let r = Driver {
            config,
            texts,
            history: Vec::new(),
            history_cursor: 0,
            has_source,
            prefill: None,
            yaml_buf: None,
            request_in_flight: None,
            next_request_id: 0,
            last_popped: None,
        };
        assert(r@.history =~= Seq::<Seq<char>>::empty());
        r
    }

    /// Whether a request is in flight.
    pub fn is_request_in_flight(&self) -> (r: bool)
        ensures
            r == self@.in_flight is Some,
    {
        self.request_in_flight.is_some()
    }

    /// The id of the request in flight.
    pub fn in_flight_id(&self) -> (r: Option<usize>)
        ensures
            r == self@.in_flight,
    {
        self.request_in_flight
    }

    /// The pending pre-fill for the next prompt.
    pub fn pending_prefill(&self) -> (r: Option<&str>)
        ensures
            match r {
                Some(s) => self@.prefill == Some(s@),
                None => self@.prefill is None,
            },
    {
        match &self.prefill {
            Some(s) => Some(s.as_str()),
            None => None,
        }
    }

    /// Whether multi-line YAML is being gathered.
    pub fn in_yaml_mode(&self) -> (r: bool)
        ensures
            r == self@.yaml_buf is Some,
    {
        self.yaml_buf.is_some()
    }

    fn make_execute(&mut self, line: String) -> (e: Effect)
        requires
            old(self).next_request_id < usize::MAX,
        ensures
            (final(self)@, e@) == after_execute(old(self)@, line@),
            final(self).config == old(self).config,
            final(self).texts == old(self).texts,
            final(self).history == old(self).history,
    {
        let id = self.next_request_id;
        self.next_request_id = self.next_request_id + 1;
        self.request_in_flight = Some(id);
        Effect::Execute { id, line }
    }

    fn add_history(&mut self, entry: &str)
        requires
            old(self).history@.len() < usize::MAX,
        ensures
            final(self)@ == with_history(old(self)@, entry@),
            final(self).wf(),
            final(self).config == old(self).config,
            final(self).texts == old(self).texts,
            final(self).next_request_id == old(self).next_request_id,
    {
        let ghost h0 = self@.history;
        self.history.push(owned(entry));
        self.history_cursor = self.history.len();
        assert(self@.history =~= h0.push(entry@));
    }

    fn handle_up(&mut self) -> (r: Vec<Effect>)
        requires
            old(self).wf(),
        ensures
            (final(self)@, effects_view(r@)) == after_up(old(self)@),
            final(self).wf(),
            final(self).config == old(self).config,
            final(self).texts == old(self).texts,
    {
        if self.history.len() == 0 {
            let r: Vec<Effect> = Vec::new();
            assert(effects_view(r@) =~= Seq::<EffectV>::empty());
            return r;
        }
        if self.history_cursor > 0 {
            self.history_cursor = self.history_cursor - 1;
        }
        let entry = self.history[self.history_cursor].clone();
        self.prefill = Some(entry.clone());
        let r = vec![Effect::Prefill(entry)];
        assert(effects_view(r@) =~= seq![EffectV::Prefill(self@.history[self.history_cursor as int])]);
        r
    }

    fn handle_down(&mut self) -> (r: Vec<Effect>)
        requires
            old(self).wf(),
        ensures
            (final(self)@, effects_view(r@)) == after_down(old(self)@),
            final(self).wf(),
            final(self).config == old(self).config,
            final(self).texts == old(self).texts,
    {
        if self.history_cursor >= self.history.len() {
            let r: Vec<Effect> = Vec::new();
            assert(effects_view(r@) =~= Seq::<EffectV>::empty());
            return r;
        }
        self.history_cursor = self.history_cursor + 1;
        if self.history_cursor < self.history.len() {
            let entry = self.history[self.history_cursor].clone();
            self.prefill = Some(entry.clone());
            let r = vec![Effect::Prefill(entry)];
            assert(effects_view(r@) =~= seq![EffectV::Prefill(self@.history[self.history_cursor as int])]);
            r
        } else {
            self.prefill = None;
            let r = vec![Effect::Prefill(String::new())];
            assert(effects_view(r@) =~= seq![EffectV::Prefill(Seq::empty())]);
            r
        }
    }

    fn handle_yaml_line(&mut self, text: String) -> (r: Vec<Effect>)
        requires
            old(self).wf(),
            old(self).has_room(),
            old(self)@.yaml_buf is Some,
        ensures
            (final(self)@, effects_view(r@)) == after_yaml_line(old(self)@, text@),
            final(self).wf(),
            final(self).config == old(self).config,
            final(self).texts == old(self).texts,
    {
        proof {
            reveal_strlit("---");
        }
        let tv = trim_chars(&chars_of(text.as_str()));
        let t = string_from_chars(&tv);
        let buf = match self.yaml_buf.take() {
            Some(b) => b,
            None => String::new(),
        };
        let bv = trim_chars(&chars_of(buf.as_str()));
        if str_eq(t.as_str(), "---") || (tv.len() == 0 && bv.len() > 0) {
            let fin = string_from_chars(&bv);
            if bv.len() == 0 {
                let r: Vec<Effect> = Vec::new();
                assert(effects_view(r@) =~= Seq::<EffectV>::empty());
                return r;
            }
            let e = self.make_execute(fin);
            let r = vec![e];
            assert(effects_view(r@) =~= seq![e@]);
            r
        } else {
            let mut b = buf;
            let ghost b0 = b@;
            push_str(&mut b, text.as_str());
            b.push('\n');
            assert(b@ =~= b0 + text@ + seq!['\n']);
            self.yaml_buf = Some(b);
            let r: Vec<Effect> = Vec::new();
            assert(effects_view(r@) =~= Seq::<EffectV>::empty());
            r
        }
    }
}


/// Flags and request after `.x `: a first word of at most five ASCII letters, not
/// starting with `{` and followed by a space, is the flags; otherwise there are none.
pub open spec fn flags_and_request(rest: Seq<char>) -> (Seq<char>, Seq<char>) {
    match crate::text::char_index(rest, ' ') {
        Some(pos) => {
            let f = rest.take(pos);
            if f.len() > 0 && f.len() <= 5 && f[0] != '{' && forall|i: int| 0 <= i < f.len() ==> is_ascii_letter(#[trigger] f[i]) {
                (f, trim(rest.skip(pos)))
            } else {
                (Seq::empty(), rest)
            }
        },
        None => (Seq::empty(), rest),
    }
}

pub open spec fn is_ascii_letter(c: char) -> bool {
    ('a' <= c && c <= 'z') || ('A' <= c && c <= 'Z')
}

/// `.x [flags] request`: nothing when the request is empty, else an expansion to run.
pub open spec fn expand_effects(input: Seq<char>) -> Seq<EffectV> {
    let rest = trim(input.skip(3));
    if rest.len() == 0 {
        Seq::empty()
    } else {
        let (f, req) = flags_and_request(rest);
        if req.len() == 0 {
            Seq::empty()
        } else {
            seq![EffectV::Expand { flags: f, request: req, input }]
        }
    }
}

pub open spec fn no_more_message() -> Seq<char> {
    "  no more requests"@
}

/// What a command line does: help texts, the source commands, configuration,
/// expansion, an unknown command, or a request to send.
pub open spec fn dispatched(d: DriverV, t: Seq<char>, texts: (Seq<char>, Seq<char>, Seq<char>, Seq<char>), summary: Seq<char>) -> (DriverV, Seq<EffectV>) {
    if t == ".help"@ || t == ".h"@ {
        (d, seq![EffectV::Print(texts.0)])
    } else if t == ".help x"@ || t == ".h x"@ {
        (d, seq![EffectV::Print(texts.1)])
    } else if t == ".ref"@ || t == ".r"@ {
        (d, seq![EffectV::Print(texts.2)])
    } else if t == ".t"@ {
        (d, seq![EffectV::Print(texts.3)])
    } else if t == ".pop"@ || t == ".p"@ {
        (d, if d.has_source { seq![EffectV::Pop] } else { seq![EffectV::Print(no_more_message())] })
    } else if t == ".repop"@ {
        match d.last_popped {
            Some(req) => (DriverV { prefill: Some(req), ..d }, seq![EffectV::Prefill(req)]),
            None => (d, seq![EffectV::Print("  nothing to repop"@)]),
        }
    } else if t == ".c"@ {
        (d, seq![EffectV::Print("  config: "@ + summary)])
    } else if is_prefix(".c "@, t) {
        let cfg = trim(t.skip(3));
        if cfg.len() == 0 {
            (d, seq![EffectV::Print("  config: "@ + summary)])
        } else {
            (d, seq![EffectV::LoadConfig(cfg)])
        }
    } else if t == ".open"@ {
        (d, seq![EffectV::Print(if d.has_source { "  source already loaded — use .pop or .go"@ } else { "  usage: .open file.yaml"@ })])
    } else if is_prefix(".open "@, t) {
        (d, seq![EffectV::Open(trim(t.skip(6)))])
    } else if is_prefix(".x "@, t) {
        (d, expand_effects(t))
    } else if t == ".go"@ || t == ".g"@ {
        (d, if d.has_source { seq![EffectV::Go] } else { seq![EffectV::Print(no_more_message())] })
    } else if is_prefix("."@, t) {
        let cmd = if words(t).len() > 0 { words(t)[0] } else { t };
        (d, seq![EffectV::Print("  unknown command: "@ + cmd + " (try .help)"@)])
    } else {
        let (d2, e) = after_execute(d, t);
        (d2, seq![e])
    }
}

/// A line typed at the prompt (trimmed `t`, as typed `raw`): text that starts neither
/// with `.` nor with `{` begins a multi-line YAML request; anything else is recorded in
/// the history and dispatched.
pub open spec fn after_command(d: DriverV, t: Seq<char>, raw: Seq<char>, texts: (Seq<char>, Seq<char>, Seq<char>, Seq<char>), summary: Seq<char>) -> (DriverV, Seq<EffectV>) {
    let d1 = with_history(d, raw);
    if !is_prefix("."@, t) && !is_prefix("{"@, t) {
        (DriverV { yaml_buf: Some(raw + seq!['\n']), ..d1 }, seq![EffectV::AddHistory(raw)])
    } else {
        let (d2, e) = dispatched(d1, t, texts, summary);
        (d2, seq![EffectV::AddHistory(raw)] + e)
    }
}

/// An edited pre-filled line: `.x ...` expands it; anything else is recorded and sent.
pub open spec fn after_prefill_edit(d: DriverV, t: Seq<char>) -> (DriverV, Seq<EffectV>) {
    if is_prefix(".x "@, t) {
        (d, expand_effects(t))
    } else {
        let d1 = with_history(d, t);
        let (d2, e) = after_execute(d1, t);
        (d2, seq![EffectV::AddHistory(t), e])
    }
}

/// The effect of one input on the session.
pub open spec fn after_input(d: DriverV, input: InputV, texts: (Seq<char>, Seq<char>, Seq<char>, Seq<char>), summary: Seq<char>) -> (DriverV, Seq<EffectV>) {
    match input {
        InputV::RequestComplete { id, stdout, stderr } => if d.in_flight == Some(id) {
            (
                DriverV { in_flight: None, ..d },
                (if stdout.len() > 0 { seq![EffectV::Stdout(stdout)] } else { Seq::empty() }) + (if stderr.len() > 0 {
                    seq![EffectV::Stderr(stderr)]
                } else {
                    Seq::empty()
                }),
            )
        } else {
            (d, Seq::empty())
        },
        InputV::CtrlC if d.in_flight is Some => (DriverV { in_flight: None, ..d }, seq![EffectV::Cancel { id: d.in_flight->Some_0 }]),
        _ => if d.yaml_buf is Some {
            match input {
                InputV::Text(text) => after_yaml_line(d, text),
                InputV::CtrlC | InputV::CtrlD => (DriverV { yaml_buf: None, ..d }, Seq::empty()),
                _ => (d, Seq::empty()),
            }
        } else {
            match input {
                InputV::CtrlD => (d, seq![EffectV::Exit]),
                InputV::CtrlC => if d.prefill is Some {
                    (DriverV { prefill: None, ..d }, Seq::empty())
                } else {
                    (d, seq![EffectV::Print("  (press Ctrl-D to exit)"@)])
                },
                InputV::Up => after_up(d),
                InputV::Down => after_down(d),
                InputV::Text(text) => {
                    let t = trim(text);
                    if t.len() == 0 {
                        (d, Seq::empty())
                    } else if d.prefill is Some {
                        after_prefill_edit(DriverV { prefill: None, cursor: d.history.len() as usize, ..d }, t)
                    } else {
                        after_command(DriverV { cursor: d.history.len() as usize, ..d }, t, text, texts, summary)
                    }
                },
                _ => (d, Seq::empty()),
            }
        },
    }
}

pub open spec fn result_view(x: Result<String, String>) -> Result<Seq<char>, Seq<char>> {
    match x {
        Ok(s) => Ok(s@),
        Err(e) => Err(e@),
    }
}

pub open spec fn item_view(x: Option<Result<String, String>>) -> Option<Result<Seq<char>, Seq<char>>> {
    match x {
        Some(r) => Some(result_view(r)),
        None => None,
    }
}

/// `.pop`: the next request pre-filled and kept, the source's error shown, or nothing left.
pub open spec fn after_pop(d: DriverV, item: Option<Result<Seq<char>, Seq<char>>>) -> (DriverV, Seq<EffectV>) {
    match item {
        Some(Ok(req)) => (DriverV { last_popped: Some(req), prefill: Some(req), ..d }, seq![EffectV::Prefill(req)]),
        Some(Err(msg)) => (d, seq![EffectV::Print(msg)]),
        None => (d, seq![EffectV::Print(no_more_message())]),
    }
}

/// The effects of sending `items` in order with ids from `next`, stopping after the
/// first error, and how many were sent.
pub open spec fn go_steps(next: usize, items: Seq<Result<Seq<char>, Seq<char>>>) -> (Seq<EffectV>, nat)
    decreases items.len(),
{
    if items.len() == 0 {
        (Seq::empty(), 0)
    } else {
        match items[0] {
            Ok(req) => {
                let (e, c) = go_steps((next + 1) as usize, items.drop_first());
                (seq![EffectV::Execute { id: next, line: req }] + e, c + 1)
            },
            Err(msg) => (seq![EffectV::Print(msg)], 0),
        }
    }
}

/// `.go`: everything the source holds, sent; then a count, or a note that nothing was left.
pub open spec fn after_go(d: DriverV, items: Seq<Result<Seq<char>, Seq<char>>>) -> (DriverV, Seq<EffectV>) {
    let (e, c) = go_steps(d.next_id, items);
    let d2 = if c > 0 {
        DriverV { next_id: (d.next_id + c) as usize, in_flight: Some((d.next_id + c - 1) as usize), ..d }
    } else {
        d
    };
    let tail = if c > 0 {
        seq![EffectV::Print("  "@ + crate::text::decimal(c) + " requests executed"@)]
    } else if e.len() == 0 {
        seq![EffectV::Print(no_more_message())]
    } else {
        Seq::empty()
    };
    (d2, e + tail)
}

/// `.x`: an editable expansion is pre-filled, another shown; an error is shown and the
/// typed line pre-filled again.
pub open spec fn after_expand(d: DriverV, outcome: Result<(Seq<char>, bool), Seq<char>>, input: Seq<char>) -> (DriverV, Seq<EffectV>) {
    match outcome {
        Ok((out, editable)) => if editable {
            (DriverV { prefill: Some(out), ..d }, seq![EffectV::Prefill(out)])
        } else {
            (d, seq![EffectV::Print(out)])
        },
        Err(msg) => (DriverV { prefill: Some(input), ..d }, seq![EffectV::Print(msg), EffectV::Prefill(input)]),
    }
}

/// How `.x` renders an expansion: merged with the configuration (`m`), vertical (`v`;
/// `h`, horizontal, is the default), JSON (`j`), curl (`c`), short header names (`s`).
#[derive(Debug, Clone, Copy, PartialEq, Eq, Structural)]
pub struct ExpandFlags {
    pub merged: bool,
    pub vertical: bool,
    pub json: bool,
    pub curl: bool,
    pub short: bool,
}

pub open spec fn is_flag_char(c: char) -> bool {
    c == 'm' || c == 'v' || c == 'h' || c == 'j' || c == 'c' || c == 's'
}

/// The flags a word names, or the message for a word with a letter that is no flag.
pub open spec fn flags_parsed(s: Seq<char>) -> Result<ExpandFlags, Seq<char>> {
    if forall|i: int| 0 <= i < s.len() ==> is_flag_char(#[trigger] s[i]) {
        Ok(ExpandFlags {
            merged: s.contains('m'),
            vertical: s.contains('v'),
            json: s.contains('j'),
            curl: s.contains('c'),
            short: s.contains('s'),
        })
    } else {
        Err("unknown flags: "@ + s + " (try .help x)"@)
    }
}

proof fn lemma_push_contains(s: Seq<char>, c: char, x: char)
    ensures
        s.push(c).contains(x) == (s.contains(x) || c == x),
{
    if s.contains(x) {
        let j = choose|j: int| 0 <= j < s.len() && s[j] == x;
        assert(s.push(c)[j] == x);
    }
    if c == x {
        assert(s.push(c)[s.len() as int] == x);
    }
    if s.push(c).contains(x) {
        let j = choose|j: int| 0 <= j < s.push(c).len() && s.push(c)[j] == x;
        if j < s.len() {
            assert(s[j] == s.push(c)[j]);
        }
    }
}

impl ExpandFlags {
    /// No flags: unmerged horizontal YAML.
    pub fn none() -> (r: ExpandFlags)
        ensures
            r == flags_parsed(Seq::empty())->Ok_0,
    {
        ExpandFlags { merged: false, vertical: false, json: false, curl: false, short: false }
    }

    /// Read a flag word such as `mv`.
    pub fn parse(s: &str) -> (r: Result<ExpandFlags, String>)
        ensures
            match r {
                Ok(f) => flags_parsed(s@) == Ok::<ExpandFlags, Seq<char>>(f),
                Err(m) => flags_parsed(s@) == Err::<ExpandFlags, Seq<char>>(m@),
            },
    {
        let v = chars_of(s);
        let mut f = ExpandFlags::none();
        let mut i: usize = 0;
        while i < v.len()
            invariant
                i <= v@.len(),
                v@ == s@,
                forall|k: int| 0 <= k < i ==> is_flag_char(#[trigger] v@[k]),
                f.merged == v@.take(i as int).contains('m'),
                f.vertical == v@.take(i as int).contains('v'),
                f.json == v@.take(i as int).contains('j'),
                f.curl == v@.take(i as int).contains('c'),
                f.short == v@.take(i as int).contains('s'),
            decreases v@.len() - i,
        {
            let c = v[i];
            proof {
                assert(v@.take(i + 1) =~= v@.take(i as int).push(c));
                lemma_push_contains(v@.take(i as int), c, 'm');
                lemma_push_contains(v@.take(i as int), c, 'v');
                lemma_push_contains(v@.take(i as int), c, 'j');
                lemma_push_contains(v@.take(i as int), c, 'c');
                lemma_push_contains(v@.take(i as int), c, 's');
            }
            if !(c == 'm' || c == 'v' || c == 'h' || c == 'j' || c == 'c' || c == 's') {
                let m = concat(concat("unknown flags: ", s).as_str(), " (try .help x)");
                assert(!is_flag_char(s@[i as int]));
                assert(!(forall|k: int| 0 <= k < s@.len() ==> is_flag_char(#[trigger] s@[k])));
                return Err(m);
            }
            if c == 'm' {
                f.merged = true;
            }
            if c == 'v' {
                f.vertical = true;
            }
            if c == 'j' {
                f.json = true;
            }
            if c == 'c' {
                f.curl = true;
            }
            if c == 's' {
                f.short = true;
            }
            i = i + 1;
        }
        assert(v@.take(v@.len() as int) =~= v@);
        assert(forall|k: int| 0 <= k < s@.len() ==> is_flag_char(#[trigger] s@[k]));
        assert(flags_parsed(s@) is Ok);
        assert(f == flags_parsed(s@)->Ok_0);
        Ok(f)
    }

    /// Whether the expansion goes to the prompt for editing: horizontal, not curl.
    pub fn is_editable(&self) -> (r: bool)
        ensures
            r == (!self.vertical && !self.curl),
    {
        !self.vertical && !self.curl
    }
}

/// The mathematical content of an `Input`.
pub enum InputV {
    Text(Seq<char>),
    Up,
    Down,
    CtrlC,
    CtrlD,
    RequestComplete { id: usize, stdout: Seq<char>, stderr: Seq<char> },
}

impl View for Input {
    type V = InputV;

    open spec fn view(&self) -> InputV {
        match self {
            Input::Text(t) => InputV::Text(t@),
            Input::Up => InputV::Up,
            Input::Down => InputV::Down,
            Input::CtrlC => InputV::CtrlC,
            Input::CtrlD => InputV::CtrlD,
            Input::RequestComplete { id, result } => InputV::RequestComplete {
                id: *id,
                stdout: result.stdout@,
                stderr: result.stderr@,
            },
        }
    }
}

pub open spec fn texts_view(t: HelpTexts) -> (Seq<char>, Seq<char>, Seq<char>, Seq<char>) {
    (t.help@, t.expand_help@, t.reference@, t.templates@)
}

fn ascii_letter(c: char) -> (r: bool)
    ensures
        r == is_ascii_letter(c),
{
    ('a' <= c && c <= 'z') || ('A' <= c && c <= 'Z')
}

/// Split the text after `.x ` into flags and request.
pub fn parse_flags_and_req(rest: &str) -> (r: (String, String))
    ensures
        (r.0@, r.1@) == flags_and_request(rest@),
{
    let v = chars_of(rest);
    if let Some(pos) = crate::text::char_pos(&v, ' ') {
        let shape = pos > 0 && pos <= 5 && v[0] != '{';
        let mut ok = shape;
        let mut i: usize = 0;
        while shape && ok && i < pos
            invariant
                pos < v@.len(),
                i <= pos,
                !shape ==> !ok,
                shape ==> (ok <==> forall|j: int| 0 <= j < i ==> is_ascii_letter(#[trigger] v@[j])),
            decreases pos - i,
        {
            if !ascii_letter(v[i]) {
                ok = false;
            }
            i = i + 1;
        }
        let ghost f = rest@.take(pos as int);
        proof {
            if shape && !ok {
                let j = choose|j: int| 0 <= j < i && !is_ascii_letter(#[trigger] v@[j]);
                assert(f[j] == v@[j]);
            }
            if ok {
                assert forall|j: int| 0 <= j < f.len() implies is_ascii_letter(#[trigger] f[j]) by {
                    assert(f[j] == v@[j]);
                }
            }
        }
        if ok {
            let flags = string_from_range(&v, 0, pos);
            let tail = string_from_range(&v, pos, v.len());
            let req = string_from_chars(&trim_chars(&chars_of(tail.as_str())));
            assert(flags@ == f);
            assert(tail@ == rest@.skip(pos as int));
            return (flags, req);
        }
    }
    (String::new(), owned(rest))
}


/// `a` followed by `b`, as a new string.
fn concat(a: &str, b: &str) -> (r: String)
    ensures
        r@ == a@ + b@,
{
    let mut r = owned(a);
    push_str(&mut r, b);
    r
}

fn one(e: Effect) -> (r: Vec<Effect>)
    ensures
        effects_view(r@) == seq![e@],
{
    let r = vec![e];
    assert(effects_view(r@) =~= seq![e@]);
    r
}

fn none() -> (r: Vec<Effect>)
    ensures
        effects_view(r@) == Seq::<EffectV>::empty(),
{
    let r: Vec<Effect> = Vec::new();
    assert(effects_view(r@) =~= Seq::<EffectV>::empty());
    r
}

fn print_of(s: &str) -> (r: Vec<Effect>)
    ensures
        effects_view(r@) == seq![EffectV::Print(s@)],
{
    one(Effect::Print(owned(s)))
}

/// The expansion that `.x ...` asks for.
fn expand_command(t: &str) -> (r: Vec<Effect>)
    requires
        is_prefix(".x "@, t@),
    ensures
        effects_view(r@) == expand_effects(t@),
{
    proof {
        reveal_strlit(".x ");
    }
    let v = chars_of(t);
    let tail = string_from_range(&v, 3, v.len());
    assert(tail@ == t@.skip(3));
    let rest = string_from_chars(&trim_chars(&chars_of(tail.as_str())));
    if rest.as_str().is_empty() {
        return none();
    }
    let (f, req) = parse_flags_and_req(rest.as_str());
    if req.as_str().is_empty() {
        return none();
    }
    one(Effect::Expand { flags: f, request: req, input: owned(t) })
}

impl Driver {
    /// Whether another input can be handled: the request ids and the history have room.
    pub fn room(&self) -> (r: bool)
        ensures
            r == self.has_room(),
    {
        self.next_request_id < usize::MAX && self.history.len() < usize::MAX
    }

    /// Whether `n` more requests can be given ids.
    pub fn can_go(&self, n: usize) -> (r: bool)
        ensures
            r == (self@.next_id + n < usize::MAX),
    {
        self.next_request_id < usize::MAX && n < usize::MAX - self.next_request_id
    }

    fn dispatch_command(&mut self, t: &str) -> (r: Vec<Effect>)
        requires
            old(self).wf(),
            old(self).next_request_id < usize::MAX,
        ensures
            (final(self)@, effects_view(r@)) == dispatched(
                old(self)@,
                t@,
                texts_view(old(self).texts),
                summary_text(old(self).config@),
            ),
            final(self).wf(),
            final(self).config == old(self).config,
            final(self).texts == old(self).texts,
            final(self).history == old(self).history,
    {
        proof {
            reveal_strlit(".c ");
            reveal_strlit(".open ");
        }
        if str_eq(t, ".help") || str_eq(t, ".h") {
            return one(Effect::Print(self.texts.help.clone()));
        }
        if str_eq(t, ".help x") || str_eq(t, ".h x") {
            return one(Effect::Print(self.texts.expand_help.clone()));
        }
        if str_eq(t, ".ref") || str_eq(t, ".r") {
            return one(Effect::Print(self.texts.reference.clone()));
        }
        if str_eq(t, ".t") {
            return one(Effect::Print(self.texts.templates.clone()));
        }
        if str_eq(t, ".pop") || str_eq(t, ".p") {
            if self.has_source {
                return one(Effect::Pop);
            }
            return print_of("  no more requests");
        }
        if str_eq(t, ".repop") {
            match &self.last_popped {
                Some(req) => {
                    let req = req.clone();
                    self.prefill = Some(req.clone());
                    return one(Effect::Prefill(req));
                },
                None => {
                    return print_of("  nothing to repop");
                },
            }
        }
        if str_eq(t, ".c") {
            let s = self.config.summary();
            return one(Effect::Print(concat("  config: ", s.as_str())));
        }
        if starts_with(t, ".c ") {
            let v = chars_of(t);
            let tail = string_from_range(&v, 3, v.len());
            assert(tail@ == t@.skip(3));
            let cfg = string_from_chars(&trim_chars(&chars_of(tail.as_str())));
            if cfg.as_str().is_empty() {
                let s = self.config.summary();
                return one(Effect::Print(concat("  config: ", s.as_str())));
            }
            return one(Effect::LoadConfig(cfg));
        }
        if str_eq(t, ".open") {
            if self.has_source {
                return print_of("  source already loaded — use .pop or .go");
            }
            return print_of("  usage: .open file.yaml");
        }
        if starts_with(t, ".open ") {
            let v = chars_of(t);
            let tail = string_from_range(&v, 6, v.len());
            assert(tail@ == t@.skip(6));
            let path = string_from_chars(&trim_chars(&chars_of(tail.as_str())));
            return one(Effect::Open(path));
        }
        if starts_with(t, ".x ") {
            return expand_command(t);
        }
        if str_eq(t, ".go") || str_eq(t, ".g") {
            if self.has_source {
                return one(Effect::Go);
            }
            return print_of("  no more requests");
        }
        if starts_with(t, ".") {
            let ws = split_words(&chars_of(t));
            let cmd = if ws.len() > 0 {
                string_from_chars(&ws[0])
            } else {
                owned(t)
            };
            let m = concat(concat("  unknown command: ", cmd.as_str()).as_str(), " (try .help)");
            return one(Effect::Print(m));
        }
        let e = self.make_execute(owned(t));
        one(e)
    }

    fn handle_command(&mut self, t: &str, raw: &str) -> (r: Vec<Effect>)
        requires
            old(self).wf(),
            old(self).has_room(),
        ensures
            (final(self)@, effects_view(r@)) == after_command(
                old(self)@,
                t@,
                raw@,
                texts_view(old(self).texts),
                summary_text(old(self).config@),
            ),
            final(self).wf(),
            final(self).config == old(self).config,
            final(self).texts == old(self).texts,
    {
        let ghost d0 = self@;
        if !starts_with(t, ".") && !starts_with(t, "{") {
            self.add_history(raw);
            let mut buf = owned(raw);
            buf.push('\n');
            assert(buf@ =~= raw@ + seq!['\n']);
            self.yaml_buf = Some(buf);
            assert(self@ == DriverV { yaml_buf: Some(raw@ + seq!['\n']), ..with_history(d0, raw@) });
            return one(Effect::AddHistory(owned(raw)));
        }
        self.add_history(raw);
        let first = Effect::AddHistory(owned(raw));
        let ghost fv = first@;
        let mut r = self.dispatch_command(t);
        let ghost rest = effects_view(r@);
        r.insert(0, first);
        assert(effects_view(r@) =~= seq![fv] + rest);
        r
    }

    fn handle_prefill_edit(&mut self, t: &str) -> (r: Vec<Effect>)
        requires
            old(self).wf(),
            old(self).has_room(),
        ensures
            (final(self)@, effects_view(r@)) == after_prefill_edit(old(self)@, t@),
            final(self).wf(),
            final(self).config == old(self).config,
            final(self).texts == old(self).texts,
    {
        if starts_with(t, ".x ") {
            return expand_command(t);
        }
        self.add_history(t);
        let a = Effect::AddHistory(owned(t));
        let e = self.make_execute(owned(t));
        let r = vec![a, e];
        assert(effects_view(r@) =~= seq![r@[0]@, r@[1]@]);
        r
    }

    fn handle_request_complete(&mut self, id: usize, result: OutputResult) -> (r: Vec<Effect>)
        requires
            old(self).wf(),
        ensures
            (final(self)@, effects_view(r@)) == after_input(
                old(self)@,
                InputV::RequestComplete { id, stdout: result.stdout@, stderr: result.stderr@ },
                texts_view(old(self).texts),
                summary_text(old(self).config@),
            ),
            final(self).wf(),
            final(self).config == old(self).config,
            final(self).texts == old(self).texts,
    {
        if self.request_in_flight != Some(id) {
            return none();
        }
        self.request_in_flight = None;
        let mut r: Vec<Effect> = Vec::new();
        let ghost out = result.stdout@;
        let ghost err = result.stderr@;
        if !result.stdout.as_str().is_empty() {
            r.push(Effect::Stdout(result.stdout));
        }
        let ghost mid = effects_view(r@);
        if !result.stderr.as_str().is_empty() {
            r.push(Effect::Stderr(result.stderr));
        }
        assert(mid =~= (if out.len() > 0 { seq![EffectV::Stdout(out)] } else { Seq::empty() }));
        assert(effects_view(r@) =~= mid + (if err.len() > 0 { seq![EffectV::Stderr(err)] } else { Seq::empty() }));
        r
    }

    /// Handle one input: history navigation, pre-filled prompts, multi-line YAML,
    /// commands, requests, completions and interrupts.
    pub fn handle_input(&mut self, input: Input) -> (r: Vec<Effect>)
        requires
            old(self).wf(),
            old(self).has_room(),
        ensures
            (final(self)@, effects_view(r@)) == after_input(
                old(self)@,
                input@,
                old(self).texts_v(),
                summary_text(old(self).config_v()),
            ),
            final(self).wf(),
            final(self).config_v() == old(self).config_v(),
            final(self).texts_v() == old(self).texts_v(),
    {
        match input {
            Input::RequestComplete { id, result } => self.handle_request_complete(id, result),
            Input::CtrlC if self.request_in_flight.is_some() => {
                let id = self.request_in_flight.unwrap();
                self.request_in_flight = None;
                one(Effect::Cancel { id })
            },
            other => {
                if self.yaml_buf.is_some() {
                    match other {
                        Input::Text(text) => self.handle_yaml_line(text),
                        Input::CtrlC | Input::CtrlD => {
                            self.yaml_buf = None;
                            none()
                        },
                        _ => none(),
                    }
                } else {
                    match other {
                        Input::CtrlD => one(Effect::Exit),
                        Input::CtrlC => {
                            if self.prefill.is_some() {
                                self.prefill = None;
                                none()
                            } else {
                                print_of("  (press Ctrl-D to exit)")
                            }
                        },
                        Input::Up => self.handle_up(),
                        Input::Down => self.handle_down(),
                        Input::Text(text) => {
                            let tv = trim_chars(&chars_of(text.as_str()));
                            if tv.len() == 0 {
                                return none();
                            }
                            let t = string_from_chars(&tv);
                            self.history_cursor = self.history.len();
                            if self.prefill.is_some() {
                                self.prefill = None;
                                self.handle_prefill_edit(t.as_str())
                            } else {
                                self.handle_command(t.as_str(), text.as_str())
                            }
                        },
                        _ => none(),
                    }
                }
            },
        }
    }

    /// The outcome of `Pop`: the next request pre-filled (and kept for `.repop`), the
    /// source's error message, or `None` when the source is exhausted.
    pub fn popped(&mut self, item: Option<Result<String, String>>) -> (r: Vec<Effect>)
        requires
            old(self).wf(),
        ensures
            (final(self)@, effects_view(r@)) == after_pop(old(self)@, item_view(item)),
            final(self).wf(),
            final(self).config_v() == old(self).config_v(),
            final(self).texts_v() == old(self).texts_v(),
    {
        match item {
            Some(Ok(req)) => {
                self.last_popped = Some(req.clone());
                self.prefill = Some(req.clone());
                one(Effect::Prefill(req))
            },
            Some(Err(msg)) => one(Effect::Print(msg)),
            None => print_of("  no more requests"),
        }
    }

    /// The outcome of `Go`: each request, in order, sent with the next id, up to the
    /// first error, whose message is shown; then how many were sent.
    pub fn go(&mut self, items: Vec<Result<String, String>>) -> (r: Vec<Effect>)
        requires
            old(self).wf(),
            old(self)@.next_id + items@.len() < usize::MAX,
        ensures
            (final(self)@, effects_view(r@)) == after_go(old(self)@, items@.map_values(|x: Result<String, String>| result_view(x))),
            final(self).wf(),
            final(self).config_v() == old(self).config_v(),
            final(self).texts_v() == old(self).texts_v(),
    {
        let ghost d0 = self@;
        let ghost c0 = self.config_v();
        let ghost t0 = self.texts_v();
        let ghost all = items@.map_values(|x: Result<String, String>| result_view(x));
        let mut r: Vec<Effect> = Vec::new();
        let mut count: usize = 0;
        let mut i: usize = 0;
        let mut failed = false;
        let n = items.len();
        assert(all.skip(0) =~= all);
        while i < n && !failed
            invariant
                n == all.len(),
                i <= n,
                items@.len() == n,
                all == items@.map_values(|x: Result<String, String>| result_view(x)),
                d0.next_id + n < usize::MAX,
                count <= i,
                self.wf(),
                self.config_v() == c0,
                self.texts_v() == t0,
                self@ == (if count > 0 {
                    DriverV { next_id: (d0.next_id + count) as usize, in_flight: Some((d0.next_id + count - 1) as usize), ..d0 }
                } else {
                    d0
                }),
                !failed ==> count == i,
                !failed ==> go_steps(d0.next_id, all).0 == effects_view(r@) + go_steps(
                    (d0.next_id + count) as usize,
                    all.skip(i as int),
                ).0,
                !failed ==> go_steps(d0.next_id, all).1 == count + go_steps(
                    (d0.next_id + count) as usize,
                    all.skip(i as int),
                ).1,
                failed ==> go_steps(d0.next_id, all) == (effects_view(r@), count as nat),
            decreases n - i,
        {
            let it = match &items[i] {
                Ok(req) => Ok(req.clone()),
                Err(msg) => Err(msg.clone()),
            };
            proof {
                assert(result_view(it) == all[i as int]);
                assert(all.skip(i as int).drop_first() =~= all.skip(i + 1));
                assert(all.skip(i as int)[0] == all[i as int]);
            }
            let ghost before = effects_view(r@);
            match it {
                Ok(req) => {
                    let id = self.next_request_id;
                    self.next_request_id = self.next_request_id + 1;
                    self.request_in_flight = Some(id);
                    r.push(Effect::Execute { id, line: req });
                    assert(effects_view(r@) =~= before.push(EffectV::Execute { id, line: all[i as int]->Ok_0 }));
                    count = count + 1;
                },
                Err(msg) => {
                    r.push(Effect::Print(msg));
                    assert(effects_view(r@) =~= before.push(EffectV::Print(all[i as int]->Err_0)));
                    failed = true;
                },
            }
            i = i + 1;
        }
        proof {
            if !failed {
                assert(all.skip(n as int) =~= Seq::<Result<Seq<char>, Seq<char>>>::empty());
            }
        }
        let ghost body = effects_view(r@);
        assert(go_steps(d0.next_id, all) == (body, count as nat));
        if count > 0 {
            let m = concat(concat("  ", usize_to_decimal(count).as_str()).as_str(), " requests executed");
            r.push(Effect::Print(m));
            assert(effects_view(r@) =~= body + seq![EffectV::Print(m@)]);
        } else if r.len() == 0 {
            r.push(Effect::Print(owned("  no more requests")));
            assert(effects_view(r@) =~= body + seq![EffectV::Print(no_more_message())]);
        } else {
            assert(effects_view(r@) =~= body + Seq::<EffectV>::empty());
        }
        r
    }

    /// A file opened as the source of requests.
    pub fn source_opened(&mut self, path: &str) -> (r: Vec<Effect>)
        requires
            old(self).wf(),
        ensures
            final(self)@ == (DriverV { has_source: true, ..old(self)@ }),
            effects_view(r@) == seq![EffectV::Print("  opened "@ + path@)],
            final(self).wf(),
            final(self).config_v() == old(self).config_v(),
            final(self).texts_v() == old(self).texts_v(),
    {
        self.has_source = true;
        one(Effect::Print(concat("  opened ", path)))
    }

    /// A file that could not be opened: the error and the path, state unchanged.
    pub fn source_failed(&self, path: &str, err: &str) -> (r: Vec<Effect>)
        ensures
            effects_view(r@) == seq![EffectV::Print("  error: "@ + err@ + ": "@ + path@)],
    {
        let m = concat(concat(concat("  error: ", err).as_str(), ": ").as_str(), path);
        one(Effect::Print(m))
    }

    /// The outcome of `LoadConfig`: the new configuration and its summary, or the error.
    pub fn config_loaded(&mut self, loaded: Result<Config, String>) -> (r: Vec<Effect>)
        requires
            old(self).wf(),
        ensures
            final(self)@ == old(self)@,
            final(self).wf(),
            final(self).texts_v() == old(self).texts_v(),
            match loaded {
                Ok(c) => final(self).config_v() == c@ && effects_view(r@) == seq![
                    EffectV::Print("  config: "@ + summary_text(c@)),
                ],
                Err(e) => final(self).config_v() == old(self).config_v() && effects_view(r@) == seq![
                    EffectV::Print("  error: "@ + e@),
                ],
            },
    {
        match loaded {
            Ok(c) => {
                let m = concat("  config: ", c.summary().as_str());
                self.config = c;
                one(Effect::Print(m))
            },
            Err(e) => one(Effect::Print(concat("  error: ", e.as_str()))),
        }
    }

    /// The outcome of `Expand`: the expansion pre-filled when `editable`, else shown;
    /// on error the message is shown and the typed line `input` pre-filled again.
    pub fn expanded(&mut self, outcome: Result<(String, bool), String>, input: String) -> (r: Vec<Effect>)
        requires
            old(self).wf(),
        ensures
            (final(self)@, effects_view(r@)) == after_expand(
                old(self)@,
                match outcome {
                    Ok((s, b)) => Ok((s@, b)),
                    Err(e) => Err(e@),
                },
                input@,
            ),
            final(self).wf(),
            final(self).config_v() == old(self).config_v(),
            final(self).texts_v() == old(self).texts_v(),
    {
        match outcome {
            Ok((out, editable)) => {
                if editable {
                    self.prefill = Some(out.clone());
                    one(Effect::Prefill(out))
                } else {
                    one(Effect::Print(out))
                }
            },
            Err(msg) => {
                self.prefill = Some(input.clone());
                let r = vec![Effect::Print(msg), Effect::Prefill(input)];
                assert(effects_view(r@) =~= seq![r@[0]@, r@[1]@]);
                r
            },
        }
    }
}


/// The text an expansion shows for a resolved request: a curl command, block YAML
/// (vertical), or one line of flow YAML.
pub open spec fn expansion_text(flags: ExpandFlags, x: crate::request::ResolvedV, c: ConfigV) -> Seq<char> {
    let url = appended_url(x.url, x.query, c.qarray);
    if flags.curl {
        joined(curl_lines(x, url), " \\\n"@)
    } else if flags.vertical {
        doc_block(JsonV::Object(wire_document(x, url)), 0)
    } else {
        doc_flow(JsonV::Object(wire_document(x, url)))
    }
}

/// Expand a request for `.x`, rendered as the flags ask.
pub fn expand_with_flags(json: &Json, config: &Config, env: &Env, flags: &ExpandFlags) -> (r: Result<String, RequestError>)
    ensures
        match r {
            Ok(s) => resolved_request(json@, config@, env@) matches Ok(x) && s@ == expansion_text(*flags, x, config@),
            Err(e) => resolved_request(json@, config@, env@) matches Err(m) && e@ == (RequestErrorV::Structure { msg: m }),
        },
{
    if flags.curl {
        preview_request_curl(json, config, env)
    } else if flags.vertical {
        preview_request_wire(json, config, env)
    } else {
        expand_request(json, config, env)
    }
}
} // verus!

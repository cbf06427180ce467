use yurl::env::Env;
use yurl::request::parse_input;
use yurl::config::Config;
use yurl::driver::{expand_with_flags, Driver, Effect, ExpandFlags, HelpTexts, Input, OutputResult, parse_flags_and_req};

fn texts() -> HelpTexts {
    HelpTexts {
        help: "HELP".to_string(),
        expand_help: "XHELP".to_string(),
        reference: "REF".to_string(),
        templates: "TPL".to_string(),
    }
}

fn driver(has_source: bool) -> Driver {
    Driver::new(Config::empty(), texts(), has_source)
}

fn text(d: &mut Driver, s: &str) -> Vec<Effect> {
    d.handle_input(Input::Text(s.to_string()))
}

#[test]
fn single_line_request_executes() {
    let mut d = driver(false);
    let e = text(&mut d, "{g: http://x}");
    assert_eq!(
        e,
        vec![
            Effect::AddHistory("{g: http://x}".to_string()),
            Effect::Execute { id: 0, line: "{g: http://x}".to_string() },
        ]
    );
    assert!(d.is_request_in_flight());
    assert_eq!(d.in_flight_id(), Some(0));
}

#[test]
fn completion_shows_output_and_clears_in_flight() {
    let mut d = driver(false);
    text(&mut d, "{g: http://x}");
    let e = d.handle_input(Input::RequestComplete {
        id: 0,
        result: OutputResult { stdout: "out".to_string(), stderr: String::new() },
    });
    assert_eq!(e, vec![Effect::Stdout("out".to_string())]);
    assert!(!d.is_request_in_flight());
}

#[test]
fn stale_completion_ignored() {
    let mut d = driver(false);
    let e = d.handle_input(Input::RequestComplete {
        id: 7,
        result: OutputResult { stdout: "out".to_string(), stderr: "err".to_string() },
    });
    assert!(e.is_empty());
}

#[test]
fn ctrl_c_cancels_in_flight() {
    let mut d = driver(false);
    text(&mut d, "{g: http://x}");
    assert_eq!(d.handle_input(Input::CtrlC), vec![Effect::Cancel { id: 0 }]);
    assert!(!d.is_request_in_flight());
    assert_eq!(
        d.handle_input(Input::CtrlC),
        vec![Effect::Print("  (press Ctrl-D to exit)".to_string())]
    );
}

#[test]
fn ctrl_d_exits() {
    let mut d = driver(false);
    assert_eq!(d.handle_input(Input::CtrlD), vec![Effect::Exit]);
}

#[test]
fn blank_line_does_nothing() {
    let mut d = driver(false);
    assert!(text(&mut d, "   ").is_empty());
}

#[test]
fn multi_line_yaml_sent_on_separator() {
    let mut d = driver(false);
    let e = text(&mut d, "g: http://x");
    assert_eq!(e, vec![Effect::AddHistory("g: http://x".to_string())]);
    assert!(d.in_yaml_mode());
    assert!(text(&mut d, "h: {a: b}").is_empty());
    let e = text(&mut d, "---");
    assert_eq!(
        e,
        vec![Effect::Execute { id: 0, line: "g: http://x\nh: {a: b}".to_string() }]
    );
    assert!(!d.in_yaml_mode());
}

#[test]
fn multi_line_yaml_sent_on_blank_line() {
    let mut d = driver(false);
    text(&mut d, "g: http://x");
    let e = text(&mut d, "");
    assert_eq!(e, vec![Effect::Execute { id: 0, line: "g: http://x".to_string() }]);
}

#[test]
fn multi_line_yaml_dropped_on_ctrl_c() {
    let mut d = driver(false);
    text(&mut d, "g: http://x");
    assert!(d.handle_input(Input::CtrlC).is_empty());
    assert!(!d.in_yaml_mode());
}

#[test]
fn history_up_and_down() {
    let mut d = driver(false);
    text(&mut d, ".t");
    text(&mut d, ".r");
    assert_eq!(d.handle_input(Input::Up), vec![Effect::Prefill(".r".to_string())]);
    assert_eq!(d.handle_input(Input::Up), vec![Effect::Prefill(".t".to_string())]);
    assert_eq!(d.handle_input(Input::Up), vec![Effect::Prefill(".t".to_string())]);
    assert_eq!(d.handle_input(Input::Down), vec![Effect::Prefill(".r".to_string())]);
    assert_eq!(d.handle_input(Input::Down), vec![Effect::Prefill(String::new())]);
    assert_eq!(d.pending_prefill(), None);
    assert!(d.handle_input(Input::Down).is_empty());
}

#[test]
fn prefilled_edit_is_sent() {
    let mut d = driver(false);
    text(&mut d, ".t");
    d.handle_input(Input::Up);
    assert_eq!(d.pending_prefill(), Some(".t"));
    let e = text(&mut d, "{g: http://y}");
    assert_eq!(
        e,
        vec![
            Effect::AddHistory("{g: http://y}".to_string()),
            Effect::Execute { id: 0, line: "{g: http://y}".to_string() },
        ]
    );
}

#[test]
fn help_commands_print_texts() {
    let mut d = driver(false);
    assert_eq!(
        text(&mut d, ".help"),
        vec![Effect::AddHistory(".help".to_string()), Effect::Print("HELP".to_string())]
    );
    assert_eq!(text(&mut d, ".h x")[1], Effect::Print("XHELP".to_string()));
    assert_eq!(text(&mut d, ".r")[1], Effect::Print("REF".to_string()));
    assert_eq!(text(&mut d, ".t")[1], Effect::Print("TPL".to_string()));
}

#[test]
fn unknown_command_named() {
    let mut d = driver(false);
    assert_eq!(
        text(&mut d, ".zap now")[1],
        Effect::Print("  unknown command: .zap (try .help)".to_string())
    );
}

#[test]
fn config_shown_and_loaded() {
    let mut d = driver(false);
    assert_eq!(text(&mut d, ".c")[1], Effect::Print("  config: (empty)".to_string()));
    assert_eq!(
        text(&mut d, ".c {api: http://a}")[1],
        Effect::LoadConfig("{api: http://a}".to_string())
    );
    let e = d.config_loaded(Err("bad".to_string()));
    assert_eq!(e, vec![Effect::Print("  error: bad".to_string())]);
}

#[test]
fn pop_without_source() {
    let mut d = driver(false);
    assert_eq!(text(&mut d, ".pop")[1], Effect::Print("  no more requests".to_string()));
    assert_eq!(text(&mut d, ".go")[1], Effect::Print("  no more requests".to_string()));
    assert_eq!(text(&mut d, ".repop")[1], Effect::Print("  nothing to repop".to_string()));
    assert_eq!(text(&mut d, ".open")[1], Effect::Print("  usage: .open file.yaml".to_string()));
}

#[test]
fn open_then_pop_and_repop() {
    let mut d = driver(false);
    assert_eq!(text(&mut d, ".open reqs.yaml")[1], Effect::Open("reqs.yaml".to_string()));
    assert_eq!(d.source_opened("reqs.yaml"), vec![Effect::Print("  opened reqs.yaml".to_string())]);
    assert_eq!(text(&mut d, ".p")[1], Effect::Pop);
    let e = d.popped(Some(Ok("{g: http://a}".to_string())));
    assert_eq!(e, vec![Effect::Prefill("{g: http://a}".to_string())]);
    assert!(d.handle_input(Input::CtrlC).is_empty());
    assert_eq!(text(&mut d, ".repop")[1], Effect::Prefill("{g: http://a}".to_string()));
    assert_eq!(d.popped(None), vec![Effect::Print("  no more requests".to_string())]);
    assert_eq!(
        d.source_failed("x.yaml", "not found"),
        vec![Effect::Print("  error: not found: x.yaml".to_string())]
    );
}

#[test]
fn go_sends_until_error() {
    let mut d = driver(true);
    let e = d.go(vec![Ok("a".to_string()), Ok("b".to_string()), Err("oops".to_string()), Ok("c".to_string())]);
    assert_eq!(
        e,
        vec![
            Effect::Execute { id: 0, line: "a".to_string() },
            Effect::Execute { id: 1, line: "b".to_string() },
            Effect::Print("oops".to_string()),
            Effect::Print("  2 requests executed".to_string()),
        ]
    );
    assert_eq!(d.in_flight_id(), Some(1));
    assert_eq!(d.go(vec![]), vec![Effect::Print("  no more requests".to_string())]);
    assert_eq!(d.go(vec![Err("bad".to_string())]), vec![Effect::Print("bad".to_string())]);
}

#[test]
fn expand_command_asks_shell() {
    let mut d = driver(false);
    assert_eq!(
        text(&mut d, ".x mv {g: http://a}")[1],
        Effect::Expand {
            flags: "mv".to_string(),
            request: "{g: http://a}".to_string(),
            input: ".x mv {g: http://a}".to_string(),
        }
    );
    let e = d.expanded(Ok(("{get: http://a}".to_string(), true)), ".x {g: http://a}".to_string());
    assert_eq!(e, vec![Effect::Prefill("{get: http://a}".to_string())]);
    let e = d.expanded(Err("boom".to_string()), ".x {g: http://a}".to_string());
    assert_eq!(
        e,
        vec![Effect::Print("boom".to_string()), Effect::Prefill(".x {g: http://a}".to_string())]
    );
}

#[test]
fn flags_split_from_request() {
    assert_eq!(
        parse_flags_and_req("mv {g: x}"),
        ("mv".to_string(), "{g: x}".to_string())
    );
    assert_eq!(
        parse_flags_and_req("{g: x}"),
        (String::new(), "{g: x}".to_string())
    );
    assert_eq!(
        parse_flags_and_req("toolong {g: x}"),
        (String::new(), "toolong {g: x}".to_string())
    );
}

#[test]
fn expand_flags_parsed() {
    let f = ExpandFlags::parse("mvc").unwrap();
    assert!(f.merged && f.vertical && f.curl && !f.json && !f.short);
    assert!(!f.is_editable());
    assert!(ExpandFlags::parse("ms").unwrap().is_editable());
    assert_eq!(
        ExpandFlags::parse("mq"),
        Err("unknown flags: mq (try .help x)".to_string())
    );
}

#[test]
fn expand_with_flags_renders_as_asked() {
    let c = Config::empty();
    let env = Env { vars: Vec::new() };
    let json = parse_input("{g: https://x.io/a}").unwrap();
    let flow = expand_with_flags(&json, &c, &env, &ExpandFlags::none()).unwrap();
    assert_eq!(flow, "{get: https://x.io/a}");
    let vertical = expand_with_flags(&json, &c, &env, &ExpandFlags::parse("v").unwrap()).unwrap();
    assert_eq!(vertical, "\nget: https://x.io/a\n");
    let curl = expand_with_flags(&json, &c, &env, &ExpandFlags::parse("c").unwrap()).unwrap();
    assert_eq!(curl, "curl -X GET 'https://x.io/a'");
}

#[test]
fn go_room_checked() {
    let d = driver(true);
    assert!(d.can_go(3));
    assert!(!d.can_go(usize::MAX));
    assert!(d.room());
}

use http_server_tester::config::ConfigError;
use http_server_tester::json::{JsonNumber, JsonValue};
use http_server_tester::parse::{parse_config, parse_json};
use http_server_tester::report::Level;
use http_server_tester::run::pipe::pipe_verdict_lines;
use http_server_tester::run::steps::{Fault, RunTally};
use http_server_tester::run::verdict_lines;
use http_server_tester::suite::{test_step, RunSettings, TestAction, TestEvent, TestState};
use http_server_tester::Version;

fn s(text: &str) -> JsonValue {
    JsonValue::String(text.to_string())
}

fn n(value: u64) -> JsonValue {
    JsonValue::Number(JsonNumber::PosInt(value))
}

fn obj(entries: Vec<(&str, JsonValue)>) -> JsonValue {
    JsonValue::Object(entries.into_iter().map(|(k, v)| (k.to_string(), v)).collect())
}

fn advanced() -> JsonValue {
    obj(vec![
        ("performance", JsonValue::Array(vec![])),
        ("pipelining", JsonValue::Array(vec![JsonValue::Array(vec![s("/")])])),
        ("proxy", JsonValue::Array(vec![])),
    ])
}

fn items() -> JsonValue {
    obj(vec![("advanced", advanced()), ("basic", obj(vec![])), ("wait_seconds", n(1))])
}

fn config(with_bin: bool) -> JsonValue {
    let mut entries = vec![];
    if with_bin {
        entries.push(("bin", s("./server")));
    }
    entries.push(("build", s("make")));
    entries.push(("directory", s("/srv")));
    entries.push(("items", items()));
    entries.push(("server", obj(vec![("ip", s("127.0.0.1")), ("port", n(8080)), ("threads", n(8))])));
    obj(entries)
}

fn settings(start: bool) -> RunSettings {
    RunSettings {
        dir: if start { "/srv".to_string() } else { String::new() },
        bin: if start { "./server".to_string() } else { String::new() },
        server_args: "--ip 127.0.0.1 --port 8080 --threads 8".to_string(),
        base_url: "http://127.0.0.1:8080".to_string(),
        wait_seconds: 1,
        start_server: start,
    }
}

#[test]
fn dev_session_in_basic_mode_builds_nothing() {
    let config = config(false);
    let (st, a) = test_step(&Version::Debug, "basic", &config, TestState::start(), TestEvent::Begin);
    assert_eq!(a, TestAction::Http { settings: settings(false), items: items() });
    let t = RunTally { all: 6, passes: 3 };
    let (st, a) = test_step(&Version::Debug, "basic", &config, st, TestEvent::Tally(t));
    assert_eq!(a, TestAction::Report { http: t, pipe: None, proxy: None, performance: false });
    assert_eq!(st, TestState::Over);
}

#[test]
fn run_session_in_advanced_mode_builds_then_runs_everything() {
    let config = config(true);
    let (st, a) = test_step(&Version::Release, "advanced", &config, TestState::start(), TestEvent::Begin);
    assert_eq!(a, TestAction::Build { dir: "/srv".to_string(), command: "make".to_string() });
    let (st, a) = test_step(&Version::Release, "advanced", &config, st, TestEvent::Built);
    assert_eq!(a, TestAction::Http { settings: settings(true), items: items() });
    let t = RunTally { all: 2, passes: 2 };
    let (st, a) = test_step(&Version::Release, "advanced", &config, st, TestEvent::Tally(t));
    assert_eq!(
        a,
        TestAction::Pipelining { settings: settings(true), items: JsonValue::Array(vec![JsonValue::Array(vec![s("/")])]) }
    );
    let (st, a) = test_step(&Version::Release, "advanced", &config, st, TestEvent::Tally(t));
    assert_eq!(a, TestAction::Proxy { settings: settings(true), items: JsonValue::Array(vec![]) });
    let (st, a) = test_step(&Version::Release, "advanced", &config, st, TestEvent::Tally(t));
    assert_eq!(a, TestAction::Performance { settings: settings(true), items: JsonValue::Array(vec![]) });
    let (_, a) = test_step(&Version::Release, "advanced", &config, st, TestEvent::Finished);
    assert_eq!(a, TestAction::Report { http: t, pipe: Some(t), proxy: Some(t), performance: true });
}

#[test]
fn session_failures() {
    let config = config(false);
    let (st, _) = test_step(&Version::Release, "basic", &config, TestState::start(), TestEvent::Begin);
    let (_, a) = test_step(&Version::Release, "basic", &config, st, TestEvent::Built);
    assert_eq!(a, TestAction::Fail(Fault::Config(ConfigError::MissingKey("bin".to_string()))));
    let (_, a) = test_step(&Version::Debug, "basic", &obj(vec![]), TestState::start(), TestEvent::Begin);
    assert_eq!(a, TestAction::Fail(Fault::Config(ConfigError::KeyNotFound("server".to_string()))));
    let (st, _) = test_step(&Version::Debug, "basic", &config, TestState::start(), TestEvent::Begin);
    let (_, a) = test_step(&Version::Debug, "basic", &config, st, TestEvent::Failed("Run curl failed:\nx".to_string()));
    assert_eq!(a, TestAction::Fail(Fault::Io("Run curl failed:\nx".to_string())));
}

#[test]
fn parse_config_reads_json() {
    let parsed = parse_config(b"{\"b\": [1, -2, 1.5, \"x\", true, null], \"a\": {}}");
    assert_eq!(
        parsed,
        Ok(obj(vec![
            ("a", obj(vec![])),
            (
                "b",
                JsonValue::Array(vec![
                    n(1),
                    JsonValue::Number(JsonNumber::NegInt(-2)),
                    JsonValue::Number(JsonNumber::Float("1.5".to_string())),
                    s("x"),
                    JsonValue::Bool(true),
                    JsonValue::Null,
                ]),
            ),
        ]))
    );
    assert_eq!(parse_json(b"[]"), Some(JsonValue::Array(vec![])));
    assert_eq!(parse_json(b"not json"), None);
}

#[test]
fn parse_config_error_message() {
    assert_eq!(
        parse_config(b"{"),
        Err("Failed to parse config file into JSON: EOF while parsing an object at line 1 column 1".to_string())
    );
}

#[test]
fn reply_verdict_lines() {
    assert_eq!(
        verdict_lines("GET", "/", "files/index.html", "a", "a"),
        vec![(Level::Info, "GET: Path / pass.".to_string())]
    );
    assert_eq!(
        verdict_lines("GET", "/", "files/index.html", "a", "b"),
        vec![
            (Level::Error, "The content of path / is different from source files/index.html\n".to_string()),
            (Level::Debug, "You should recv:\na".to_string()),
            (Level::Debug, "You actually recv:\nb\n".to_string()),
        ]
    );
}

#[test]
fn pipelined_verdict_lines() {
    let paths = vec!["/a".to_string(), "/b".to_string()];
    let reply = "HTTP/1.1 200 OK\r\n\r\nxHTTP/1.1 200 OK\r\n\r\ny";
    assert_eq!(
        pipe_verdict_lines(&paths, reply, &vec!["x".to_string(), "y".to_string()]),
        vec![(Level::Info, "Pipelining: paths - /a /b pass.".to_string())]
    );
    assert_eq!(
        pipe_verdict_lines(&paths, reply, &vec!["x".to_string(), "z".to_string()]),
        vec![
            (Level::Error, "The content of pipelining paths /a /b  is different from single requests\n".to_string()),
            (Level::Debug, "You should recv:\nxz".to_string()),
            (Level::Debug, "You actually recv:\nxy\n".to_string()),
        ]
    );
}

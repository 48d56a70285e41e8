use http_server_tester::config::{ConfigError, ItemKind};
use http_server_tester::json::{JsonNumber, JsonValue};
use http_server_tester::run::http::{get_step, http_step, post_step, HttpState, ItemState};
use http_server_tester::run::perf::{perf_step, PerfResult, PerfState};
use http_server_tester::run::pipe::{
    group_paths_at, parse_pipelining_response, pipe_step, pipelined_group_passes, PipeState,
};
use http_server_tester::run::proxy::{proxy_step, ProxyState};
use http_server_tester::run::steps::{add_tallies, record_reply, Action, Event, Fault, RunTally};

fn s(text: &str) -> JsonValue {
    JsonValue::String(text.to_string())
}

fn obj(entries: Vec<(&str, JsonValue)>) -> JsonValue {
    JsonValue::Object(entries.into_iter().map(|(k, v)| (k.to_string(), v)).collect())
}

fn out(text: &str) -> Event {
    Event::Output(text.to_string())
}

fn text(t: &str) -> Event {
    Event::Text(t.to_string())
}

const BASE: &str = "http://127.0.0.1:8080";

#[test]
fn tallies() {
    let t = RunTally::new();
    let t = record_reply(t, "a", "a");
    let t = record_reply(t, "a", "b");
    assert_eq!(t, RunTally { all: 2, passes: 1 });
    assert_eq!(add_tallies(t, RunTally { all: 3, passes: 3 }), RunTally { all: 5, passes: 4 });
}

#[test]
fn get_run_counts_items_and_passes() {
    let items = JsonValue::Array(vec![
        obj(vec![("file", s("f1")), ("path", s("/a"))]),
        obj(vec![("file", s("f2")), ("path", s("/b"))]),
    ]);
    let (st, a) = get_step(BASE, &items, ItemState::start(), Event::Begin);
    assert_eq!(a, Action::Run("curl --connect-timeout 5 \"http://127.0.0.1:8080/a\"".to_string()));
    let (st, a) = get_step(BASE, &items, st, out("A"));
    assert_eq!(a, Action::ReadExpected("f1".to_string()));
    let (st, a) = get_step(BASE, &items, st, text("A"));
    assert_eq!(a, Action::Run("curl --connect-timeout 5 \"http://127.0.0.1:8080/b\"".to_string()));
    let (st, _) = get_step(BASE, &items, st, out("B"));
    let (st, a) = get_step(BASE, &items, st, text("not B"));
    assert_eq!(a, Action::Done(RunTally { all: 2, passes: 1 }));
    assert_eq!(st, ItemState::Over);
}

#[test]
fn get_run_faults() {
    let (_, a) = get_step(BASE, &s("x"), ItemState::start(), Event::Begin);
    assert_eq!(
        a,
        Action::Fail { fault: Fault::Config(ConfigError::NotArray { item: ItemKind::Get, value: s("x") }), stop_server: false }
    );
    let items = JsonValue::Array(vec![obj(vec![("path", s("/a"))])]);
    let (_, a) = get_step(BASE, &items, ItemState::start(), Event::Begin);
    assert_eq!(a, Action::Fail { fault: Fault::Config(ConfigError::MissingKey("file".to_string())), stop_server: false });
    let items = JsonValue::Array(vec![obj(vec![("file", s("f")), ("path", s("/a"))])]);
    let (st, _) = get_step(BASE, &items, ItemState::start(), Event::Begin);
    let (_, a) = get_step(BASE, &items, st, Event::Failed("Run curl failed:\nx".to_string()));
    assert_eq!(a, Action::Fail { fault: Fault::Io("Run curl failed:\nx".to_string()), stop_server: false });
    let (_, a) = get_step(BASE, &items, ItemState::start(), Event::Started);
    assert_eq!(a, Action::Fail { fault: Fault::OutOfOrder, stop_server: false });
    let (_, a) = get_step(BASE, &JsonValue::Array(vec![]), ItemState::start(), Event::Begin);
    assert_eq!(a, Action::Done(RunTally { all: 0, passes: 0 }));
}

#[test]
fn post_run() {
    let items = JsonValue::Array(vec![obj(vec![("file", s("out")), ("path", s("/api")), ("payload", s("in"))])]);
    let (st, a) = post_step("basic", BASE, &items, ItemState::start(), Event::Begin);
    assert_eq!(a, Action::ReadPayload("in".to_string()));
    let (st, a) = post_step("basic", BASE, &items, st, text("x=1"));
    assert_eq!(a, Action::Run("curl --connect-timeout 5 -d \"x=1\" -X POST \"http://127.0.0.1:8080/api\"".to_string()));
    let (st, a) = post_step("basic", BASE, &items, st, out("ok"));
    assert_eq!(a, Action::ReadExpected("out".to_string()));
    let (_, a) = post_step("basic", BASE, &items, st, text("ok"));
    assert_eq!(a, Action::Done(RunTally { all: 1, passes: 1 }));
}

#[test]
fn proxy_run() {
    let items = JsonValue::Array(vec![obj(vec![
        ("host", s("http://remote")),
        ("paths", JsonValue::Array(vec![s("/"), s("/x")])),
    ])]);
    let args = "--ip 127.0.0.1 --port 8080 --threads 8";
    let (st, a) = proxy_step(args, BASE, &items, ProxyState::start(), Event::Begin);
    assert_eq!(a, Action::StartServer(format!("{} --proxy http://remote", args)));
    let (st, a) = proxy_step(args, BASE, &items, st, Event::Started);
    assert_eq!(a, Action::Run("curl --connect-timeout 5 \"http://127.0.0.1:8080/\"".to_string()));
    let (st, a) = proxy_step(args, BASE, &items, st, out("same"));
    assert_eq!(a, Action::Run("curl --connect-timeout 5 \"http://remote/\"".to_string()));
    let (st, _) = proxy_step(args, BASE, &items, st, out("same"));
    let (st, _) = proxy_step(args, BASE, &items, st, out("one"));
    let (st, a) = proxy_step(args, BASE, &items, st, out("other"));
    assert_eq!(a, Action::StopServer);
    let (_, a) = proxy_step(args, BASE, &items, st, Event::Stopped);
    assert_eq!(a, Action::Done(RunTally { all: 2, passes: 1 }));
    let bad = JsonValue::Array(vec![obj(vec![
        ("host", s("h")),
        ("paths", JsonValue::Array(vec![JsonValue::Number(JsonNumber::PosInt(1))])),
    ])]);
    let (st, _) = proxy_step(args, BASE, &bad, ProxyState::start(), Event::Begin);
    let (_, a) = proxy_step(args, BASE, &bad, st, Event::Started);
    assert_eq!(
        a,
        Action::Fail {
            fault: Fault::Config(ConfigError::PathNotString(JsonValue::Number(JsonNumber::PosInt(1)))),
            stop_server: true
        }
    );
}

#[test]
fn pipelining_run() {
    let items = JsonValue::Array(vec![JsonValue::Array(vec![s("/a"), s("/b")])]);
    let (st, a) = pipe_step("ARGS", BASE, &items, PipeState::start(), Event::Begin);
    assert_eq!(a, Action::StartServer("ARGS".to_string()));
    let (st, a) = pipe_step("ARGS", BASE, &items, st, Event::Started);
    assert!(matches!(a, Action::Run(ref c) if c.ends_with("| nc 127.0.0.1 8080")));
    let reply = "HTTP/1.1 200 OK\r\nA: 1\r\n\r\naaHTTP/1.1 200 OK\r\nA: 1\r\n\r\nbb";
    let (st, a) = pipe_step("ARGS", BASE, &items, st, out(reply));
    assert_eq!(a, Action::Run("curl --connect-timeout 5 http://127.0.0.1:8080/a".to_string()));
    let (st, _) = pipe_step("ARGS", BASE, &items, st, out("aa"));
    let (st, a) = pipe_step("ARGS", BASE, &items, st, out("bb"));
    assert_eq!(a, Action::StopServer);
    let (_, a) = pipe_step("ARGS", BASE, &items, st, Event::Stopped);
    assert_eq!(a, Action::Done(RunTally { all: 1, passes: 1 }));

    let no_port = pipe_step("ARGS", "http://localhost", &items, PipeState::start(), Event::Begin).0;
    let (_, a) = pipe_step("ARGS", "http://localhost", &items, no_port, Event::Started);
    assert_eq!(a, Action::Fail { fault: Fault::NoPort, stop_server: false });
    assert_eq!(group_paths_at(&items, 0), Some(vec!["/a".to_string(), "/b".to_string()]));
    assert_eq!(group_paths_at(&items, 1), None);
}

#[test]
fn pipelined_group_verdict() {
    let reply = "HTTP/1.1 200 OK\r\n\r\nxHTTP/1.1 200 OK\r\n\r\ny";
    assert!(pipelined_group_passes(reply, &vec!["x".to_string(), "y".to_string()]));
    assert!(!pipelined_group_passes(reply, &vec!["x".to_string()]));
}

#[test]
fn reply_bodies_of_a_concatenation() {
    let a = "HTTP/1.1 200 OK\r\nA: 1\r\n\r\nbody-a";
    let b = "more";
    let joined = format!("{}\r\n\r\n{}", a, b);
    assert_eq!(
        parse_pipelining_response(&joined),
        format!("{}{}", parse_pipelining_response(a), parse_pipelining_response(b))
    );
}

#[test]
fn key_messages() {
    assert_eq!(
        ConfigError::KeyNotFound("items".to_string()).message(),
        "Can't find the key 'items' in config file."
    );
    assert_eq!(ConfigError::MissingKey("port".to_string()).message(), "Config don't have the key 'port'.");
}

#[test]
fn value_messages_quote_the_value() {
    let number = JsonValue::Number(JsonNumber::PosInt(8080));
    assert_eq!(
        ConfigError::NotString { key: "port".to_string(), value: number }.message(),
        "The value of key 'port' is '8080' which should be a string."
    );
    assert_eq!(
        ConfigError::NotUnsignedInteger { key: "port".to_string(), value: s("8080") }.message(),
        "The value of key 'port' is '\"8080\"' which should be an unsigned integer."
    );
    assert_eq!(
        ConfigError::NotUnsignedInteger {
            key: "wait_seconds".to_string(),
            value: JsonValue::Number(JsonNumber::Float("1.5".to_string())),
        }
        .message(),
        "The value of key 'wait_seconds' is '1.5' which should be an unsigned integer."
    );
    assert_eq!(
        ConfigError::NotArray { item: ItemKind::Proxy, value: obj(vec![("a", JsonValue::Number(JsonNumber::PosInt(1)))]) }
            .message(),
        "Proxy item is 'Object {\"a\": Number(1)}', which should be an array."
    );
    assert_eq!(
        ConfigError::NotArray { item: ItemKind::Pipe, value: s("x") }.message(),
        "Pipe array is 'String(\"x\")', which should be an array."
    );
    assert_eq!(
        ConfigError::NotArray { item: ItemKind::Get, value: JsonValue::Null }.message(),
        "Get item is 'Null', which should be an array."
    );
    assert_eq!(
        ConfigError::PipeEntryNotString(JsonValue::Array(vec![
            JsonValue::Number(JsonNumber::NegInt(-1)),
            JsonValue::Bool(false),
        ]))
        .message(),
        "The item of the array in pipelining is 'Array [Number(-1), Bool(false)]', which should be a string."
    );
    assert_eq!(
        ConfigError::PathNotString(obj(vec![
            ("b", JsonValue::Number(JsonNumber::PosInt(1))),
            ("a", JsonValue::Number(JsonNumber::PosInt(2))),
        ]))
        .message(),
        "The value of key 'path' is '{\"a\":2,\"b\":1}' which should be a string."
    );
}

#[test]
fn http_run_adds_get_and_post() {
    let get_items = JsonValue::Array(vec![obj(vec![("file", s("f1")), ("path", s("/a"))])]);
    let post_items = JsonValue::Array(vec![obj(vec![("file", s("out")), ("path", s("/api")), ("payload", s("in"))])]);
    let items = obj(vec![("basic", obj(vec![("get", get_items), ("post", post_items)]))]);
    let (st, a) = http_step("ARGS", "basic", BASE, &items, HttpState::start(), Event::Begin);
    assert_eq!(a, Action::StartServer("ARGS".to_string()));
    let (st, a) = http_step("ARGS", "basic", BASE, &items, st, Event::Started);
    assert_eq!(a, Action::Run("curl --connect-timeout 5 \"http://127.0.0.1:8080/a\"".to_string()));
    let (st, _) = http_step("ARGS", "basic", BASE, &items, st, out("A"));
    let (st, a) = http_step("ARGS", "basic", BASE, &items, st, text("A"));
    assert_eq!(a, Action::ReadPayload("in".to_string()));
    let (st, _) = http_step("ARGS", "basic", BASE, &items, st, text("x=1"));
    let (st, _) = http_step("ARGS", "basic", BASE, &items, st, out("ok"));
    let (st, a) = http_step("ARGS", "basic", BASE, &items, st, text("not ok"));
    assert_eq!(a, Action::StopServer);
    let (st, a) = http_step("ARGS", "basic", BASE, &items, st, Event::Stopped);
    assert_eq!(a, Action::Done(RunTally { all: 2, passes: 1 }));
    assert_eq!(st, HttpState::Over);
}

#[test]
fn http_run_faults() {
    let (_, a) = http_step("ARGS", "basic", BASE, &obj(vec![]), HttpState::start(), Event::Begin);
    assert_eq!(a, Action::Fail { fault: Fault::Config(ConfigError::KeyNotFound("basic".to_string())), stop_server: false });
    let items = obj(vec![("basic", obj(vec![("get", s("x")), ("post", JsonValue::Array(vec![]))]))]);
    let (st, _) = http_step("ARGS", "basic", BASE, &items, HttpState::start(), Event::Begin);
    let (_, a) = http_step("ARGS", "basic", BASE, &items, st, Event::Started);
    assert_eq!(
        a,
        Action::Fail { fault: Fault::Config(ConfigError::NotArray { item: ItemKind::Get, value: s("x") }), stop_server: true }
    );
}

#[test]
fn performance_run() {
    let items = JsonValue::Array(vec![obj(vec![
        ("concurrency", JsonValue::Number(JsonNumber::PosInt(10))),
        ("path", s("/")),
        ("requests", JsonValue::Number(JsonNumber::PosInt(100))),
    ])]);
    let (st, a) = perf_step("ARGS", BASE, &items, PerfState::start(), Event::Begin);
    assert_eq!(a, Action::StartServer("ARGS".to_string()));
    let (st, a) = perf_step("ARGS", BASE, &items, st, Event::Started);
    assert_eq!(a, Action::Run("ab -n 100 -c 10 http://127.0.0.1:8080/".to_string()));
    let report = "Requests per second:    123.45 [#/sec] (mean)\nTime per request:       8.1 [ms] (mean)\n";
    let (st, a) = perf_step("ARGS", BASE, &items, st, out(report));
    assert_eq!(a, Action::StopServer);
    let (st, a) = perf_step("ARGS", BASE, &items, st, Event::Stopped);
    assert_eq!(a, Action::Finished);
    assert_eq!(
        st,
        PerfState::Finished {
            results: vec![PerfResult {
                requests: 100,
                concurrency: 10,
                rate_line: Some("Requests per second:    123.45 [#/sec] (mean)".to_string()),
                time_line: Some("Time per request:       8.1 [ms] (mean)".to_string()),
            }]
        }
    );
    let (_, a) = perf_step("ARGS", BASE, &s("x"), PerfState::start(), Event::Begin);
    assert_eq!(
        a,
        Action::Fail {
            fault: Fault::Config(ConfigError::NotArray { item: ItemKind::Performance, value: s("x") }),
            stop_server: false
        }
    );
    let (st, _) = perf_step("ARGS", BASE, &items, PerfState::start(), Event::Begin);
    let (st, _) = perf_step("ARGS", BASE, &items, st, Event::Started);
    let (_, a) = perf_step("ARGS", BASE, &items, st, Event::Failed("ab test failed:\n x.".to_string()));
    assert_eq!(a, Action::Fail { fault: Fault::Io("ab test failed:\n x.".to_string()), stop_server: true });
}

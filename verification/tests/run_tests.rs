use http_server_tester::config::{ConfigError, ItemKind};
use http_server_tester::json::{JsonNumber, JsonValue};
use http_server_tester::report::{performance_heading, summary_line, Level};
use http_server_tester::run::http::{curl_get_command, curl_post_command, get_request, post_request};
use http_server_tester::run::perf::{parse_ab_outout, perf_request};
use http_server_tester::run::pipe::{
    host_and_port, parse_pipelining_requests, parse_pipelining_response, paths_label,
    pipe_curl_command,
};
use http_server_tester::run::proxy::{proxy_path, proxy_target};
use http_server_tester::run::{compare_result, item_list};
use http_server_tester::server::server_command;

fn s(text: &str) -> JsonValue {
    JsonValue::String(text.to_string())
}

fn n(value: u64) -> JsonValue {
    JsonValue::Number(JsonNumber::PosInt(value))
}

fn obj(entries: Vec<(&str, JsonValue)>) -> JsonValue {
    JsonValue::Object(entries.into_iter().map(|(k, v)| (k.to_string(), v)).collect())
}

const BASE: &str = "http://127.0.0.1:8080";

#[test]
fn results_pass_only_on_equal_content() {
    assert_eq!(compare_result("GET", "/index.html", "files/index.html", "<html>", "<html>"), Ok(()));
    assert_eq!(compare_result("GET", "/index.html", "files/index.html", "<html>", "<html>\n"), Err(()));
}

#[test]
fn item_lists_must_be_arrays() {
    let items = JsonValue::Array(vec![s("/")]);
    assert_eq!(item_list(&items, ItemKind::Get).unwrap().len(), 1);
    assert_eq!(
        item_list(&s("/"), ItemKind::Post),
        Err(ConfigError::NotArray { item: ItemKind::Post, value: s("/") })
    );
}

#[test]
fn get_and_post_commands() {
    let item = obj(vec![("file", s("files/index.html")), ("path", s("/index.html"))]);
    let g = get_request(BASE, &item).unwrap();
    assert_eq!(g.path, "/index.html");
    assert_eq!(g.file, "files/index.html");
    assert_eq!(g.command, "curl --connect-timeout 5 \"http://127.0.0.1:8080/index.html\"");
    assert_eq!(
        get_request(BASE, &obj(vec![("path", s("/"))])).err(),
        Some(ConfigError::MissingKey("file".to_string()))
    );
    assert_eq!(curl_get_command("http://h", "/p"), "curl --connect-timeout 5 \"http://h/p\"");
    let post = obj(vec![("file", s("out")), ("path", s("/api")), ("payload", s("in"))]);
    let p = post_request(&post).unwrap();
    assert_eq!((p.path.as_str(), p.payload.as_str(), p.file.as_str()), ("/api", "in", "out"));
    assert_eq!(
        curl_post_command("basic", BASE, "/api", "a=1"),
        "curl --connect-timeout 5 -d \"a=1\" -X POST \"http://127.0.0.1:8080/api\""
    );
    assert_eq!(
        curl_post_command("advanced", BASE, "/api", "{}"),
        "curl --connect-timeout 5 -H 'Content-Type: application/json' -d '{}' -X POST \"http://127.0.0.1:8080/api\""
    );
    assert_eq!(curl_post_command("other", BASE, "/api", "{}"), "");
}

#[test]
fn pipelined_requests() {
    let paths = vec![s("/a"), s("/b")];
    let (cmd, ps) = parse_pipelining_requests(BASE, &paths).unwrap();
    assert_eq!(ps, vec!["/a".to_string(), "/b".to_string()]);
    assert_eq!(
        cmd,
        "(echo -en \"GET /a HTTP/1.1\r\nHost: 127.0.0.1:8080\r\n\r\nGET /b HTTP/1.1\r\nHost: 127.0.0.1:8080\r\n\r\n\";)| nc 127.0.0.1 8080"
    );
    let bad = vec![s("/a"), n(1), JsonValue::Null];
    assert_eq!(parse_pipelining_requests(BASE, &bad), Err(ConfigError::PipeEntryNotString(n(1))));
    assert_eq!(host_and_port(BASE), Some(("127.0.0.1".to_string(), "8080".to_string())));
    assert_eq!(host_and_port("http://localhost"), None);
    assert_eq!(pipe_curl_command(BASE, "/a"), "curl --connect-timeout 5 http://127.0.0.1:8080/a");
    assert_eq!(paths_label(&vec!["/a".to_string(), "/b".to_string()]), "/a /b ");
}

#[test]
fn pipelined_reply_gives_bodies() {
    let reply = "HTTP/1.1 200 OK\r\nContent-Length: 5\r\n\r\nhelloHTTP/1.1 404 Not Found\r\nContent-Length: 3\r\n\r\nbad";
    assert_eq!(parse_pipelining_response(reply), "hellobad");
    assert_eq!(parse_pipelining_response(""), "");
    assert_eq!(parse_pipelining_response("no head at all"), "no head at all");
}

#[test]
fn proxy_items() {
    let item = obj(vec![("host", s("http://www.example.com")), ("paths", JsonValue::Array(vec![s("/")]))]);
    let t = proxy_target("--ip 127.0.0.1 --port 8080 --threads 8", &item).unwrap();
    assert_eq!(t.host, "http://www.example.com");
    assert_eq!(t.server_args, "--ip 127.0.0.1 --port 8080 --threads 8 --proxy http://www.example.com");
    assert_eq!(t.paths, JsonValue::Array(vec![s("/")]));
    assert_eq!(proxy_path(&s("/")), Ok("/".to_string()));
    assert_eq!(proxy_path(&n(2)), Err(ConfigError::PathNotString(n(2))));
    assert_eq!(
        proxy_target("", &obj(vec![("host", s("h"))])).err(),
        Some(ConfigError::KeyNotFound("paths".to_string()))
    );
}

#[test]
fn performance_items_and_ab_report() {
    let item = obj(vec![("concurrency", n(10)), ("path", s("/")), ("requests", n(100))]);
    let p = perf_request(BASE, &item).unwrap();
    assert_eq!((p.requests, p.concurrency), (100, 10));
    assert_eq!(p.command, "ab -n 100 -c 10 http://127.0.0.1:8080/");
    let report = "Concurrency Level:      10\nRequests per second:    9273.00 [#/sec] (mean)\nTime per request:       1.078 [ms] (mean)\nTime per request:       0.108 [ms] (mean, across all concurrent requests)\n";
    let (rate, time) = parse_ab_outout(report);
    assert_eq!(rate.as_deref(), Some("Requests per second:    9273.00 [#/sec] (mean)"));
    assert_eq!(time.as_deref(), Some("Time per request:       0.108 [ms] (mean, across all concurrent requests)"));
    assert_eq!(parse_ab_outout("nothing"), (None, None));
}

#[test]
fn summary_of_the_readme_example() {
    assert_eq!(summary_line("HTTP", Some((6, 3))), (Level::Warn, "HTTP test items: all 6, passes 3".to_string()));
    assert_eq!(
        summary_line("Pipelining", Some((2, 2))),
        (Level::Info, "Pipelining test items: all 2, passes 2".to_string())
    );
    assert_eq!(summary_line("Proxy", None), (Level::Warn, "Proxy not test...".to_string()));
    assert_eq!(performance_heading(1), "Perfermance test 1 times.");
    assert_eq!(server_command("./http-server", "--ip 1 --port 2 --threads 3"), "./http-server --ip 1 --port 2 --threads 3");
}

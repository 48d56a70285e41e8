//! The order of a whole test session: read the settings, build the server when the
//! tests start it, run the HTTP tests, then the advanced tests in the advanced mode,
//! and report; the first failure ends the session.
use vstd::prelude::*;

use crate::config::{
    get_json_value, get_json_value_as_string, get_json_value_as_u64, parse_server_args,
    server_settings, string_at, unsigned_at, value_at, ConfigError, ConfigFault,
};
use crate::json::{Json, JsonValue};
use crate::run::steps::{Fault, FaultView, RunTally};
use crate::{runs_advanced_tests, Version};

verus! {

/// What a test run needs to reach the server: where to build and start it (empty when
/// the tests do not start it), its arguments, its address, how long to wait for it, and
/// whether to start it.
#[derive(Debug, PartialEq, Eq)]
pub struct RunSettings {
    pub dir: String,
    pub bin: String,
    pub server_args: String,
    pub base_url: String,
    pub wait_seconds: u64,
    pub start_server: bool,
}

/// The content of a `RunSettings`.
pub struct RunSettingsView {
    pub dir: Seq<char>,
    pub bin: Seq<char>,
    pub server_args: Seq<char>,
    pub base_url: Seq<char>,
    pub wait_seconds: u64,
    pub start_server: bool,
}

impl View for RunSettings {
    type V = RunSettingsView;

    open spec fn view(&self) -> RunSettingsView {
        RunSettingsView {
            dir: self.dir@,
            bin: self.bin@,
            server_args: self.server_args@,
            base_url: self.base_url@,
            wait_seconds: self.wait_seconds,
            start_server: self.start_server,
        }
    }
}

/// The server's arguments and address, the test items, and the seconds to wait for the
/// server, read in this order; or the first that fails.
pub open spec fn common_settings(config: Json) -> Result<(Seq<char>, Seq<char>, Json, u64), ConfigFault> {
    match server_settings(config) {
        Err(e) => Err(e),
        Ok((args, url)) => match value_at(config, "items"@) {
            Err(e) => Err(e),
            Ok(items) => match unsigned_at(items, "wait_seconds"@) {
                Err(e) => Err(e),
                Ok(wait) => Ok((args, url, items, wait)),
            },
        },
    }
}

/// The project directory and the build command, read in this order.
pub open spec fn build_settings(config: Json) -> Result<(Seq<char>, Seq<char>), ConfigFault> {
    match string_at(config, "directory"@) {
        Err(e) => Err(e),
        Ok(dir) => match string_at(config, "build"@) {
            Err(e) => Err(e),
            Ok(build) => Ok((dir, build)),
        },
    }
}

/// The settings of the test runs: when the tests start the server, the directory and
/// build command are read, then (after the build) the server's binary.
pub open spec fn run_settings(version: Version, config: Json) -> Result<RunSettingsView, ConfigFault> {
    match common_settings(config) {
        Err(e) => Err(e),
        Ok((args, url, items, wait)) => if version is Release {
            match build_settings(config) {
                Err(e) => Err(e),
                Ok((dir, build)) => match string_at(config, "bin"@) {
                    Err(e) => Err(e),
                    Ok(bin) => Ok(
                        RunSettingsView {
                            dir,
                            bin,
                            server_args: args,
                            base_url: url,
                            wait_seconds: wait,
                            start_server: true,
                        },
                    ),
                },
            }
        } else {
            Ok(
                RunSettingsView {
                    dir: Seq::empty(),
                    bin: Seq::empty(),
                    server_args: args,
                    base_url: url,
                    wait_seconds: wait,
                    start_server: false,
                },
            )
        },
    }
}

/// The list `key` of the advanced test items.
pub open spec fn advanced_items(config: Json, key: Seq<char>) -> Result<Json, ConfigFault> {
    match value_at(config, "items"@) {
        Err(e) => Err(e),
        Ok(items) => match value_at(items, "advanced"@) {
            Err(e) => Err(e),
            Ok(advanced) => value_at(advanced, key),
        },
    }
}

/// Where a test session stands.
#[derive(Debug, PartialEq, Eq)]
pub enum TestState {
    /// Nothing was done yet.
    Ready,
    /// The server is being built.
    Building,
    /// The HTTP tests are running.
    Http,
    /// The pipelining tests are running, after the HTTP tests gave `http`.
    Pipelining { http: RunTally },
    /// The proxy tests are running.
    Proxy { http: RunTally, pipe: RunTally },
    /// The performance tests are running.
    Performance { http: RunTally, pipe: RunTally, proxy: RunTally },
    /// The session is over.
    Over,
}

/// The content of a `TestState`.
pub enum TestStateView {
    Ready,
    Building,
    Http,
    Pipelining { http: RunTally },
    Proxy { http: RunTally, pipe: RunTally },
    Performance { http: RunTally, pipe: RunTally, proxy: RunTally },
    Over,
}

impl View for TestState {
    type V = TestStateView;

    open spec fn view(&self) -> TestStateView {
        match self {
            TestState::Ready => TestStateView::Ready,
            TestState::Building => TestStateView::Building,
            TestState::Http => TestStateView::Http,
            TestState::Pipelining { http } => TestStateView::Pipelining { http: *http },
            TestState::Proxy { http, pipe } => TestStateView::Proxy { http: *http, pipe: *pipe },
            TestState::Performance { http, pipe, proxy } => TestStateView::Performance {
                http: *http,
                pipe: *pipe,
                proxy: *proxy,
            },
            TestState::Over => TestStateView::Over,
        }
    }
}

impl TestState {
    /// The state before anything is done.
    pub fn start() -> (r: TestState)
        ensures
            r@ == TestStateView::Ready,
    {
        TestState::Ready
    }
}

/// What a test session asks to be done next.
#[derive(Debug, PartialEq, Eq)]
pub enum TestAction {
    /// Run the build command in the directory; answer with `Built` or `Failed`.
    Build { dir: String, command: String },
    /// Run the HTTP tests on the test items; answer with `Tally` or `Failed`.
    Http { settings: RunSettings, items: JsonValue },
    /// Run the pipelining tests on these items; answer with `Tally` or `Failed`.
    Pipelining { settings: RunSettings, items: JsonValue },
    /// Run the proxy tests on these items; answer with `Tally` or `Failed`.
    Proxy { settings: RunSettings, items: JsonValue },
    /// Run the performance tests on these items; answer with `Finished` or `Failed`.
    Performance { settings: RunSettings, items: JsonValue },
    /// Report the results; the performance results are reported when `performance` holds.
    Report { http: RunTally, pipe: Option<RunTally>, proxy: Option<RunTally>, performance: bool },
    /// The session failed.
    Fail(Fault),
}

/// The content of a `TestAction`.
pub enum TestActionView {
    Build { dir: Seq<char>, command: Seq<char> },
    Http { settings: RunSettingsView, items: Json },
    Pipelining { settings: RunSettingsView, items: Json },
    Proxy { settings: RunSettingsView, items: Json },
    Performance { settings: RunSettingsView, items: Json },
    Report { http: RunTally, pipe: Option<RunTally>, proxy: Option<RunTally>, performance: bool },
    Fail(FaultView),
}

impl View for TestAction {
    type V = TestActionView;

    open spec fn view(&self) -> TestActionView {
        match self {
            TestAction::Build { dir, command } => TestActionView::Build { dir: dir@, command: command@ },
            TestAction::Http { settings, items } => TestActionView::Http { settings: settings@, items: items@ },
            TestAction::Pipelining { settings, items } => TestActionView::Pipelining {
                settings: settings@,
                items: items@,
            },
            TestAction::Proxy { settings, items } => TestActionView::Proxy { settings: settings@, items: items@ },
            TestAction::Performance { settings, items } => TestActionView::Performance {
                settings: settings@,
                items: items@,
            },
            TestAction::Report { http, pipe, proxy, performance } => TestActionView::Report {
                http: *http,
                pipe: *pipe,
                proxy: *proxy,
                performance: *performance,
            },
            TestAction::Fail(f) => TestActionView::Fail(f@),
        }
    }
}

/// What the last action of a session gave back.
#[derive(Debug, PartialEq, Eq)]
pub enum TestEvent {
    /// The session begins.
    Begin,
    /// The server was built.
    Built,
    /// A test run ended with this tally.
    Tally(RunTally),
    /// The performance tests ended.
    Finished,
    /// The action failed, with its message.
    Failed(String),
}

/// The content of a `TestEvent`.
pub enum TestEventView {
    Begin,
    Built,
    Tally(RunTally),
    Finished,
    Failed(Seq<char>),
}

impl View for TestEvent {
    type V = TestEventView;

    open spec fn view(&self) -> TestEventView {
        match self {
            TestEvent::Begin => TestEventView::Begin,
            TestEvent::Built => TestEventView::Built,
            TestEvent::Tally(t) => TestEventView::Tally(*t),
            TestEvent::Finished => TestEventView::Finished,
            TestEvent::Failed(m) => TestEventView::Failed(m@),
        }
    }
}

/// The session fails on this configuration fault.
pub open spec fn config_failure(e: ConfigFault) -> (TestStateView, TestActionView) {
    (TestStateView::Over, TestActionView::Fail(FaultView::Config(e)))
}

/// The session fails: an event came that the state does not wait for.
pub open spec fn out_of_turn() -> (TestStateView, TestActionView) {
    (TestStateView::Over, TestActionView::Fail(FaultView::OutOfOrder))
}

/// The HTTP tests, with the session's settings.
pub open spec fn http_run(version: Version, config: Json) -> (TestStateView, TestActionView) {
    match run_settings(version, config) {
        Err(e) => config_failure(e),
        Ok(settings) => match common_settings(config) {
            Ok((args, url, items, wait)) => (TestStateView::Http, TestActionView::Http { settings, items }),
            Err(e) => config_failure(e),
        },
    }
}

/// The advanced test list `key`, with the session's settings, as the action that runs it.
pub open spec fn advanced_run(version: Version, config: Json, key: Seq<char>) -> Result<(RunSettingsView, Json), ConfigFault> {
    match advanced_items(config, key) {
        Err(e) => Err(e),
        Ok(items) => match run_settings(version, config) {
            Err(e) => Err(e),
            Ok(settings) => Ok((settings, items)),
        },
    }
}

/// One step of a test session. The settings are read first; when the tests start the
/// server, the server is built before any test runs. The HTTP tests run first; in the
/// `advanced` mode the pipelining, proxy and performance tests follow, in this order,
/// and in any other mode none of them runs. The first failure ends the session;
/// otherwise it ends with the report.
pub open spec fn test_next(version: Version, mode: Seq<char>, config: Json, s: TestStateView, ev: TestEventView) -> (TestStateView, TestActionView) {
    match s {
        TestStateView::Ready => match ev {
            TestEventView::Begin => match common_settings(config) {
                Err(e) => config_failure(e),
                Ok(_) => if version is Release {
                    match build_settings(config) {
                        Err(e) => config_failure(e),
                        Ok((dir, build)) => (
                            TestStateView::Building,
                            TestActionView::Build { dir, command: build },
                        ),
                    }
                } else {
                    http_run(version, config)
                },
            },
            _ => out_of_turn(),
        },
        TestStateView::Building => match ev {
            TestEventView::Built => http_run(version, config),
            TestEventView::Failed(m) => (TestStateView::Over, TestActionView::Fail(FaultView::Io(m))),
            _ => out_of_turn(),
        },
        TestStateView::Http => match ev {
            TestEventView::Tally(http) => if mode == "advanced"@ {
                match advanced_run(version, config, "pipelining"@) {
                    Err(e) => config_failure(e),
                    Ok((settings, items)) => (
                        TestStateView::Pipelining { http },
                        TestActionView::Pipelining { settings, items },
                    ),
                }
            } else {
                (
                    TestStateView::Over,
                    TestActionView::Report { http, pipe: None, proxy: None, performance: false },
                )
            },
            TestEventView::Failed(m) => (TestStateView::Over, TestActionView::Fail(FaultView::Io(m))),
            _ => out_of_turn(),
        },
        TestStateView::Pipelining { http } => match ev {
            TestEventView::Tally(pipe) => match advanced_run(version, config, "proxy"@) {
                Err(e) => config_failure(e),
                Ok((settings, items)) => (
                    TestStateView::Proxy { http, pipe },
                    TestActionView::Proxy { settings, items },
                ),
            },
            TestEventView::Failed(m) => (TestStateView::Over, TestActionView::Fail(FaultView::Io(m))),
            _ => out_of_turn(),
        },
        TestStateView::Proxy { http, pipe } => match ev {
            TestEventView::Tally(proxy) => match advanced_run(version, config, "performance"@) {
                Err(e) => config_failure(e),
                Ok((settings, items)) => (
                    TestStateView::Performance { http, pipe, proxy },
                    TestActionView::Performance { settings, items },
                ),
            },
            TestEventView::Failed(m) => (TestStateView::Over, TestActionView::Fail(FaultView::Io(m))),
            _ => out_of_turn(),
        },
        TestStateView::Performance { http, pipe, proxy } => match ev {
            TestEventView::Finished => (
                TestStateView::Over,
                TestActionView::Report { http, pipe: Some(pipe), proxy: Some(proxy), performance: true },
            ),
            TestEventView::Failed(m) => (TestStateView::Over, TestActionView::Fail(FaultView::Io(m))),
            _ => out_of_turn(),
        },
        TestStateView::Over => out_of_turn(),
    }
}

fn common_of(config: &JsonValue) -> (r: Result<(String, String, JsonValue, u64), ConfigError>)
    ensures
        match r {
            Ok((args, url, items, wait)) => common_settings(config@) == Ok::<(Seq<char>, Seq<char>, Json, u64), ConfigFault>(
                (args@, url@, items@, wait),
            ),
            Err(e) => common_settings(config@) == Err::<(Seq<char>, Seq<char>, Json, u64), ConfigFault>(e@),
        },
{
    let (args, url) = parse_server_args(config)?;
    let items = get_json_value(config, "items")?;
    let wait = get_json_value_as_u64(&items, "wait_seconds")?;
    Ok((args, url, items, wait))
}

fn build_of(config: &JsonValue) -> (r: Result<(String, String), ConfigError>)
    ensures
        match r {
            Ok((dir, build)) => build_settings(config@) == Ok::<(Seq<char>, Seq<char>), ConfigFault>((dir@, build@)),
            Err(e) => build_settings(config@) == Err::<(Seq<char>, Seq<char>), ConfigFault>(e@),
        },
{
    let dir = get_json_value_as_string(config, "directory")?;
    let build = get_json_value_as_string(config, "build")?;
    Ok((dir, build))
}

fn settings_of(version: &Version, config: &JsonValue) -> (r: Result<RunSettings, ConfigError>)
    ensures
        match r {
            Ok(st) => run_settings(*version, config@) == Ok::<RunSettingsView, ConfigFault>(st@),
            Err(e) => run_settings(*version, config@) == Err::<RunSettingsView, ConfigFault>(e@),
        },
{
    let (args, url, _items, wait) = common_of(config)?;
    if version.starts_server() {
        let (dir, _build) = build_of(config)?;
        let bin = get_json_value_as_string(config, "bin")?;
        Ok(RunSettings { dir, bin, server_args: args, base_url: url, wait_seconds: wait, start_server: true })
    } else {
        let dir = String::new();
        let bin = String::new();
        Ok(RunSettings { dir, bin, server_args: args, base_url: url, wait_seconds: wait, start_server: false })
    }
}

fn advanced_items_of(config: &JsonValue, key: &str) -> (r: Result<JsonValue, ConfigError>)
    ensures
        match r {
            Ok(v) => advanced_items(config@, key@) == Ok::<Json, ConfigFault>(v@),
            Err(e) => advanced_items(config@, key@) == Err::<Json, ConfigFault>(e@),
        },
{
    let items = get_json_value(config, "items")?;
    let advanced = get_json_value(&items, "advanced")?;
    get_json_value(&advanced, key)
}

fn http_run_step(version: &Version, config: &JsonValue) -> (r: (TestState, TestAction))
    ensures
        (r.0@, r.1@) == http_run(*version, config@),
{
    match settings_of(version, config) {
        Err(e) => (TestState::Over, TestAction::Fail(Fault::Config(e))),
        Ok(settings) => match common_of(config) {
            Ok((_args, _url, items, _wait)) => (TestState::Http, TestAction::Http { settings, items }),
            Err(e) => (TestState::Over, TestAction::Fail(Fault::Config(e))),
        },
    }
}

fn advanced_run_of(version: &Version, config: &JsonValue, key: &str) -> (r: Result<(RunSettings, JsonValue), ConfigError>)
    ensures
        match r {
            Ok((st, items)) => advanced_run(*version, config@, key@) == Ok::<(RunSettingsView, Json), ConfigFault>(
                (st@, items@),
            ),
            Err(e) => advanced_run(*version, config@, key@) == Err::<(RunSettingsView, Json), ConfigFault>(e@),
        },
{
    let items = advanced_items_of(config, key)?;
    let settings = settings_of(version, config)?;
    Ok((settings, items))
}

/// One step of a test session of `version` in `mode` on the configuration `config`.
pub fn test_step(version: &Version, mode: &str, config: &JsonValue, s: TestState, ev: TestEvent) -> (r: (TestState, TestAction))
    ensures
        (r.0@, r.1@) == test_next(*version, mode@, config@, s@, ev@),
{
    match s {
        TestState::Ready => match ev {
            TestEvent::Begin => match common_of(config) {
                Err(e) => (TestState::Over, TestAction::Fail(Fault::Config(e))),
                Ok(_) => {
                    if version.starts_server() {
                        match build_of(config) {
                            Err(e) => (TestState::Over, TestAction::Fail(Fault::Config(e))),
                            Ok((dir, command)) => (TestState::Building, TestAction::Build { dir, command }),
                        }
                    } else {
                        http_run_step(version, config)
                    }
                },
            },
            _ => (TestState::Over, TestAction::Fail(Fault::OutOfOrder)),
        },
        TestState::Building => match ev {
            TestEvent::Built => http_run_step(version, config),
            TestEvent::Failed(m) => (TestState::Over, TestAction::Fail(Fault::Io(m))),
            _ => (TestState::Over, TestAction::Fail(Fault::OutOfOrder)),
        },
        TestState::Http => match ev {
            TestEvent::Tally(http) => {
                if runs_advanced_tests(mode) {
                    match advanced_run_of(version, config, "pipelining") {
                        Err(e) => (TestState::Over, TestAction::Fail(Fault::Config(e))),
                        Ok((settings, items)) => (
                            TestState::Pipelining { http },
                            TestAction::Pipelining { settings, items },
                        ),
                    }
                } else {
                    (TestState::Over, TestAction::Report { http, pipe: None, proxy: None, performance: false })
                }
            },
            TestEvent::Failed(m) => (TestState::Over, TestAction::Fail(Fault::Io(m))),
            _ => (TestState::Over, TestAction::Fail(Fault::OutOfOrder)),
        },
        TestState::Pipelining { http } => match ev {
            TestEvent::Tally(pipe) => match advanced_run_of(version, config, "proxy") {
                Err(e) => (TestState::Over, TestAction::Fail(Fault::Config(e))),
                Ok((settings, items)) => (TestState::Proxy { http, pipe }, TestAction::Proxy { settings, items }),
            },
            TestEvent::Failed(m) => (TestState::Over, TestAction::Fail(Fault::Io(m))),
            _ => (TestState::Over, TestAction::Fail(Fault::OutOfOrder)),
        },
        TestState::Proxy { http, pipe } => match ev {
            TestEvent::Tally(proxy) => match advanced_run_of(version, config, "performance") {
                Err(e) => (TestState::Over, TestAction::Fail(Fault::Config(e))),
                Ok((settings, items)) => (
                    TestState::Performance { http, pipe, proxy },
                    TestAction::Performance { settings, items },
                ),
            },
            TestEvent::Failed(m) => (TestState::Over, TestAction::Fail(Fault::Io(m))),
            _ => (TestState::Over, TestAction::Fail(Fault::OutOfOrder)),
        },
        TestState::Performance { http, pipe, proxy } => match ev {
            TestEvent::Finished => (
                TestState::Over,
                TestAction::Report { http, pipe: Some(pipe), proxy: Some(proxy), performance: true },
            ),
            TestEvent::Failed(m) => (TestState::Over, TestAction::Fail(Fault::Io(m))),
            _ => (TestState::Over, TestAction::Fail(Fault::OutOfOrder)),
        },
        TestState::Over => (TestState::Over, TestAction::Fail(Fault::OutOfOrder)),
    }
}


/// The actions that a session standing at `s` asks for, one for each of `events`.
pub open spec fn test_trace(version: Version, mode: Seq<char>, config: Json, s: TestStateView, events: Seq<TestEventView>) -> Seq<TestActionView>
    decreases events.len(),
{
    if events.len() == 0 {
        Seq::empty()
    } else {
        let (s2, a2) = test_next(version, mode, config, s, events[0]);
        seq![a2] + test_trace(version, mode, config, s2, events.drop_first())
    }
}

/// Whether an action runs tests.
pub open spec fn is_run(a: TestActionView) -> bool {
    a is Http || a is Pipelining || a is Proxy || a is Performance
}

/// Whether an action runs the pipelining, proxy or performance tests.
pub open spec fn is_advanced_run(a: TestActionView) -> bool {
    a is Pipelining || a is Proxy || a is Performance
}

/// The settings that a test run is given.
pub open spec fn settings_given(a: TestActionView) -> Option<RunSettingsView> {
    match a {
        TestActionView::Http { settings, .. } => Some(settings),
        TestActionView::Pipelining { settings, .. } => Some(settings),
        TestActionView::Proxy { settings, .. } => Some(settings),
        TestActionView::Performance { settings, .. } => Some(settings),
        _ => None,
    }
}

/// A state after the build was asked for.
pub open spec fn after_build(s: TestStateView) -> bool {
    s is Building || s is Http || s is Pipelining || s is Proxy || s is Performance
}

/// A state in which the advanced tests run.
pub open spec fn in_advanced(s: TestStateView) -> bool {
    s is Pipelining || s is Proxy || s is Performance
}

proof fn lemma_trace_index(version: Version, mode: Seq<char>, config: Json, s: TestStateView, events: Seq<TestEventView>, i: int)
    requires
        0 <= i < events.len(),
    ensures
        test_trace(version, mode, config, s, events).len() == events.len(),
        i == 0 ==> test_trace(version, mode, config, s, events)[i] == test_next(version, mode, config, s, events[0]).1,
        i > 0 ==> test_trace(version, mode, config, s, events)[i] == test_trace(
            version,
            mode,
            config,
            test_next(version, mode, config, s, events[0]).0,
            events.drop_first(),
        )[i - 1],
    decreases events.len(),
{
    lemma_trace_len(version, mode, config, s, events);
}

proof fn lemma_trace_len(version: Version, mode: Seq<char>, config: Json, s: TestStateView, events: Seq<TestEventView>)
    ensures
        test_trace(version, mode, config, s, events).len() == events.len(),
    decreases events.len(),
{
    if events.len() > 0 {
        let (s2, _) = test_next(version, mode, config, s, events[0]);
        lemma_trace_len(version, mode, config, s2, events.drop_first());
    }
}

/// In a session whose tests do not start the server, whatever the events, no build is
/// asked for and every test run is told not to start the server.
pub proof fn lemma_debug_builds_and_starts_nothing(mode: Seq<char>, config: Json, s: TestStateView, events: Seq<TestEventView>)
    ensures
        forall|i: int|
            0 <= i < events.len() ==> !(#[trigger] test_trace(Version::Debug, mode, config, s, events)[i] is Build),
        forall|i: int|
            0 <= i < events.len() ==> (#[trigger] settings_given(test_trace(Version::Debug, mode, config, s, events)[i]) matches Some(st)
                ==> !st.start_server),
    decreases events.len(),
{
    if events.len() > 0 {
        let (s2, a2) = test_next(Version::Debug, mode, config, s, events[0]);
        lemma_debug_builds_and_starts_nothing(mode, config, s2, events.drop_first());
        assert forall|i: int| 0 <= i < events.len() implies !(#[trigger] test_trace(Version::Debug, mode, config, s, events)[i] is Build)
            && (settings_given(test_trace(Version::Debug, mode, config, s, events)[i]) matches Some(st) ==> !st.start_server) by {
            lemma_trace_index(Version::Debug, mode, config, s, events, i);
        }
    }
}

/// In a session whose tests start the server, from any state before the build, every
/// test run comes after a build was asked for.
pub proof fn lemma_release_builds_first(mode: Seq<char>, config: Json, s: TestStateView, events: Seq<TestEventView>)
    requires
        !after_build(s),
    ensures
        forall|i: int|
            0 <= i < events.len() && is_run(#[trigger] test_trace(Version::Release, mode, config, s, events)[i])
                ==> exists|j: int| 0 <= j < i && (#[trigger] test_trace(Version::Release, mode, config, s, events)[j]) is Build,
    decreases events.len(),
{
    if events.len() > 0 {
        let trace = test_trace(Version::Release, mode, config, s, events);
        let (s2, a2) = test_next(Version::Release, mode, config, s, events[0]);
        let rest = test_trace(Version::Release, mode, config, s2, events.drop_first());
        lemma_trace_len(Version::Release, mode, config, s, events);
        if !after_build(s2) {
            lemma_release_builds_first(mode, config, s2, events.drop_first());
        }
        assert forall|i: int|
            0 <= i < events.len() && is_run(#[trigger] trace[i]) implies exists|j: int| 0 <= j < i && (#[trigger] trace[j]) is Build by {
            lemma_trace_index(Version::Release, mode, config, s, events, i);
            lemma_trace_index(Version::Release, mode, config, s, events, 0);
            if i > 0 {
                if after_build(s2) {
                    assert(trace[0] is Build);
                } else {
                    assert(is_run(rest[i - 1]));
                    let j = choose|j: int| 0 <= j < i - 1 && (#[trigger] rest[j]) is Build;
                    lemma_trace_index(Version::Release, mode, config, s, events, j + 1);
                    assert(trace[j + 1] is Build);
                }
            }
        }
    }
}

/// Whatever the events, the pipelining, proxy and performance tests run only in the
/// `advanced` mode.
pub proof fn lemma_advanced_runs_only_in_advanced_mode(version: Version, mode: Seq<char>, config: Json, s: TestStateView, events: Seq<TestEventView>)
    requires
        in_advanced(s) ==> mode == "advanced"@,
    ensures
        forall|i: int|
            0 <= i < events.len() && is_advanced_run(#[trigger] test_trace(version, mode, config, s, events)[i])
                ==> mode == "advanced"@,
    decreases events.len(),
{
    if events.len() > 0 {
        let (s2, a2) = test_next(version, mode, config, s, events[0]);
        lemma_advanced_runs_only_in_advanced_mode(version, mode, config, s2, events.drop_first());
        assert forall|i: int|
            0 <= i < events.len() && is_advanced_run(#[trigger] test_trace(version, mode, config, s, events)[i])
            implies mode == "advanced"@ by {
            lemma_trace_index(version, mode, config, s, events, i);
        }
    }
}

/// After the HTTP tests, the `advanced` mode goes on to the pipelining tests (or fails
/// on their list), then to the proxy tests, then to the performance tests; any other
/// mode reports the HTTP tests alone.
pub proof fn lemma_after_http(version: Version, mode: Seq<char>, config: Json, http: RunTally, pipe: RunTally, proxy: RunTally)
    ensures
        mode == "advanced"@ ==> test_next(version, mode, config, TestStateView::Http, TestEventView::Tally(http)).1 is Pipelining
            || test_next(version, mode, config, TestStateView::Http, TestEventView::Tally(http)).1 is Fail,
        mode != "advanced"@ ==> test_next(version, mode, config, TestStateView::Http, TestEventView::Tally(http)).1
            == (TestActionView::Report { http, pipe: None, proxy: None, performance: false }),
        test_next(version, mode, config, TestStateView::Pipelining { http }, TestEventView::Tally(pipe)).1 is Proxy
            || test_next(version, mode, config, TestStateView::Pipelining { http }, TestEventView::Tally(pipe)).1 is Fail,
        test_next(version, mode, config, TestStateView::Proxy { http, pipe }, TestEventView::Tally(proxy)).1 is Performance
            || test_next(version, mode, config, TestStateView::Proxy { http, pipe }, TestEventView::Tally(proxy)).1 is Fail,
        test_next(version, mode, config, TestStateView::Performance { http, pipe, proxy }, TestEventView::Finished).1
            == (TestActionView::Report { http, pipe: Some(pipe), proxy: Some(proxy), performance: true }),
{
}


/// In the `advanced` mode, once the HTTP run has answered with its tally, the session
/// runs the pipelining, proxy and performance lists in this order, each with the
/// session's settings, and reports every tally under the run that gave it: the HTTP
/// tally as the HTTP result, the pipelining tally as the pipelining result and the
/// proxy tally as the proxy result.
pub proof fn lemma_advanced_session_reports_each_tally(version: Version, config: Json, http: RunTally, pipe: RunTally, proxy: RunTally)
    requires
        run_settings(version, config) is Ok,
        advanced_items(config, "pipelining"@) is Ok,
        advanced_items(config, "proxy"@) is Ok,
        advanced_items(config, "performance"@) is Ok,
    ensures
        test_trace(
            version,
            "advanced"@,
            config,
            TestStateView::Http,
            seq![
                TestEventView::Tally(http),
                TestEventView::Tally(pipe),
                TestEventView::Tally(proxy),
                TestEventView::Finished,
            ],
        ) == seq![
            TestActionView::Pipelining {
                settings: run_settings(version, config)->Ok_0,
                items: advanced_items(config, "pipelining"@)->Ok_0,
            },
            TestActionView::Proxy {
                settings: run_settings(version, config)->Ok_0,
                items: advanced_items(config, "proxy"@)->Ok_0,
            },
            TestActionView::Performance {
                settings: run_settings(version, config)->Ok_0,
                items: advanced_items(config, "performance"@)->Ok_0,
            },
            TestActionView::Report { http, pipe: Some(pipe), proxy: Some(proxy), performance: true },
        ],
{
    let mode = "advanced"@;
    let e = seq![
        TestEventView::Tally(http),
        TestEventView::Tally(pipe),
        TestEventView::Tally(proxy),
        TestEventView::Finished,
    ];
    let e1 = e.drop_first();
    let e2 = e1.drop_first();
    let e3 = e2.drop_first();
    assert(e[0] == TestEventView::Tally(http));
    assert(e1[0] == TestEventView::Tally(pipe));
    assert(e2[0] == TestEventView::Tally(proxy));
    assert(e3[0] == TestEventView::Finished);
    assert(e3.drop_first() =~= Seq::<TestEventView>::empty());
    let s1 = TestStateView::Pipelining { http };
    let s2 = TestStateView::Proxy { http, pipe };
    let s3 = TestStateView::Performance { http, pipe, proxy };
    assert(test_trace(version, mode, config, TestStateView::Over, e3.drop_first()) =~= Seq::<TestActionView>::empty());
    assert(test_trace(version, mode, config, s3, e3) =~= seq![
        TestActionView::Report { http, pipe: Some(pipe), proxy: Some(proxy), performance: true },
    ]);
    let st = run_settings(version, config)->Ok_0;
    let a3 = TestActionView::Performance { settings: st, items: advanced_items(config, "performance"@)->Ok_0 };
    let a2 = TestActionView::Proxy { settings: st, items: advanced_items(config, "proxy"@)->Ok_0 };
    let a1 = TestActionView::Pipelining { settings: st, items: advanced_items(config, "pipelining"@)->Ok_0 };
    assert(test_next(version, mode, config, s2, e2[0]) == (s3, a3));
    assert(test_next(version, mode, config, s1, e1[0]) == (s2, a2));
    assert(test_next(version, mode, config, TestStateView::Http, e[0]) == (s1, a1));
    let r = TestActionView::Report { http, pipe: Some(pipe), proxy: Some(proxy), performance: true };
    assert(test_trace(version, mode, config, s2, e2) =~= seq![a3] + seq![r]);
    assert(test_trace(version, mode, config, s1, e1) =~= seq![a2] + (seq![a3] + seq![r]));
    assert(test_trace(version, mode, config, TestStateView::Http, e) =~= seq![a1] + (seq![a2] + (seq![a3] + seq![r])));
}

/// In any other mode, once the HTTP run has answered with its tally, the session
/// reports that tally as the HTTP result and runs nothing more.
pub proof fn lemma_basic_session_reports_http_tally(version: Version, mode: Seq<char>, config: Json, http: RunTally)
    requires
        mode != "advanced"@,
    ensures
        test_trace(version, mode, config, TestStateView::Http, seq![TestEventView::Tally(http)]) == seq![
            TestActionView::Report { http, pipe: None, proxy: None, performance: false },
        ],
{
    let e = seq![TestEventView::Tally(http)];
    assert(e[0] == TestEventView::Tally(http));
    assert(e.drop_first() =~= Seq::<TestEventView>::empty());
    assert(test_trace(version, mode, config, TestStateView::Over, e.drop_first()) =~= Seq::<TestActionView>::empty());
}


/// A session starts from the configuration's own members: without starting the server
/// it runs the HTTP tests at once, on the member `items`, with the arguments and address
/// of the member `server`, the member `wait_seconds` of the items, and nothing to build
/// or start; when it starts the server it first builds it with the members `directory`
/// and `build`, and then runs the HTTP tests with the member `bin` as well.
pub proof fn lemma_session_starts_from_config(mode: Seq<char>, config: Json)
    requires
        server_settings(config) is Ok,
        value_at(config, "items"@) is Ok,
        unsigned_at(value_at(config, "items"@)->Ok_0, "wait_seconds"@) is Ok,
    ensures
        ({
            let args = server_settings(config)->Ok_0.0;
            let url = server_settings(config)->Ok_0.1;
            let items = value_at(config, "items"@)->Ok_0;
            let wait = unsigned_at(items, "wait_seconds"@)->Ok_0;
            &&& test_next(Version::Debug, mode, config, TestStateView::Ready, TestEventView::Begin) == (
                TestStateView::Http,
                TestActionView::Http {
                    settings: RunSettingsView {
                        dir: Seq::empty(),
                        bin: Seq::empty(),
                        server_args: args,
                        base_url: url,
                        wait_seconds: wait,
                        start_server: false,
                    },
                    items,
                },
            )
            &&& string_at(config, "directory"@) is Ok && string_at(config, "build"@) is Ok ==> test_next(
                Version::Release,
                mode,
                config,
                TestStateView::Ready,
                TestEventView::Begin,
            ) == (
                TestStateView::Building,
                TestActionView::Build {
                    dir: string_at(config, "directory"@)->Ok_0,
                    command: string_at(config, "build"@)->Ok_0,
                },
            )
            &&& string_at(config, "directory"@) is Ok && string_at(config, "build"@) is Ok && string_at(config, "bin"@) is Ok
                ==> test_next(Version::Release, mode, config, TestStateView::Building, TestEventView::Built) == (
                TestStateView::Http,
                TestActionView::Http {
                    settings: RunSettingsView {
                        dir: string_at(config, "directory"@)->Ok_0,
                        bin: string_at(config, "bin"@)->Ok_0,
                        server_args: args,
                        base_url: url,
                        wait_seconds: wait,
                        start_server: true,
                    },
                    items,
                },
            )
        }),
{
}

} // verus!

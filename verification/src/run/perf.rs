//! Performance tests: `ab` loads a path, and its report gives the rates.
use vstd::prelude::*;

use crate::config::{
    get_json_value_as_string, get_json_value_as_u64, string_at, unsigned_at, ConfigError,
    ConfigFault, ItemKind,
};
use crate::json::{elements_of, views_of, Json, JsonValue};
use crate::run::http::item_at;
use crate::run::item_list;
use crate::run::steps::{
    config_fail, io_fail, out_of_order, Action, ActionView, Event, EventView, Fault, FaultView,
};
use crate::text::{decimal, push_decimal, split, split_str, starts_with, starts_with_str};

verus! {

/// `ab -n {requests} -c {concurrency} {base_url}{path}`.
pub open spec fn ab_text(requests: u64, concurrency: u64, base_url: Seq<char>, path: Seq<char>) -> Seq<char> {
    "ab -n "@ + decimal(requests as nat) + " -c "@ + decimal(concurrency as nat) + " "@ + base_url + path
}

/// A performance test: the path, the number of requests, how many at a time, and the command.
pub struct PerfRequest {
    pub path: String,
    pub requests: u64,
    pub concurrency: u64,
    pub command: String,
}

/// The path, counts and command of a performance item, or the member that fails.
pub open spec fn perf_item(base_url: Seq<char>, item: Json) -> Result<(Seq<char>, u64, u64, Seq<char>), ConfigFault> {
    match string_at(item, "path"@) {
        Err(e) => Err(e),
        Ok(path) => match unsigned_at(item, "requests"@) {
            Err(e) => Err(e),
            Ok(requests) => match unsigned_at(item, "concurrency"@) {
                Err(e) => Err(e),
                Ok(concurrency) => Ok(
                    (path, requests, concurrency, ab_text(requests, concurrency, base_url, path)),
                ),
            },
        },
    }
}

/// Reads a performance item (members `path`, `requests` and `concurrency`) and builds its command.
pub fn perf_request(base_url: &str, item: &JsonValue) -> (r: Result<PerfRequest, ConfigError>)
    ensures
        match r {
            Ok(p) => perf_item(base_url@, item@) == Ok::<(Seq<char>, u64, u64, Seq<char>), ConfigFault>(
                (p.path@, p.requests, p.concurrency, p.command@),
            ),
            Err(e) => perf_item(base_url@, item@) == Err::<(Seq<char>, u64, u64, Seq<char>), ConfigFault>(e@),
        },
{
    let path = get_json_value_as_string(item, "path")?;
    let requests = get_json_value_as_u64(item, "requests")?;
    let concurrency = get_json_value_as_u64(item, "concurrency")?;
    let mut command = String::from_str("ab -n ");
    push_decimal(&mut command, requests);
    command.append(" -c ");
    push_decimal(&mut command, concurrency);
    command.append(" ");
    command.append(base_url);
    command.append(path.as_str());
    Ok(PerfRequest { path, requests, concurrency, command })
}

/// The last of `lines` that begins with `prefix`.
pub open spec fn last_line_with(lines: Seq<Seq<char>>, prefix: Seq<char>) -> Option<Seq<char>>
    decreases lines.len(),
{
    if lines.len() == 0 {
        None
    } else if starts_with(lines.last(), prefix) {
        Some(lines.last())
    } else {
        last_line_with(lines.drop_last(), prefix)
    }
}

/// The lines of `ab`'s report that give the requests per second and the time per
/// request: the last line that begins with `Requests per second:` and the last that
/// begins with `Time per request:`, each `None` when there is no such line.
pub fn parse_ab_outout(output: &str) -> (r: (Option<String>, Option<String>))
    ensures
        r.0 matches Some(l) ==> last_line_with(split(output@, "\n"@), "Requests per second:"@) == Some(l@),
        r.0 is None ==> last_line_with(split(output@, "\n"@), "Requests per second:"@) is None,
        r.1 matches Some(l) ==> last_line_with(split(output@, "\n"@), "Time per request:"@) == Some(l@),
        r.1 is None ==> last_line_with(split(output@, "\n"@), "Time per request:"@) is None,
{
    proof {
        reveal_strlit("\n");
    }
    let lines = split_str(output, "\n");
    let mut rate: Option<String> = None;
    let mut time: Option<String> = None;
    let mut k: usize = 0;
    while k < lines.len()
        invariant
            k <= lines.len(),
            lines.deep_view() == split(output@, "\n"@),
            rate matches Some(l) ==> last_line_with(lines.deep_view().take(k as int), "Requests per second:"@) == Some(l@),
            rate is None ==> last_line_with(lines.deep_view().take(k as int), "Requests per second:"@) is None,
            time matches Some(l) ==> last_line_with(lines.deep_view().take(k as int), "Time per request:"@) == Some(l@),
            time is None ==> last_line_with(lines.deep_view().take(k as int), "Time per request:"@) is None,
        decreases lines.len() - k,
    {
        proof {
            let taken = lines.deep_view().take(k + 1);
            assert(taken.drop_last() =~= lines.deep_view().take(k as int));
            assert(taken.last() == lines[k as int]@);
        }
        if starts_with_str(lines[k].as_str(), "Requests per second:") {
            rate = Some(lines[k].clone());
        }
        if starts_with_str(lines[k].as_str(), "Time per request:") {
            time = Some(lines[k].clone());
        }
        k = k + 1;
    }
    assert(lines.deep_view().take(k as int) =~= lines.deep_view());
    (rate, time)
}


/// The result of one performance item: its counts, and the lines of `ab`'s report that
/// give the requests per second and the time per request, when there are such lines.
#[derive(Debug, PartialEq, Eq)]
pub struct PerfResult {
    pub requests: u64,
    pub concurrency: u64,
    pub rate_line: Option<String>,
    pub time_line: Option<String>,
}

/// The content of a `PerfResult`.
pub struct PerfResultView {
    pub requests: u64,
    pub concurrency: u64,
    pub rate_line: Option<Seq<char>>,
    pub time_line: Option<Seq<char>>,
}

impl View for PerfResult {
    type V = PerfResultView;

    open spec fn view(&self) -> PerfResultView {
        PerfResultView {
            requests: self.requests,
            concurrency: self.concurrency,
            rate_line: match self.rate_line {
                Some(l) => Some(l@),
                None => None,
            },
            time_line: match self.time_line {
                Some(l) => Some(l@),
                None => None,
            },
        }
    }
}

/// The contents of a list of results.
pub open spec fn results_view(results: Seq<PerfResult>) -> Seq<PerfResultView> {
    results.map_values(|r: PerfResult| r@)
}

/// The result of a performance item with these counts whose `ab` run printed `output`.
pub open spec fn perf_result(requests: u64, concurrency: u64, output: Seq<char>) -> PerfResultView {
    PerfResultView {
        requests,
        concurrency,
        rate_line: last_line_with(split(output, "\n"@), "Requests per second:"@),
        time_line: last_line_with(split(output, "\n"@), "Time per request:"@),
    }
}

/// Where a performance run stands.
#[derive(Debug, PartialEq, Eq)]
pub enum PerfState {
    /// Nothing was done yet.
    Ready,
    /// The server was asked to start.
    Starting,
    /// `ab` was run for item `index`; `results` are those of the items before it.
    Running { index: usize, results: Vec<PerfResult> },
    /// The server was asked to stop.
    Stopping { results: Vec<PerfResult> },
    /// The run is over, with the results of all the items.
    Finished { results: Vec<PerfResult> },
    /// The run failed.
    Over,
}

/// The content of a `PerfState`.
pub enum PerfStateView {
    Ready,
    Starting,
    Running { index: usize, results: Seq<PerfResultView> },
    Stopping { results: Seq<PerfResultView> },
    Finished { results: Seq<PerfResultView> },
    Over,
}

impl View for PerfState {
    type V = PerfStateView;

    open spec fn view(&self) -> PerfStateView {
        match self {
            PerfState::Ready => PerfStateView::Ready,
            PerfState::Starting => PerfStateView::Starting,
            PerfState::Running { index, results } => PerfStateView::Running {
                index: *index,
                results: results_view(results@),
            },
            PerfState::Stopping { results } => PerfStateView::Stopping { results: results_view(results@) },
            PerfState::Finished { results } => PerfStateView::Finished { results: results_view(results@) },
            PerfState::Over => PerfStateView::Over,
        }
    }
}

impl PerfState {
    /// The state before anything is done.
    pub fn start() -> (r: PerfState)
        ensures
            r@ == PerfStateView::Ready,
    {
        PerfState::Ready
    }
}

/// The item after the current one can be counted.
pub open spec fn perf_state_ok(s: PerfStateView) -> bool {
    match s {
        PerfStateView::Running { index, .. } => index < usize::MAX,
        _ => true,
    }
}

/// The run fails on an event out of order while the server runs, and stops it.
pub open spec fn stop_out_of_order() -> ActionView {
    ActionView::Fail { fault: FaultView::OutOfOrder, stop_server: true }
}

/// A performance run at item `index`, with the server running: run `ab` for it, or stop
/// the server after the last item. A malformed item stops the server and fails the run.
pub open spec fn perf_advance(base_url: Seq<char>, items: Json, index: usize, results: Seq<PerfResultView>) -> (PerfStateView, ActionView) {
    match elements_of(items) {
        None => (PerfStateView::Over, stop_out_of_order()),
        Some(list) => if index >= list.len() {
            (PerfStateView::Stopping { results }, ActionView::StopServer)
        } else {
            match perf_item(base_url, list[index as int]) {
                Err(e) => (PerfStateView::Over, config_fail(e, true)),
                Ok((path, requests, concurrency, command)) => (
                    PerfStateView::Running { index, results },
                    ActionView::Run(command),
                ),
            }
        },
    }
}

/// One step of a performance run: the server is started, `ab` is run for each item and
/// its report read, and the server is stopped; the run ends with one result per item.
/// A failed `ab` run stops the server and fails the run.
pub open spec fn perf_next(server_args: Seq<char>, base_url: Seq<char>, items: Json, s: PerfStateView, ev: EventView) -> (PerfStateView, ActionView) {
    match s {
        PerfStateView::Ready => match ev {
            EventView::Begin => match elements_of(items) {
                None => (
                    PerfStateView::Over,
                    config_fail(ConfigFault::NotArray { item: ItemKind::Performance, value: items }, false),
                ),
                Some(_) => (PerfStateView::Starting, ActionView::StartServer(server_args)),
            },
            _ => (PerfStateView::Over, out_of_order()),
        },
        PerfStateView::Starting => match ev {
            EventView::Started => perf_advance(base_url, items, 0, Seq::empty()),
            EventView::Failed(m) => (PerfStateView::Over, io_fail(m)),
            _ => (PerfStateView::Over, out_of_order()),
        },
        PerfStateView::Running { index, results } => match ev {
            EventView::Output(output) => match item_at(items, index as int) {
                Some(item) => match perf_item(base_url, item) {
                    Ok((path, requests, concurrency, command)) => perf_advance(
                        base_url,
                        items,
                        (index + 1) as usize,
                        results.push(perf_result(requests, concurrency, output)),
                    ),
                    Err(_) => (PerfStateView::Over, stop_out_of_order()),
                },
                None => (PerfStateView::Over, stop_out_of_order()),
            },
            EventView::Failed(m) => (
                PerfStateView::Over,
                ActionView::Fail { fault: FaultView::Io(m), stop_server: true },
            ),
            _ => (PerfStateView::Over, stop_out_of_order()),
        },
        PerfStateView::Stopping { results } => match ev {
            EventView::Stopped => (PerfStateView::Finished { results }, ActionView::Finished),
            EventView::Failed(m) => (PerfStateView::Over, io_fail(m)),
            _ => (PerfStateView::Over, out_of_order()),
        },
        _ => (PerfStateView::Over, out_of_order()),
    }
}

fn perf_advance_step(base_url: &str, items: &JsonValue, index: usize, results: Vec<PerfResult>) -> (r: (PerfState, Action))
    ensures
        (r.0@, r.1@) == perf_advance(base_url@, items@, index, results_view(results@)),
        perf_state_ok(r.0@),
{
    match item_list(items, ItemKind::Performance) {
        Err(_) => (PerfState::Over, Action::Fail { fault: Fault::OutOfOrder, stop_server: true }),
        Ok(list) => {
            if index >= list.len() {
                (PerfState::Stopping { results }, Action::StopServer)
            } else {
                assert(views_of(list@)[index as int] == list@[index as int]@);
                match perf_request(base_url, &list[index]) {
                    Err(e) => (PerfState::Over, Action::Fail { fault: Fault::Config(e), stop_server: true }),
                    Ok(p) => (PerfState::Running { index, results }, Action::Run(p.command)),
                }
            }
        },
    }
}

/// One step of a performance run over `items`, where the server is started with
/// `server_args` and reached at `base_url`.
pub fn perf_step(server_args: &str, base_url: &str, items: &JsonValue, s: PerfState, ev: Event) -> (r: (PerfState, Action))
    requires
        perf_state_ok(s@),
    ensures
        (r.0@, r.1@) == perf_next(server_args@, base_url@, items@, s@, ev@),
        perf_state_ok(r.0@),
{
    match s {
        PerfState::Ready => match ev {
            Event::Begin => match item_list(items, ItemKind::Performance) {
                Err(e) => (PerfState::Over, Action::Fail { fault: Fault::Config(e), stop_server: false }),
                Ok(_) => (PerfState::Starting, Action::StartServer(server_args.to_owned())),
            },
            _ => (PerfState::Over, Action::Fail { fault: Fault::OutOfOrder, stop_server: false }),
        },
        PerfState::Starting => match ev {
            Event::Started => {
                let results: Vec<PerfResult> = Vec::new();
                proof {
                    assert(results_view(results@) =~= Seq::<PerfResultView>::empty());
                }
                perf_advance_step(base_url, items, 0, results)
            },
            Event::Failed(m) => (PerfState::Over, Action::Fail { fault: Fault::Io(m), stop_server: false }),
            _ => (PerfState::Over, Action::Fail { fault: Fault::OutOfOrder, stop_server: false }),
        },
        PerfState::Running { index, results } => match ev {
            Event::Output(output) => {
                let list = match item_list(items, ItemKind::Performance) {
                    Ok(list) => list,
                    Err(_) => {
                        return (PerfState::Over, Action::Fail { fault: Fault::OutOfOrder, stop_server: true });
                    },
                };
                if index >= list.len() {
                    return (PerfState::Over, Action::Fail { fault: Fault::OutOfOrder, stop_server: true });
                }
                assert(views_of(list@)[index as int] == list@[index as int]@);
                match perf_request(base_url, &list[index]) {
                    Ok(p) => {
                        let (rate_line, time_line) = parse_ab_outout(output.as_str());
                        let result = PerfResult { requests: p.requests, concurrency: p.concurrency, rate_line, time_line };
                        let mut results = results;
                        let ghost before = results@;
                        results.push(result);
                        proof {
                            assert(results_view(results@) =~= results_view(before).push(
                                perf_result(p.requests, p.concurrency, output@),
                            ));
                        }
                        perf_advance_step(base_url, items, index + 1, results)
                    },
                    Err(_) => (PerfState::Over, Action::Fail { fault: Fault::OutOfOrder, stop_server: true }),
                }
            },
            Event::Failed(m) => (PerfState::Over, Action::Fail { fault: Fault::Io(m), stop_server: true }),
            _ => (PerfState::Over, Action::Fail { fault: Fault::OutOfOrder, stop_server: true }),
        },
        PerfState::Stopping { results } => match ev {
            Event::Stopped => (PerfState::Finished { results }, Action::Finished),
            Event::Failed(m) => (PerfState::Over, Action::Fail { fault: Fault::Io(m), stop_server: false }),
            _ => (PerfState::Over, Action::Fail { fault: Fault::OutOfOrder, stop_server: false }),
        },
        _ => (PerfState::Over, Action::Fail { fault: Fault::OutOfOrder, stop_server: false }),
    }
}


/// Where a performance run that stands at `s`, having asked for `a`, stands after `events`.
pub open spec fn perf_after(server_args: Seq<char>, base_url: Seq<char>, items: Json, s: PerfStateView, a: ActionView, events: Seq<EventView>) -> (PerfStateView, ActionView)
    decreases events.len(),
{
    if events.len() == 0 {
        (s, a)
    } else {
        let (s2, a2) = perf_next(server_args, base_url, items, s, events[0]);
        perf_after(server_args, base_url, items, s2, a2, events.drop_first())
    }
}

/// The actions that a performance run standing at `s` asks for, one for each of `events`.
pub open spec fn perf_trace(server_args: Seq<char>, base_url: Seq<char>, items: Json, s: PerfStateView, events: Seq<EventView>) -> Seq<ActionView>
    decreases events.len(),
{
    if events.len() == 0 {
        Seq::empty()
    } else {
        let (s2, a2) = perf_next(server_args, base_url, items, s, events[0]);
        seq![a2] + perf_trace(server_args, base_url, items, s2, events.drop_first())
    }
}

/// Whether an action stops the server: asking for it, or failing with it.
pub open spec fn stops_server(a: ActionView) -> bool {
    a is StopServer || (a matches ActionView::Fail { stop_server, .. } && stop_server)
}

/// How many of `actions` stop the server.
pub open spec fn stop_count(actions: Seq<ActionView>) -> nat
    decreases actions.len(),
{
    if actions.len() == 0 {
        0
    } else {
        (if stops_server(actions[0]) {
            1nat
        } else {
            0nat
        }) + stop_count(actions.drop_first())
    }
}

/// A state after the server was asked to stop, or after the run ended.
pub open spec fn perf_after_stop(s: PerfStateView) -> bool {
    s is Stopping || s is Finished || s is Over
}

/// One step of a performance run and the server: the server runs only in the `Running`
/// state, which the run enters only from there or when the server has just started;
/// while it runs, every step either keeps it running and asks for a command, or stops
/// it; and a step that stops it leaves it stopped.
pub proof fn lemma_perf_step_stops_running_server(server_args: Seq<char>, base_url: Seq<char>, items: Json, s: PerfStateView, ev: EventView)
    ensures
        ({
            let (s2, a2) = perf_next(server_args, base_url, items, s, ev);
            let up = s is Running || (s is Starting && ev is Started);
            &&& (stops_server(a2) ==> up && perf_after_stop(s2))
            &&& (s2 is Running ==> up && a2 is Run)
            &&& (up ==> s2 is Running || stops_server(a2))
            &&& (a2 is StartServer ==> s is Ready)
            &&& (perf_after_stop(s) ==> perf_after_stop(s2) && !stops_server(a2))
        }),
{
}

/// Whatever the events, a performance run stops the server at most once, and not at
/// all once it has asked for the stop or ended.
pub proof fn lemma_perf_stops_server_at_most_once(server_args: Seq<char>, base_url: Seq<char>, items: Json, s: PerfStateView, events: Seq<EventView>)
    ensures
        stop_count(perf_trace(server_args, base_url, items, s, events)) <= (if perf_after_stop(s) {
            0nat
        } else {
            1nat
        }),
    decreases events.len(),
{
    if events.len() > 0 {
        let (s2, a2) = perf_next(server_args, base_url, items, s, events[0]);
        lemma_perf_step_stops_running_server(server_args, base_url, items, s, events[0]);
        lemma_perf_stops_server_at_most_once(server_args, base_url, items, s2, events.drop_first());
        let trace = perf_trace(server_args, base_url, items, s, events);
        assert(trace[0] == a2);
        assert(trace.drop_first() =~= perf_trace(server_args, base_url, items, s2, events.drop_first()));
    }
}

/// The performance items of a list, each well formed.
pub open spec fn perf_items_ready(base_url: Seq<char>, items: Json) -> bool {
    elements_of(items) matches Some(list) && forall|i: int| 0 <= i < list.len() ==> #[trigger] perf_item(base_url, list[i]) is Ok
}

/// The counts and command of well-formed item `i`.
pub open spec fn perf_item_at(base_url: Seq<char>, items: Json, i: int) -> (Seq<char>, u64, u64, Seq<char>) {
    perf_item(base_url, elements_of(items)->Some_0[i])->Ok_0
}

/// The results of the first `k` items, whose `ab` runs printed `outputs`.
pub open spec fn perf_results(base_url: Seq<char>, items: Json, outputs: Seq<Seq<char>>, k: int) -> Seq<PerfResultView> {
    Seq::new(
        k as nat,
        |i: int| perf_result(perf_item_at(base_url, items, i).1, perf_item_at(base_url, items, i).2, outputs[i]),
    )
}

/// The commands of the items from `k` on, then the stop of the server and the end.
pub open spec fn perf_tail(base_url: Seq<char>, items: Json, n: int, k: int) -> Seq<ActionView> {
    Seq::new((n - k) as nat, |i: int| ActionView::Run(perf_item_at(base_url, items, k + i).3)) + seq![
        ActionView::StopServer,
        ActionView::Finished,
    ]
}

/// The events of a performance run in which every `ab` run succeeds, after the start.
pub open spec fn perf_output_events(outputs: Seq<Seq<char>>) -> Seq<EventView> {
    outputs.map_values(|o: Seq<char>| EventView::Output(o)) + seq![EventView::Stopped]
}

proof fn lemma_perf_from(server_args: Seq<char>, base_url: Seq<char>, items: Json, outputs: Seq<Seq<char>>, k: int)
    requires
        perf_items_ready(base_url, items),
        elements_of(items)->Some_0.len() == outputs.len(),
        outputs.len() < usize::MAX,
        0 <= k <= outputs.len(),
    ensures
        ({
            let (s, a) = perf_advance(base_url, items, k as usize, perf_results(base_url, items, outputs, k));
            let events = perf_output_events(outputs.skip(k));
            &&& seq![a] + perf_trace(server_args, base_url, items, s, events) == perf_tail(base_url, items, outputs.len() as int, k)
            &&& perf_after(server_args, base_url, items, s, a, events) == (PerfStateView::Finished {
                results: perf_results(base_url, items, outputs, outputs.len() as int),
            }, ActionView::Finished)
        }),
    decreases outputs.len() - k,
{
    let n = outputs.len() as int;
    let list = elements_of(items)->Some_0;
    let r = perf_results(base_url, items, outputs, k);
    let (s, a) = perf_advance(base_url, items, k as usize, r);
    let events = perf_output_events(outputs.skip(k));
    if k == n {
        assert(outputs.skip(k) =~= Seq::<Seq<char>>::empty());
        assert(events =~= seq![EventView::Stopped]);
        assert(events.drop_first() =~= Seq::<EventView>::empty());
        assert(s == PerfStateView::Stopping { results: r });
        assert(events[0] == EventView::Stopped);
        let s1 = PerfStateView::Finished { results: r };
        assert(perf_next(server_args, base_url, items, s, events[0]) == (s1, ActionView::Finished));
        assert(perf_trace(server_args, base_url, items, s1, events.drop_first()) =~= Seq::<ActionView>::empty());
        assert(perf_after(server_args, base_url, items, s1, ActionView::Finished, events.drop_first()) == (s1, ActionView::Finished));
        assert(perf_trace(server_args, base_url, items, s, events) =~= seq![ActionView::Finished]);
        assert(seq![a] + seq![ActionView::Finished] =~= perf_tail(base_url, items, n, k));
    } else {
        assert(perf_item(base_url, list[k]) is Ok);
        let (path, requests, concurrency, command) = perf_item(base_url, list[k])->Ok_0;
        assert(a == ActionView::Run(command));
        assert(events[0] == EventView::Output(outputs[k]));
        assert(events.drop_first() =~= perf_output_events(outputs.skip(k + 1)));
        assert(item_at(items, k) == Some(list[k]));
        let r1 = perf_results(base_url, items, outputs, k + 1);
        assert(r1 =~= r.push(perf_result(requests, concurrency, outputs[k])));
        lemma_perf_from(server_args, base_url, items, outputs, k + 1);
        let (s1, a1) = perf_advance(base_url, items, (k + 1) as usize, r1);
        assert(perf_next(server_args, base_url, items, s, events[0]) == (s1, a1));
        assert(perf_trace(server_args, base_url, items, s, events) =~= seq![a1] + perf_trace(
            server_args,
            base_url,
            items,
            s1,
            events.drop_first(),
        ));
        assert(seq![a] + perf_tail(base_url, items, n, k + 1) =~= perf_tail(base_url, items, n, k));
    }
}

/// A performance run over well-formed items in which the server starts, every `ab` run
/// succeeds (item `i`'s printing `outputs[i]`) and the server stops asks for the start,
/// then each item's `ab` command in order, then the stop, and ends with one result per
/// item: its counts and the rate lines of its report.
pub proof fn lemma_perf_run(server_args: Seq<char>, base_url: Seq<char>, items: Json, outputs: Seq<Seq<char>>)
    requires
        perf_items_ready(base_url, items),
        elements_of(items)->Some_0.len() == outputs.len(),
        outputs.len() < usize::MAX,
    ensures
        ({
            let events = seq![EventView::Begin, EventView::Started] + perf_output_events(outputs);
            &&& perf_trace(server_args, base_url, items, PerfStateView::Ready, events) == seq![
                ActionView::StartServer(server_args),
            ] + perf_tail(base_url, items, outputs.len() as int, 0)
            &&& perf_after(server_args, base_url, items, PerfStateView::Ready, ActionView::Finished, events) == (
                PerfStateView::Finished { results: perf_results(base_url, items, outputs, outputs.len() as int) },
                ActionView::Finished,
            )
        }),
{
    let events = seq![EventView::Begin, EventView::Started] + perf_output_events(outputs);
    let tail = perf_output_events(outputs);
    assert(outputs.skip(0) =~= outputs);
    assert(perf_results(base_url, items, outputs, 0) =~= Seq::<PerfResultView>::empty());
    lemma_perf_from(server_args, base_url, items, outputs, 0);
    assert(events[0] == EventView::Begin);
    assert(events.drop_first()[0] == EventView::Started);
    assert(events.drop_first().drop_first() =~= tail);
    let (s, a) = perf_advance(base_url, items, 0, Seq::empty());
    assert(perf_next(server_args, base_url, items, PerfStateView::Ready, EventView::Begin) == (
        PerfStateView::Starting,
        ActionView::StartServer(server_args),
    ));
    assert(perf_next(server_args, base_url, items, PerfStateView::Starting, EventView::Started) == (s, a));
    assert(perf_after(server_args, base_url, items, PerfStateView::Starting, ActionView::StartServer(server_args), events.drop_first())
        == perf_after(server_args, base_url, items, s, a, tail));
    assert(perf_after(server_args, base_url, items, PerfStateView::Ready, ActionView::Finished, events)
        == perf_after(server_args, base_url, items, PerfStateView::Starting, ActionView::StartServer(server_args), events.drop_first()));
    assert(perf_trace(server_args, base_url, items, PerfStateView::Starting, events.drop_first()) =~= seq![a]
        + perf_trace(server_args, base_url, items, s, tail));
    assert(perf_trace(server_args, base_url, items, PerfStateView::Ready, events) =~= seq![ActionView::StartServer(server_args)]
        + perf_trace(server_args, base_url, items, PerfStateView::Starting, events.drop_first()));
}


/// A performance item whose `path` is a string and whose `requests` and `concurrency`
/// are non-negative integers.
pub open spec fn perf_entry_ready(item: Json) -> bool {
    string_at(item, "path"@) is Ok && unsigned_at(item, "requests"@) is Ok && unsigned_at(item, "concurrency"@) is Ok
}

/// The `ab` command of a well-formed performance item, from its members.
pub open spec fn ab_command_of(base_url: Seq<char>, item: Json) -> Seq<char> {
    "ab -n "@ + decimal(unsigned_at(item, "requests"@)->Ok_0 as nat) + " -c "@ + decimal(
        unsigned_at(item, "concurrency"@)->Ok_0 as nat,
    ) + " "@ + base_url + string_at(item, "path"@)->Ok_0
}

/// The result of a well-formed performance item whose `ab` run printed `output`: the
/// item's counts, and the last report lines on the requests per second and the time
/// per request.
pub open spec fn result_of(item: Json, output: Seq<char>) -> PerfResultView {
    PerfResultView {
        requests: unsigned_at(item, "requests"@)->Ok_0,
        concurrency: unsigned_at(item, "concurrency"@)->Ok_0,
        rate_line: last_line_with(split(output, "\n"@), "Requests per second:"@),
        time_line: last_line_with(split(output, "\n"@), "Time per request:"@),
    }
}

/// Each step of a performance run works on its own item: once the server has started,
/// the first item's `ab` command runs; when item `k`'s report is in, item `k`'s result
/// is kept after the earlier ones and item `k + 1`'s command runs, or the server is
/// stopped after the last item.
pub proof fn lemma_perf_steps_follow_items(server_args: Seq<char>, base_url: Seq<char>, items: Json, k: usize, results: Seq<PerfResultView>, output: Seq<char>)
    requires
        elements_of(items) matches Some(list) && k < list.len() && list.len() < usize::MAX,
        perf_entry_ready(elements_of(items)->Some_0[0]),
        perf_entry_ready(elements_of(items)->Some_0[k as int]),
        k + 1 < elements_of(items)->Some_0.len() ==> perf_entry_ready(elements_of(items)->Some_0[k + 1]),
    ensures
        ({
            let list = elements_of(items)->Some_0;
            let kept = results.push(result_of(list[k as int], output));
            &&& perf_next(server_args, base_url, items, PerfStateView::Starting, EventView::Started) == (
                PerfStateView::Running { index: 0, results: Seq::empty() },
                ActionView::Run(ab_command_of(base_url, list[0])),
            )
            &&& k + 1 < list.len() ==> perf_next(
                server_args,
                base_url,
                items,
                PerfStateView::Running { index: k, results },
                EventView::Output(output),
            ) == (
                PerfStateView::Running { index: (k + 1) as usize, results: kept },
                ActionView::Run(ab_command_of(base_url, list[k + 1])),
            )
            &&& k + 1 == list.len() ==> perf_next(
                server_args,
                base_url,
                items,
                PerfStateView::Running { index: k, results },
                EventView::Output(output),
            ) == (PerfStateView::Stopping { results: kept }, ActionView::StopServer)
        }),
{
    let list = elements_of(items)->Some_0;
    assert(item_at(items, k as int) == Some(list[k as int]));
}

} // verus!

//! Proxy tests: the server, started as a proxy for a remote host, must answer each
//! path as the remote host does.
use vstd::prelude::*;

use crate::config::{
    get_json_value, get_json_value_as_string, string_at, value_at, ConfigError, ConfigFault,
};
use crate::config::ItemKind;
use crate::json::{elements_of, text_of, views_of, Json, JsonValue};
use crate::run::http::{curl_get_command, curl_get_text, item_at, judged, member_text};
use crate::run::item_list;
use crate::run::steps::{
    config_fail, count_equal, io_fail, lemma_tally_counts, no_replies, out_of_order, record,
    record_verdict, tally_ok, tally_replies, Action, ActionView, Event, EventView, Fault,
    FaultView, RunTally,
};
use crate::text::str_eq;

verus! {

/// `{server_args} --proxy {host}`.
pub open spec fn proxy_args_text(server_args: Seq<char>, host: Seq<char>) -> Seq<char> {
    server_args + " --proxy "@ + host
}

/// A proxy test: the remote host, the arguments that start the server as its proxy,
/// and the list of paths (still to be read).
pub struct ProxyTarget {
    pub host: String,
    pub server_args: String,
    pub paths: JsonValue,
}

/// The host, the proxy's arguments and the paths of a proxy item, or the member that fails.
pub open spec fn proxy_item(server_args: Seq<char>, item: Json) -> Result<(Seq<char>, Seq<char>, Json), ConfigFault> {
    match string_at(item, "host"@) {
        Err(e) => Err(e),
        Ok(host) => match value_at(item, "paths"@) {
            Err(e) => Err(e),
            Ok(paths) => Ok((host, proxy_args_text(server_args, host), paths)),
        },
    }
}

/// Reads a proxy item (members `host` and `paths`).
pub fn proxy_target(server_args: &str, item: &JsonValue) -> (r: Result<ProxyTarget, ConfigError>)
    ensures
        match r {
            Ok(t) => proxy_item(server_args@, item@) == Ok::<(Seq<char>, Seq<char>, Json), ConfigFault>(
                (t.host@, t.server_args@, t.paths@),
            ),
            Err(e) => proxy_item(server_args@, item@) == Err::<(Seq<char>, Seq<char>, Json), ConfigFault>(e@),
        },
{
    let host = get_json_value_as_string(item, "host")?;
    let paths = get_json_value(item, "paths")?;
    let mut args = server_args.to_owned();
    args.append(" --proxy ");
    args.append(host.as_str());
    Ok(ProxyTarget { host, server_args: args, paths })
}

/// A path of a proxy test, or `PathNotString` when the entry is no string.
pub fn proxy_path(entry: &JsonValue) -> (r: Result<String, ConfigError>)
    ensures
        match r {
            Ok(p) => text_of(entry@) == Some(p@),
            Err(e) => text_of(entry@) is None && e@ == ConfigFault::PathNotString(entry@),
        },
{
    match entry.as_str() {
        Some(p) => Ok(p.to_owned()),
        None => Err(ConfigError::PathNotString(entry.deep_copy())),
    }
}


/// Where a proxy run stands.
#[derive(Debug, PartialEq, Eq)]
pub enum ProxyState {
    /// Proxy item `item` comes next; `tally` judged the paths before it.
    Next { item: usize, tally: RunTally },
    /// The server was asked to start as the proxy of item `item`.
    Starting { item: usize, tally: RunTally },
    /// The server's reply to path `path` of item `item` was asked for.
    Serving { item: usize, path: usize, tally: RunTally },
    /// The remote host's reply to that path was asked for; `received` is the server's.
    Remote { item: usize, path: usize, tally: RunTally, received: String },
    /// The server was asked to stop after item `item`.
    Stopping { item: usize, tally: RunTally },
    /// The run is over.
    Over,
}

/// The content of a `ProxyState`.
pub enum ProxyStateView {
    Next { item: usize, tally: RunTally },
    Starting { item: usize, tally: RunTally },
    Serving { item: usize, path: usize, tally: RunTally },
    Remote { item: usize, path: usize, tally: RunTally, received: Seq<char> },
    Stopping { item: usize, tally: RunTally },
    Over,
}

impl View for ProxyState {
    type V = ProxyStateView;

    open spec fn view(&self) -> ProxyStateView {
        match self {
            ProxyState::Next { item, tally } => ProxyStateView::Next { item: *item, tally: *tally },
            ProxyState::Starting { item, tally } => ProxyStateView::Starting {
                item: *item,
                tally: *tally,
            },
            ProxyState::Serving { item, path, tally } => ProxyStateView::Serving {
                item: *item,
                path: *path,
                tally: *tally,
            },
            ProxyState::Remote { item, path, tally, received } => ProxyStateView::Remote {
                item: *item,
                path: *path,
                tally: *tally,
                received: received@,
            },
            ProxyState::Stopping { item, tally } => ProxyStateView::Stopping {
                item: *item,
                tally: *tally,
            },
            ProxyState::Over => ProxyStateView::Over,
        }
    }
}

/// The tally counts no more passes than replies, and the counters can still grow.
pub open spec fn proxy_state_ok(s: ProxyStateView) -> bool {
    match s {
        ProxyStateView::Next { item, tally } => tally_ok(tally),
        ProxyStateView::Starting { item, tally } => tally_ok(tally) && item < usize::MAX,
        ProxyStateView::Serving { item, path, tally } => tally_ok(tally) && item < usize::MAX
            && path < usize::MAX && tally.all < usize::MAX,
        ProxyStateView::Remote { item, path, tally, .. } => tally_ok(tally) && item < usize::MAX
            && path < usize::MAX && tally.all < usize::MAX,
        ProxyStateView::Stopping { item, tally } => tally_ok(tally) && item < usize::MAX,
        ProxyStateView::Over => true,
    }
}

impl ProxyState {
    /// The state before the first proxy item.
    pub fn start() -> (r: ProxyState)
        ensures
            r@ == (ProxyStateView::Next { item: 0, tally: RunTally { all: 0, passes: 0 } }),
            proxy_state_ok(r@),
    {
        ProxyState::Next { item: 0, tally: RunTally::new() }
    }
}

/// A proxy run at item `item`: start the server as its proxy, or end with the tally.
pub open spec fn proxy_advance_item(server_args: Seq<char>, items: Json, item: usize, tally: RunTally) -> (ProxyStateView, ActionView) {
    match elements_of(items) {
        None => (
            ProxyStateView::Over,
            config_fail(ConfigFault::NotArray { item: ItemKind::Proxy, value: items }, false),
        ),
        Some(list) => if item >= list.len() {
            (ProxyStateView::Over, ActionView::Done(tally))
        } else {
            match proxy_item(server_args, list[item as int]) {
                Err(e) => (ProxyStateView::Over, config_fail(e, false)),
                Ok((host, args, paths)) => (
                    ProxyStateView::Starting { item, tally },
                    ActionView::StartServer(args),
                ),
            }
        },
    }
}

/// A proxy run at path `path` of item `item`, with the server running: ask the server
/// for it, or stop the server after the last path.
pub open spec fn proxy_advance_path(server_args: Seq<char>, base_url: Seq<char>, items: Json, item: usize, path: usize, tally: RunTally) -> (ProxyStateView, ActionView) {
    match item_at(items, item as int) {
        None => (ProxyStateView::Over, out_of_order()),
        Some(entry) => match proxy_item(server_args, entry) {
            Err(_) => (ProxyStateView::Over, out_of_order()),
            Ok((host, args, paths)) => match elements_of(paths) {
                None => (
                    ProxyStateView::Over,
                    config_fail(ConfigFault::NotArray { item: ItemKind::Paths, value: paths }, true),
                ),
                Some(list) => if path >= list.len() {
                    (ProxyStateView::Stopping { item, tally }, ActionView::StopServer)
                } else {
                    match text_of(list[path as int]) {
                        None => (
                            ProxyStateView::Over,
                            config_fail(ConfigFault::PathNotString(list[path as int]), true),
                        ),
                        Some(p) => if tally.all >= usize::MAX {
                            (
                                ProxyStateView::Over,
                                ActionView::Fail { fault: FaultView::TooManyReplies, stop_server: true },
                            )
                        } else {
                            (
                                ProxyStateView::Serving { item, path, tally },
                                ActionView::Run(curl_get_text(base_url, p)),
                            )
                        },
                    }
                },
            },
        },
    }
}

/// The remote host and path `path` of proxy item `item`, when both are well formed.
pub open spec fn proxy_path_at(server_args: Seq<char>, items: Json, item: usize, path: usize) -> Option<(Seq<char>, Seq<char>)> {
    match item_at(items, item as int) {
        Some(entry) => match proxy_item(server_args, entry) {
            Ok((host, args, paths)) => match item_at(paths, path as int) {
                Some(p) => match text_of(p) {
                    Some(t) => Some((host, t)),
                    None => None,
                },
                None => None,
            },
            Err(_) => None,
        },
        None => None,
    }
}

/// One step of a proxy run: for each item the server is started as the proxy of its
/// host, each path is fetched from the server and from the host, the pair counted as a
/// pass when the replies are equal, and the server is stopped.
pub open spec fn proxy_next(server_args: Seq<char>, base_url: Seq<char>, items: Json, s: ProxyStateView, ev: EventView) -> (ProxyStateView, ActionView) {
    match s {
        ProxyStateView::Next { item, tally } => match ev {
            EventView::Begin => proxy_advance_item(server_args, items, item, tally),
            _ => (ProxyStateView::Over, out_of_order()),
        },
        ProxyStateView::Starting { item, tally } => match ev {
            EventView::Started => proxy_advance_path(server_args, base_url, items, item, 0, tally),
            EventView::Failed(m) => (ProxyStateView::Over, io_fail(m)),
            _ => (ProxyStateView::Over, out_of_order()),
        },
        ProxyStateView::Serving { item, path, tally } => match ev {
            EventView::Output(received) => match proxy_path_at(server_args, items, item, path) {
                Some((host, p)) => (
                    ProxyStateView::Remote { item, path, tally, received },
                    ActionView::Run(curl_get_text(host, p)),
                ),
                None => (ProxyStateView::Over, out_of_order()),
            },
            EventView::Failed(m) => (ProxyStateView::Over, io_fail(m)),
            _ => (ProxyStateView::Over, out_of_order()),
        },
        ProxyStateView::Remote { item, path, tally, received } => match ev {
            EventView::Output(content) => proxy_advance_path(
                server_args,
                base_url,
                items,
                item,
                (path + 1) as usize,
                record(tally, content == received),
            ),
            EventView::Failed(m) => (ProxyStateView::Over, io_fail(m)),
            _ => (ProxyStateView::Over, out_of_order()),
        },
        ProxyStateView::Stopping { item, tally } => match ev {
            EventView::Stopped => proxy_advance_item(server_args, items, (item + 1) as usize, tally),
            EventView::Failed(m) => (ProxyStateView::Over, io_fail(m)),
            _ => (ProxyStateView::Over, out_of_order()),
        },
        ProxyStateView::Over => (ProxyStateView::Over, out_of_order()),
    }
}

fn proxy_advance_item_step(server_args: &str, items: &JsonValue, item: usize, tally: RunTally) -> (r: (ProxyState, Action))
    requires
        tally_ok(tally),
    ensures
        (r.0@, r.1@) == proxy_advance_item(server_args@, items@, item, tally),
        proxy_state_ok(r.0@),
{
    match item_list(items, ItemKind::Proxy) {
        Err(e) => (ProxyState::Over, Action::Fail { fault: Fault::Config(e), stop_server: false }),
        Ok(list) => {
            if item >= list.len() {
                (ProxyState::Over, Action::Done(tally))
            } else {
                assert(views_of(list@)[item as int] == list@[item as int]@);
                match proxy_target(server_args, &list[item]) {
                    Err(e) => (ProxyState::Over, Action::Fail { fault: Fault::Config(e), stop_server: false }),
                    Ok(t) => (ProxyState::Starting { item, tally }, Action::StartServer(t.server_args)),
                }
            }
        },
    }
}

/// The proxy item at `item`, which the run has already read once.
fn target_at(server_args: &str, items: &JsonValue, item: usize) -> (r: Option<ProxyTarget>)
    ensures
        match r {
            Some(t) => item_at(items@, item as int) matches Some(entry) && proxy_item(server_args@, entry)
                == Ok::<(Seq<char>, Seq<char>, Json), ConfigFault>((t.host@, t.server_args@, t.paths@)),
            None => !(item_at(items@, item as int) matches Some(entry) && proxy_item(server_args@, entry) is Ok),
        },
        r is Some ==> item < usize::MAX,
{
    match item_list(items, ItemKind::Proxy) {
        Ok(list) => {
            if item < list.len() {
                assert(views_of(list@)[item as int] == list@[item as int]@);
                match proxy_target(server_args, &list[item]) {
                    Ok(t) => Some(t),
                    Err(_) => None,
                }
            } else {
                None
            }
        },
        Err(_) => None,
    }
}

fn proxy_advance_path_step(server_args: &str, base_url: &str, items: &JsonValue, item: usize, path: usize, tally: RunTally) -> (r: (ProxyState, Action))
    requires
        tally_ok(tally),
    ensures
        (r.0@, r.1@) == proxy_advance_path(server_args@, base_url@, items@, item, path, tally),
        proxy_state_ok(r.0@),
{
    let target = match target_at(server_args, items, item) {
        Some(t) => t,
        None => {
            return (ProxyState::Over, Action::Fail { fault: Fault::OutOfOrder, stop_server: false });
        },
    };
    match item_list(&target.paths, ItemKind::Paths) {
        Err(e) => (ProxyState::Over, Action::Fail { fault: Fault::Config(e), stop_server: true }),
        Ok(list) => {
            if path >= list.len() {
                (ProxyState::Stopping { item, tally }, Action::StopServer)
            } else {
                assert(views_of(list@)[path as int] == list@[path as int]@);
                match proxy_path(&list[path]) {
                    Err(e) => (ProxyState::Over, Action::Fail { fault: Fault::Config(e), stop_server: true }),
                    Ok(p) => {
                        if tally.all == usize::MAX {
                            (ProxyState::Over, Action::Fail { fault: Fault::TooManyReplies, stop_server: true })
                        } else {
                            let command = curl_get_command(base_url, p.as_str());
                            (ProxyState::Serving { item, path, tally }, Action::Run(command))
                        }
                    },
                }
            }
        },
    }
}


/// One step of a proxy run over `items`, where the server is started with `server_args`
/// and reached at `base_url`.
pub fn proxy_step(server_args: &str, base_url: &str, items: &JsonValue, s: ProxyState, ev: Event) -> (r: (ProxyState, Action))
    requires
        proxy_state_ok(s@),
    ensures
        (r.0@, r.1@) == proxy_next(server_args@, base_url@, items@, s@, ev@),
        proxy_state_ok(r.0@),
{
    match s {
        ProxyState::Next { item, tally } => match ev {
            Event::Begin => proxy_advance_item_step(server_args, items, item, tally),
            _ => (ProxyState::Over, Action::Fail { fault: Fault::OutOfOrder, stop_server: false }),
        },
        ProxyState::Starting { item, tally } => match ev {
            Event::Started => proxy_advance_path_step(server_args, base_url, items, item, 0, tally),
            Event::Failed(m) => (ProxyState::Over, Action::Fail { fault: Fault::Io(m), stop_server: false }),
            _ => (ProxyState::Over, Action::Fail { fault: Fault::OutOfOrder, stop_server: false }),
        },
        ProxyState::Serving { item, path, tally } => match ev {
            Event::Output(received) => {
                match target_at(server_args, items, item) {
                    Some(t) => match item_list(&t.paths, ItemKind::Paths) {
                        Ok(list) => {
                            if path < list.len() {
                                assert(views_of(list@)[path as int] == list@[path as int]@);
                                match proxy_path(&list[path]) {
                                    Ok(p) => {
                                        let command = curl_get_command(t.host.as_str(), p.as_str());
                                        (ProxyState::Remote { item, path, tally, received }, Action::Run(command))
                                    },
                                    Err(_) => (ProxyState::Over, Action::Fail { fault: Fault::OutOfOrder, stop_server: false }),
                                }
                            } else {
                                (ProxyState::Over, Action::Fail { fault: Fault::OutOfOrder, stop_server: false })
                            }
                        },
                        Err(_) => (ProxyState::Over, Action::Fail { fault: Fault::OutOfOrder, stop_server: false }),
                    },
                    None => (ProxyState::Over, Action::Fail { fault: Fault::OutOfOrder, stop_server: false }),
                }
            },
            Event::Failed(m) => (ProxyState::Over, Action::Fail { fault: Fault::Io(m), stop_server: false }),
            _ => (ProxyState::Over, Action::Fail { fault: Fault::OutOfOrder, stop_server: false }),
        },
        ProxyState::Remote { item, path, tally, received } => match ev {
            Event::Output(content) => {
                let passed = str_eq(content.as_str(), received.as_str());
                let t = record_verdict(tally, passed);
                proxy_advance_path_step(server_args, base_url, items, item, path + 1, t)
            },
            Event::Failed(m) => (ProxyState::Over, Action::Fail { fault: Fault::Io(m), stop_server: false }),
            _ => (ProxyState::Over, Action::Fail { fault: Fault::OutOfOrder, stop_server: false }),
        },
        ProxyState::Stopping { item, tally } => match ev {
            Event::Stopped => proxy_advance_item_step(server_args, items, item + 1, tally),
            Event::Failed(m) => (ProxyState::Over, Action::Fail { fault: Fault::Io(m), stop_server: false }),
            _ => (ProxyState::Over, Action::Fail { fault: Fault::OutOfOrder, stop_server: false }),
        },
        ProxyState::Over => (ProxyState::Over, Action::Fail { fault: Fault::OutOfOrder, stop_server: false }),
    }
}

/// The events of a proxy item in which every outside action succeeds: for each path,
/// the server's reply and then the remote host's.
pub open spec fn pair_events(local: Seq<Seq<char>>, remote: Seq<Seq<char>>) -> Seq<EventView>
    decreases local.len(),
{
    if local.len() == 0 || remote.len() == 0 {
        Seq::empty()
    } else {
        seq![EventView::Output(local[0]), EventView::Output(remote[0])] + pair_events(
            local.drop_first(),
            remote.drop_first(),
        )
    }
}

/// The events of a proxy run in which every outside action succeeds: for each item,
/// the server starts, each path gets its pair of replies, and the server stops.
pub open spec fn proxy_events(locals: Seq<Seq<Seq<char>>>, remotes: Seq<Seq<Seq<char>>>) -> Seq<EventView>
    decreases locals.len(),
{
    if locals.len() == 0 || remotes.len() == 0 {
        Seq::empty()
    } else {
        seq![EventView::Started] + pair_events(locals[0], remotes[0]) + seq![EventView::Stopped]
            + proxy_events(locals.drop_first(), remotes.drop_first())
    }
}

/// Where a proxy run that stands at `s`, having asked for `a`, stands after `events`.
pub open spec fn proxy_after(server_args: Seq<char>, base_url: Seq<char>, items: Json, s: ProxyStateView, a: ActionView, events: Seq<EventView>) -> (ProxyStateView, ActionView)
    decreases events.len(),
{
    if events.len() == 0 {
        (s, a)
    } else {
        let (s2, a2) = proxy_next(server_args, base_url, items, s, events[0]);
        proxy_after(server_args, base_url, items, s2, a2, events.drop_first())
    }
}

/// A proxy item whose paths are all strings, one for each pair of replies.
pub open spec fn proxy_paths_ready(server_args: Seq<char>, entry: Json, local: Seq<Seq<char>>, remote: Seq<Seq<char>>) -> bool {
    &&& proxy_item(server_args, entry) matches Ok((host, args, paths))
    &&& elements_of(paths) matches Some(list)
    &&& list.len() == local.len()
    &&& remote.len() == local.len()
    &&& forall|j: int| 0 <= j < list.len() ==> #[trigger] text_of(list[j]) is Some
}

/// A list of proxy items, each ready for its replies.
pub open spec fn proxy_items_ready(server_args: Seq<char>, items: Json, locals: Seq<Seq<Seq<char>>>, remotes: Seq<Seq<Seq<char>>>) -> bool {
    &&& elements_of(items) matches Some(list)
    &&& list.len() == locals.len()
    &&& remotes.len() == locals.len()
    &&& forall|i: int|
        0 <= i < list.len() ==> #[trigger] proxy_paths_ready(server_args, list[i], locals[i], remotes[i])
}

proof fn lemma_proxy_after_concat(server_args: Seq<char>, base_url: Seq<char>, items: Json, s: ProxyStateView, a: ActionView, x: Seq<EventView>, y: Seq<EventView>)
    ensures
        proxy_after(server_args, base_url, items, s, a, x + y) == ({
            let (s1, a1) = proxy_after(server_args, base_url, items, s, a, x);
            proxy_after(server_args, base_url, items, s1, a1, y)
        }),
    decreases x.len(),
{
    if x.len() == 0 {
        assert(x + y =~= y);
    } else {
        let (s2, a2) = proxy_next(server_args, base_url, items, s, x[0]);
        assert((x + y)[0] == x[0]);
        assert((x + y).drop_first() =~= x.drop_first() + y);
        lemma_proxy_after_concat(server_args, base_url, items, s2, a2, x.drop_first(), y);
    }
}

proof fn lemma_flatten_prefix_len(x: Seq<Seq<Seq<char>>>, i: int)
    requires
        0 <= i <= x.len(),
    ensures
        x.take(i).flatten().len() <= x.flatten().len(),
    decreases x.len() - i,
{
    if i < x.len() {
        lemma_flatten_prefix_len(x, i + 1);
        assert(x.take(i + 1) =~= x.take(i).push(x[i]));
        x.take(i).lemma_flatten_push(x[i]);
    } else {
        assert(x.take(i) =~= x);
    }
}

/// From path `j` of item `i` on, with the paths before it judged, the item's pairs of
/// replies bring the run to stopping the server with every pair judged.
#[verifier::spinoff_prover]
#[verifier::rlimit(40)]
proof fn lemma_proxy_paths_from(server_args: Seq<char>, base_url: Seq<char>, items: Json, i: usize, local: Seq<Seq<char>>, remote: Seq<Seq<char>>, earlier: Seq<Seq<char>>, earlier_local: Seq<Seq<char>>, j: int)
    requires
        item_at(items, i as int) matches Some(entry) && proxy_paths_ready(server_args, entry, local, remote),
        earlier.len() == earlier_local.len(),
        earlier.len() + local.len() <= usize::MAX,
        0 <= j <= local.len(),
    ensures
        ({
            let (s, a) = proxy_advance_path(
                server_args,
                base_url,
                items,
                i,
                j as usize,
                tally_replies(earlier + remote.take(j), earlier_local + local.take(j)),
            );
            proxy_after(server_args, base_url, items, s, a, pair_events(local.skip(j), remote.skip(j)))
        }) == (ProxyStateView::Stopping { item: i, tally: tally_replies(earlier + remote, earlier_local + local) }, ActionView::StopServer),
    decreases local.len() - j,
{
    let m = local.len() as int;
    let e = earlier + remote.take(j);
    let l = earlier_local + local.take(j);
    let t = tally_replies(e, l);
    lemma_tally_counts(e, l);
    let entry = item_at(items, i as int)->Some_0;
    let (host, args, paths) = proxy_item(server_args, entry)->Ok_0;
    let list = elements_of(paths)->Some_0;
    if j == m {
        assert(remote.take(j) =~= remote);
        assert(local.take(j) =~= local);
        assert(local.skip(j) =~= Seq::<Seq<char>>::empty());
        assert(pair_events(local.skip(j), remote.skip(j)) =~= Seq::<EventView>::empty());
    } else {
        assert(text_of(list[j]) is Some);
        let p = text_of(list[j])->Some_0;
        let s0 = ProxyStateView::Serving { item: i, path: j as usize, tally: t };
        assert(proxy_advance_path(server_args, base_url, items, i, j as usize, t) == (
            s0,
            ActionView::Run(curl_get_text(base_url, p)),
        ));
        let rest = pair_events(local.skip(j + 1), remote.skip(j + 1));
        assert(local.skip(j).drop_first() =~= local.skip(j + 1));
        assert(remote.skip(j).drop_first() =~= remote.skip(j + 1));
        let events = pair_events(local.skip(j), remote.skip(j));
        assert(events =~= seq![EventView::Output(local[j]), EventView::Output(remote[j])] + rest);
        assert(item_at(paths, j) == Some(list[j]));
        assert(proxy_path_at(server_args, items, i, j as usize) == Some((host, p)));
        let s1 = ProxyStateView::Remote { item: i, path: j as usize, tally: t, received: local[j] };
        let a1 = ActionView::Run(curl_get_text(host, p));
        assert(proxy_next(server_args, base_url, items, s0, events[0]) == (s1, a1));
        let e2 = events.drop_first();
        assert(e2 =~= seq![EventView::Output(remote[j])] + rest);
        assert(e2[0] == EventView::Output(remote[j]));
        assert(e2.drop_first() =~= rest);
        assert((earlier + remote.take(j + 1)).drop_last() =~= e);
        assert((earlier_local + local.take(j + 1)).drop_last() =~= l);
        let t1 = tally_replies(earlier + remote.take(j + 1), earlier_local + local.take(j + 1));
        assert(t1 == record(t, remote[j] == local[j]));
        let (s2, a2) = proxy_next(server_args, base_url, items, s1, e2[0]);
        assert((s2, a2) == proxy_advance_path(server_args, base_url, items, i, (j + 1) as usize, t1));
        lemma_proxy_paths_from(server_args, base_url, items, i, local, remote, earlier, earlier_local, j + 1);
        assert(proxy_after(server_args, base_url, items, s1, a1, e2) == proxy_after(server_args, base_url, items, s2, a2, e2.drop_first()));
        assert(proxy_after(server_args, base_url, items, s0, ActionView::Run(curl_get_text(base_url, p)), events)
            == proxy_after(server_args, base_url, items, s1, a1, e2));
    }
}

/// From item `i` on, with the items before it judged, a proxy run in which every
/// action succeeds ends with the tally of all the pairs of replies.
#[verifier::spinoff_prover]
#[verifier::rlimit(40)]
proof fn lemma_proxy_items_from(server_args: Seq<char>, base_url: Seq<char>, items: Json, locals: Seq<Seq<Seq<char>>>, remotes: Seq<Seq<Seq<char>>>, i: int)
    requires
        proxy_items_ready(server_args, items, locals, remotes),
        locals.len() <= usize::MAX,
        locals.flatten().len() <= usize::MAX,
        0 <= i <= locals.len(),
        remotes.take(i).flatten().len() == locals.take(i).flatten().len(),
    ensures
        ({
            let (s, a) = proxy_advance_item(
                server_args,
                items,
                i as usize,
                tally_replies(remotes.take(i).flatten(), locals.take(i).flatten()),
            );
            proxy_after(server_args, base_url, items, s, a, proxy_events(locals.skip(i), remotes.skip(i)))
        }) == (ProxyStateView::Over, ActionView::Done(tally_replies(remotes.flatten(), locals.flatten()))),
        remotes.flatten().len() == locals.flatten().len(),
    decreases locals.len() - i,
{
    let n = locals.len() as int;
    let list = elements_of(items)->Some_0;
    let earlier = remotes.take(i).flatten();
    let earlier_local = locals.take(i).flatten();
    let u = tally_replies(earlier, earlier_local);
    if i == n {
        assert(remotes.take(i) =~= remotes);
        assert(locals.take(i) =~= locals);
        assert(locals.skip(i) =~= Seq::<Seq<Seq<char>>>::empty());
        assert(proxy_events(locals.skip(i), remotes.skip(i)) =~= Seq::<EventView>::empty());
    } else {
        assert(proxy_paths_ready(server_args, list[i], locals[i], remotes[i]));
        let (host, args, paths) = proxy_item(server_args, list[i])->Ok_0;
        let s0 = ProxyStateView::Starting { item: i as usize, tally: u };
        let a0 = ActionView::StartServer(args);
        assert(proxy_advance_item(server_args, items, i as usize, u) == (s0, a0));
        let pairs = pair_events(locals[i], remotes[i]);
        let rest = proxy_events(locals.skip(i + 1), remotes.skip(i + 1));
        assert(locals.skip(i).drop_first() =~= locals.skip(i + 1));
        assert(remotes.skip(i).drop_first() =~= remotes.skip(i + 1));
        let events = proxy_events(locals.skip(i), remotes.skip(i));
        let tail = seq![EventView::Stopped] + rest;
        assert(events =~= seq![EventView::Started] + (pairs + tail));
        // The server starts: the first path comes next.
        assert(item_at(items, i as int) == Some(list[i]));
        assert(events[0] == EventView::Started);
        let (s1, a1) = proxy_advance_path(server_args, base_url, items, i as usize, 0, u);
        assert(proxy_next(server_args, base_url, items, s0, events[0]) == (s1, a1));
        assert(events.drop_first() =~= pairs + tail);
        assert(proxy_after(server_args, base_url, items, s0, a0, events) == proxy_after(server_args, base_url, items, s1, a1, pairs + tail));
        // Each path gets its pair of replies.
        lemma_flatten_prefix_len(locals, i + 1);
        assert(locals.take(i + 1) =~= locals.take(i).push(locals[i]));
        assert(remotes.take(i + 1) =~= remotes.take(i).push(remotes[i]));
        locals.take(i).lemma_flatten_push(locals[i]);
        remotes.take(i).lemma_flatten_push(remotes[i]);
        assert(remotes[i].take(0) =~= Seq::<Seq<char>>::empty());
        assert(locals[i].take(0) =~= Seq::<Seq<char>>::empty());
        assert(earlier + remotes[i].take(0) =~= earlier);
        assert(earlier_local + locals[i].take(0) =~= earlier_local);
        assert(locals[i].skip(0) =~= locals[i]);
        assert(remotes[i].skip(0) =~= remotes[i]);
        lemma_proxy_paths_from(server_args, base_url, items, i as usize, locals[i], remotes[i], earlier, earlier_local, 0);
        let t = tally_replies(earlier + remotes[i], earlier_local + locals[i]);
        lemma_proxy_after_concat(server_args, base_url, items, s1, a1, pairs, tail);
        // The server stops: the next item comes.
        let s2 = ProxyStateView::Stopping { item: i as usize, tally: t };
        assert(tail[0] == EventView::Stopped);
        assert(tail.drop_first() =~= rest);
        let (s3, a3) = proxy_advance_item(server_args, items, (i + 1) as usize, t);
        assert(proxy_next(server_args, base_url, items, s2, tail[0]) == (s3, a3));
        assert(proxy_after(server_args, base_url, items, s2, ActionView::StopServer, tail) == proxy_after(server_args, base_url, items, s3, a3, rest));
        assert(t == tally_replies(remotes.take(i + 1).flatten(), locals.take(i + 1).flatten()));
        lemma_proxy_items_from(server_args, base_url, items, locals, remotes, i + 1);
    }
}

/// A proxy run over well-formed items in which every outside action succeeds (path `j`
/// of item `i` gets `locals[i][j]` from the server and `remotes[i][j]` from the remote
/// host) ends with every path judged and as many passes as pairs of equal replies.
pub proof fn lemma_proxy_run_tally(server_args: Seq<char>, base_url: Seq<char>, items: Json, locals: Seq<Seq<Seq<char>>>, remotes: Seq<Seq<Seq<char>>>)
    requires
        proxy_items_ready(server_args, items, locals, remotes),
        locals.len() <= usize::MAX,
        locals.flatten().len() <= usize::MAX,
    ensures
        ({
            let (s, a) = proxy_next(
                server_args,
                base_url,
                items,
                ProxyStateView::Next { item: 0, tally: no_replies() },
                EventView::Begin,
            );
            proxy_after(server_args, base_url, items, s, a, proxy_events(locals, remotes))
        }) == (ProxyStateView::Over, ActionView::Done(
            RunTally {
                all: locals.flatten().len() as usize,
                passes: count_equal(remotes.flatten(), locals.flatten()) as usize,
            },
        )),
{
    assert(locals.take(0) =~= Seq::<Seq<Seq<char>>>::empty());
    assert(remotes.take(0) =~= Seq::<Seq<Seq<char>>>::empty());
    assert(Seq::<Seq<Seq<char>>>::empty().flatten() == Seq::<Seq<char>>::empty());
    assert(locals.skip(0) =~= locals);
    assert(remotes.skip(0) =~= remotes);
    assert(tally_replies(Seq::<Seq<char>>::empty(), Seq::<Seq<char>>::empty()) == no_replies());
    lemma_proxy_items_from(server_args, base_url, items, locals, remotes, 0);
    lemma_tally_counts(remotes.flatten(), locals.flatten());
}


/// The paths of proxy item `item` (nothing where they are no list).
pub open spec fn listed_paths(item: Json) -> Seq<Json> {
    match value_at(item, "paths"@) {
        Ok(paths) => match elements_of(paths) {
            Some(list) => list,
            None => Seq::empty(),
        },
        Err(_) => Seq::empty(),
    }
}

/// The text of an entry (the empty text where it is no string).
pub open spec fn entry_text(entry: Json) -> Seq<char> {
    match text_of(entry) {
        Some(t) => t,
        None => Seq::empty(),
    }
}

/// A list of proxy items, each with a string `host` and a list of string `paths`.
pub open spec fn proxy_list_ready(items: Json) -> bool {
    &&& elements_of(items) matches Some(list)
    &&& forall|i: int|
        0 <= i < list.len() ==> {
            &&& string_at(#[trigger] list[i], "host"@) is Ok
            &&& value_at(list[i], "paths"@) matches Ok(paths) && elements_of(paths) is Some
            &&& forall|j: int| 0 <= j < listed_paths(list[i]).len() ==> #[trigger] text_of(listed_paths(list[i])[j]) is Some
        }
}

/// Each step of a proxy run works on its own path: when the server has answered path
/// `j` of item `i`, the remote host of item `i` is asked for that same path; when the
/// remote host has answered, the pair is judged and the server is asked for path
/// `j + 1`, or stopped after the item's last path; and when the server has started
/// for item `i`, it is asked for the item's first path.
pub proof fn lemma_proxy_steps_follow_paths(server_args: Seq<char>, base_url: Seq<char>, items: Json, i: usize, j: usize, t: RunTally, received: Seq<char>, content: Seq<char>)
    requires
        proxy_list_ready(items),
        i < elements_of(items)->Some_0.len(),
        j < listed_paths(elements_of(items)->Some_0[i as int]).len(),
        listed_paths(elements_of(items)->Some_0[i as int]).len() < usize::MAX,
        t.all + 1 < usize::MAX,
        t.passes <= t.all,
    ensures
        ({
            let item = elements_of(items)->Some_0[i as int];
            let host = member_text(item, "host"@);
            let paths = listed_paths(item);
            let after = judged(t, content, received);
            &&& proxy_next(server_args, base_url, items, ProxyStateView::Serving { item: i, path: j, tally: t }, EventView::Output(received)) == (
                ProxyStateView::Remote { item: i, path: j, tally: t, received },
                ActionView::Run("curl --connect-timeout 5 \""@ + host + entry_text(paths[j as int]) + "\""@),
            )
            &&& j + 1 < paths.len() ==> proxy_next(
                server_args,
                base_url,
                items,
                ProxyStateView::Remote { item: i, path: j, tally: t, received },
                EventView::Output(content),
            ) == (
                ProxyStateView::Serving { item: i, path: (j + 1) as usize, tally: after },
                ActionView::Run("curl --connect-timeout 5 \""@ + base_url + entry_text(paths[j + 1]) + "\""@),
            )
            &&& j + 1 == paths.len() ==> proxy_next(
                server_args,
                base_url,
                items,
                ProxyStateView::Remote { item: i, path: j, tally: t, received },
                EventView::Output(content),
            ) == (ProxyStateView::Stopping { item: i, tally: after }, ActionView::StopServer)
            &&& proxy_next(server_args, base_url, items, ProxyStateView::Starting { item: i, tally: t }, EventView::Started) == (
                ProxyStateView::Serving { item: i, path: 0, tally: t },
                ActionView::Run("curl --connect-timeout 5 \""@ + base_url + entry_text(paths[0]) + "\""@),
            )
        }),
{
    let list = elements_of(items)->Some_0;
    let item = list[i as int];
    let paths = listed_paths(item);
    assert(string_at(item, "host"@) is Ok);
    assert(item_at(items, i as int) == Some(item));
    assert(text_of(paths[j as int]) is Some);
    assert(text_of(paths[0]) is Some);
    assert(item_at(value_at(item, "paths"@)->Ok_0, j as int) == Some(paths[j as int]));
    if j + 1 < paths.len() {
        assert(text_of(paths[j + 1]) is Some);
    }
}


/// Each proxy item starts the server as the proxy of its own host: with the run's
/// server arguments followed by ` --proxy ` and the item's `host`.
pub proof fn lemma_proxy_starts_server_for_own_host(server_args: Seq<char>, base_url: Seq<char>, items: Json, i: usize, t: RunTally)
    requires
        proxy_list_ready(items),
        i < elements_of(items)->Some_0.len(),
    ensures
        proxy_next(server_args, base_url, items, ProxyStateView::Next { item: i, tally: t }, EventView::Begin) == (
            ProxyStateView::Starting { item: i, tally: t },
            ActionView::StartServer(server_args + " --proxy "@ + member_text(elements_of(items)->Some_0[i as int], "host"@)),
        ),
{
    let list = elements_of(items)->Some_0;
    assert(string_at(list[i as int], "host"@) is Ok);
}

} // verus!

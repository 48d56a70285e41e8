//! GET and POST tests: each item names a path, and a file with the expected reply.
use vstd::prelude::*;

use crate::config::{
    get_json_value, get_json_value_as_string, string_at, value_at, ConfigError, ConfigFault,
    ItemKind,
};
use crate::json::{elements_of, views_of, Json, JsonValue};
use crate::run::item_list;
use crate::run::steps::{
    config_fail, count_equal, io_fail, lemma_tally_counts, no_replies, out_of_order, record,
    record_verdict, tally_ok, tally_replies, Action, ActionView, Event, EventView, Fault, FaultView,
    RunTally,
};
use crate::text::str_eq;

verus! {

/// `curl --connect-timeout 5 "{base_url}{path}"`.
pub open spec fn curl_get_text(base_url: Seq<char>, path: Seq<char>) -> Seq<char> {
    "curl --connect-timeout 5 \""@ + base_url + path + "\""@
}

/// The command that fetches `path` from the server at `base_url`.
pub fn curl_get_command(base_url: &str, path: &str) -> (r: String)
    ensures
        r@ == curl_get_text(base_url@, path@),
{
    let mut c = String::from_str("curl --connect-timeout 5 \"");
    c.append(base_url);
    c.append(path);
    c.append("\"");
    c
}

/// A GET test: the path to fetch, the file with the expected reply, and the command.
pub struct GetRequest {
    pub path: String,
    pub file: String,
    pub command: String,
}

/// The path, file and command of a GET item, or the first member that is missing or no string.
pub open spec fn get_item(base_url: Seq<char>, item: Json) -> Result<(Seq<char>, Seq<char>, Seq<char>), ConfigFault> {
    match string_at(item, "path"@) {
        Err(e) => Err(e),
        Ok(path) => match string_at(item, "file"@) {
            Err(e) => Err(e),
            Ok(file) => Ok((path, file, curl_get_text(base_url, path))),
        },
    }
}

/// Reads a GET item (members `path` and `file`) and builds its command.
pub fn get_request(base_url: &str, item: &JsonValue) -> (r: Result<GetRequest, ConfigError>)
    ensures
        match r {
            Ok(g) => get_item(base_url@, item@) == Ok::<(Seq<char>, Seq<char>, Seq<char>), ConfigFault>(
                (g.path@, g.file@, g.command@),
            ),
            Err(e) => get_item(base_url@, item@) == Err::<(Seq<char>, Seq<char>, Seq<char>), ConfigFault>(e@),
        },
{
    let path = get_json_value_as_string(item, "path")?;
    let file = get_json_value_as_string(item, "file")?;
    let command = curl_get_command(base_url, path.as_str());
    Ok(GetRequest { path, file, command })
}

/// A POST test: the path, the file with the payload, and the file with the expected reply.
pub struct PostItem {
    pub path: String,
    pub payload: String,
    pub file: String,
}

/// The path, payload file and reply file of a POST item, or the first member that fails.
pub open spec fn post_item(item: Json) -> Result<(Seq<char>, Seq<char>, Seq<char>), ConfigFault> {
    match string_at(item, "path"@) {
        Err(e) => Err(e),
        Ok(path) => match string_at(item, "payload"@) {
            Err(e) => Err(e),
            Ok(payload) => match string_at(item, "file"@) {
                Err(e) => Err(e),
                Ok(file) => Ok((path, payload, file)),
            },
        },
    }
}

/// Reads a POST item (members `path`, `payload` and `file`).
pub fn post_request(item: &JsonValue) -> (r: Result<PostItem, ConfigError>)
    ensures
        match r {
            Ok(p) => post_item(item@) == Ok::<(Seq<char>, Seq<char>, Seq<char>), ConfigFault>(
                (p.path@, p.payload@, p.file@),
            ),
            Err(e) => post_item(item@) == Err::<(Seq<char>, Seq<char>, Seq<char>), ConfigFault>(e@),
        },
{
    let path = get_json_value_as_string(item, "path")?;
    let payload = get_json_value_as_string(item, "payload")?;
    let file = get_json_value_as_string(item, "file")?;
    Ok(PostItem { path, payload, file })
}

/// The command that posts `payload` to `path`: form data in `basic` mode, JSON in
/// `advanced` mode, and nothing in any other mode.
pub open spec fn curl_post_text(mode: Seq<char>, base_url: Seq<char>, path: Seq<char>, payload: Seq<char>) -> Seq<char> {
    if mode == "basic"@ {
        "curl --connect-timeout 5 -d \""@ + payload + "\" -X POST \""@ + base_url + path + "\""@
    } else if mode == "advanced"@ {
        "curl --connect-timeout 5 -H 'Content-Type: application/json' -d '"@ + payload
            + "' -X POST \""@ + base_url + path + "\""@
    } else {
        Seq::empty()
    }
}

/// The command of a POST test, for the payload read from its file.
pub fn curl_post_command(mode: &str, base_url: &str, path: &str, payload: &str) -> (r: String)
    ensures
        r@ == curl_post_text(mode@, base_url@, path@, payload@),
{
    if str_eq(mode, "basic") {
        let mut c = String::from_str("curl --connect-timeout 5 -d \"");
        c.append(payload);
        c.append("\" -X POST \"");
        c.append(base_url);
        c.append(path);
        c.append("\"");
        c
    } else if str_eq(mode, "advanced") {
        let mut c = String::from_str("curl --connect-timeout 5 -H 'Content-Type: application/json' -d '");
        c.append(payload);
        c.append("' -X POST \"");
        c.append(base_url);
        c.append(path);
        c.append("\"");
        c
    } else {
        String::new()
    }
}


/// Where a GET or POST run stands.
#[derive(Debug, PartialEq, Eq)]
pub enum ItemState {
    /// Item `index` comes next; `tally` judged the items before it.
    Next { index: usize, tally: RunTally },
    /// The payload of item `index` was asked for.
    Loading { index: usize, tally: RunTally },
    /// The server's reply to item `index` was asked for.
    Fetching { index: usize, tally: RunTally },
    /// The expected content of item `index` was asked for; `received` is the reply.
    Reading { index: usize, tally: RunTally, received: String },
    /// The run is over.
    Over,
}

/// The content of an `ItemState`.
pub enum ItemStateView {
    Next { index: usize, tally: RunTally },
    Loading { index: usize, tally: RunTally },
    Fetching { index: usize, tally: RunTally },
    Reading { index: usize, tally: RunTally, received: Seq<char> },
    Over,
}

impl View for ItemState {
    type V = ItemStateView;

    open spec fn view(&self) -> ItemStateView {
        match self {
            ItemState::Next { index, tally } => ItemStateView::Next { index: *index, tally: *tally },
            ItemState::Loading { index, tally } => ItemStateView::Loading {
                index: *index,
                tally: *tally,
            },
            ItemState::Fetching { index, tally } => ItemStateView::Fetching {
                index: *index,
                tally: *tally,
            },
            ItemState::Reading { index, tally, received } => ItemStateView::Reading {
                index: *index,
                tally: *tally,
                received: received@,
            },
            ItemState::Over => ItemStateView::Over,
        }
    }
}

/// The tally counts exactly the items before the current one.
pub open spec fn item_state_ok(s: ItemStateView) -> bool {
    match s {
        ItemStateView::Next { index, tally } => tally.all == index && tally_ok(tally),
        ItemStateView::Loading { index, tally } => tally.all == index && tally_ok(tally) && index
            < usize::MAX,
        ItemStateView::Fetching { index, tally } => tally.all == index && tally_ok(tally) && index
            < usize::MAX,
        ItemStateView::Reading { index, tally, .. } => tally.all == index && tally_ok(tally)
            && index < usize::MAX,
        ItemStateView::Over => true,
    }
}

impl ItemState {
    /// The state before the first item.
    pub fn start() -> (r: ItemState)
        ensures
            r@ == (ItemStateView::Next { index: 0, tally: RunTally { all: 0, passes: 0 } }),
            item_state_ok(r@),
    {
        ItemState::Next { index: 0, tally: RunTally::new() }
    }
}

/// Item `index` of a list of test items.
pub open spec fn item_at(items: Json, index: int) -> Option<Json> {
    match elements_of(items) {
        Some(list) => if 0 <= index < list.len() {
            Some(list[index])
        } else {
            None
        },
        None => None,
    }
}

/// A GET run at item `index`: fetch its path, or end with the tally after the last item.
pub open spec fn get_advance(base_url: Seq<char>, items: Json, index: usize, tally: RunTally) -> (ItemStateView, ActionView) {
    match elements_of(items) {
        None => (
            ItemStateView::Over,
            config_fail(ConfigFault::NotArray { item: ItemKind::Get, value: items }, false),
        ),
        Some(list) => if index >= list.len() {
            (ItemStateView::Over, ActionView::Done(tally))
        } else {
            match get_item(base_url, list[index as int]) {
                Err(e) => (ItemStateView::Over, config_fail(e, false)),
                Ok((path, file, command)) => (
                    ItemStateView::Fetching { index, tally },
                    ActionView::Run(command),
                ),
            }
        },
    }
}

/// One step of a GET run: each item's path is fetched, its expected file read, and the
/// reply counted as a pass when it equals the file's text.
pub open spec fn get_next(base_url: Seq<char>, items: Json, s: ItemStateView, ev: EventView) -> (ItemStateView, ActionView) {
    match s {
        ItemStateView::Next { index, tally } => match ev {
            EventView::Begin => get_advance(base_url, items, index, tally),
            _ => (ItemStateView::Over, out_of_order()),
        },
        ItemStateView::Fetching { index, tally } => match ev {
            EventView::Output(received) => match item_at(items, index as int) {
                Some(item) => match get_item(base_url, item) {
                    Ok((path, file, command)) => (
                        ItemStateView::Reading { index, tally, received },
                        ActionView::ReadExpected(file),
                    ),
                    Err(_) => (ItemStateView::Over, out_of_order()),
                },
                None => (ItemStateView::Over, out_of_order()),
            },
            EventView::Failed(m) => (ItemStateView::Over, io_fail(m)),
            _ => (ItemStateView::Over, out_of_order()),
        },
        ItemStateView::Reading { index, tally, received } => match ev {
            EventView::Text(expected) => get_advance(
                base_url,
                items,
                (index + 1) as usize,
                record(tally, expected == received),
            ),
            EventView::Failed(m) => (ItemStateView::Over, io_fail(m)),
            _ => (ItemStateView::Over, out_of_order()),
        },
        _ => (ItemStateView::Over, out_of_order()),
    }
}

fn get_advance_step(base_url: &str, items: &JsonValue, index: usize, tally: RunTally) -> (r: (ItemState, Action))
    requires
        tally.all == index,
        tally_ok(tally),
    ensures
        (r.0@, r.1@) == get_advance(base_url@, items@, index, tally),
        item_state_ok(r.0@),
{
    match item_list(items, ItemKind::Get) {
        Err(e) => (ItemState::Over, Action::Fail { fault: Fault::Config(e), stop_server: false }),
        Ok(list) => {
            if index >= list.len() {
                (ItemState::Over, Action::Done(tally))
            } else {
                assert(views_of(list@)[index as int] == list@[index as int]@);
                match get_request(base_url, &list[index]) {
                    Err(e) => (ItemState::Over, Action::Fail { fault: Fault::Config(e), stop_server: false }),
                    Ok(g) => (ItemState::Fetching { index, tally }, Action::Run(g.command)),
                }
            }
        },
    }
}

/// One step of a GET run over `items`, whose base address is `base_url`.
pub fn get_step(base_url: &str, items: &JsonValue, s: ItemState, ev: Event) -> (r: (ItemState, Action))
    requires
        item_state_ok(s@),
    ensures
        (r.0@, r.1@) == get_next(base_url@, items@, s@, ev@),
        item_state_ok(r.0@),
{
    match s {
        ItemState::Next { index, tally } => match ev {
            Event::Begin => get_advance_step(base_url, items, index, tally),
            _ => (ItemState::Over, Action::Fail { fault: Fault::OutOfOrder, stop_server: false }),
        },
        ItemState::Fetching { index, tally } => match ev {
            Event::Output(received) => {
                match item_list(items, ItemKind::Get) {
                    Ok(list) => {
                        if index < list.len() {
                            assert(views_of(list@)[index as int] == list@[index as int]@);
                            match get_request(base_url, &list[index]) {
                                Ok(g) => (
                                    ItemState::Reading { index, tally, received },
                                    Action::ReadExpected(g.file),
                                ),
                                Err(_) => (ItemState::Over, Action::Fail { fault: Fault::OutOfOrder, stop_server: false }),
                            }
                        } else {
                            (ItemState::Over, Action::Fail { fault: Fault::OutOfOrder, stop_server: false })
                        }
                    },
                    Err(_) => (ItemState::Over, Action::Fail { fault: Fault::OutOfOrder, stop_server: false }),
                }
            },
            Event::Failed(m) => (ItemState::Over, Action::Fail { fault: Fault::Io(m), stop_server: false }),
            _ => (ItemState::Over, Action::Fail { fault: Fault::OutOfOrder, stop_server: false }),
        },
        ItemState::Reading { index, tally, received } => match ev {
            Event::Text(expected) => {
                let passed = str_eq(expected.as_str(), received.as_str());
                let t = record_verdict(tally, passed);
                get_advance_step(base_url, items, index + 1, t)
            },
            Event::Failed(m) => (ItemState::Over, Action::Fail { fault: Fault::Io(m), stop_server: false }),
            _ => (ItemState::Over, Action::Fail { fault: Fault::OutOfOrder, stop_server: false }),
        },
        _ => (ItemState::Over, Action::Fail { fault: Fault::OutOfOrder, stop_server: false }),
    }
}


/// A POST run at item `index`: read its payload, or end with the tally after the last item.
pub open spec fn post_advance(items: Json, index: usize, tally: RunTally) -> (ItemStateView, ActionView) {
    match elements_of(items) {
        None => (
            ItemStateView::Over,
            config_fail(ConfigFault::NotArray { item: ItemKind::Post, value: items }, false),
        ),
        Some(list) => if index >= list.len() {
            (ItemStateView::Over, ActionView::Done(tally))
        } else {
            match post_item(list[index as int]) {
                Err(e) => (ItemStateView::Over, config_fail(e, false)),
                Ok((path, payload, file)) => (
                    ItemStateView::Loading { index, tally },
                    ActionView::ReadPayload(payload),
                ),
            }
        },
    }
}

/// One step of a POST run: each item's payload is read and posted to its path, its
/// expected file read, and the reply counted as a pass when it equals the file's text.
pub open spec fn post_next(mode: Seq<char>, base_url: Seq<char>, items: Json, s: ItemStateView, ev: EventView) -> (ItemStateView, ActionView) {
    match s {
        ItemStateView::Next { index, tally } => match ev {
            EventView::Begin => post_advance(items, index, tally),
            _ => (ItemStateView::Over, out_of_order()),
        },
        ItemStateView::Loading { index, tally } => match ev {
            EventView::Text(payload) => match item_at(items, index as int) {
                Some(item) => match post_item(item) {
                    Ok((path, payload_file, file)) => (
                        ItemStateView::Fetching { index, tally },
                        ActionView::Run(curl_post_text(mode, base_url, path, payload)),
                    ),
                    Err(_) => (ItemStateView::Over, out_of_order()),
                },
                None => (ItemStateView::Over, out_of_order()),
            },
            EventView::Failed(m) => (ItemStateView::Over, io_fail(m)),
            _ => (ItemStateView::Over, out_of_order()),
        },
        ItemStateView::Fetching { index, tally } => match ev {
            EventView::Output(received) => match item_at(items, index as int) {
                Some(item) => match post_item(item) {
                    Ok((path, payload_file, file)) => (
                        ItemStateView::Reading { index, tally, received },
                        ActionView::ReadExpected(file),
                    ),
                    Err(_) => (ItemStateView::Over, out_of_order()),
                },
                None => (ItemStateView::Over, out_of_order()),
            },
            EventView::Failed(m) => (ItemStateView::Over, io_fail(m)),
            _ => (ItemStateView::Over, out_of_order()),
        },
        ItemStateView::Reading { index, tally, received } => match ev {
            EventView::Text(expected) => post_advance(
                items,
                (index + 1) as usize,
                record(tally, expected == received),
            ),
            EventView::Failed(m) => (ItemStateView::Over, io_fail(m)),
            _ => (ItemStateView::Over, out_of_order()),
        },
        ItemStateView::Over => (ItemStateView::Over, out_of_order()),
    }
}

fn post_advance_step(items: &JsonValue, index: usize, tally: RunTally) -> (r: (ItemState, Action))
    requires
        tally.all == index,
        tally_ok(tally),
    ensures
        (r.0@, r.1@) == post_advance(items@, index, tally),
        item_state_ok(r.0@),
{
    match item_list(items, ItemKind::Post) {
        Err(e) => (ItemState::Over, Action::Fail { fault: Fault::Config(e), stop_server: false }),
        Ok(list) => {
            if index >= list.len() {
                (ItemState::Over, Action::Done(tally))
            } else {
                assert(views_of(list@)[index as int] == list@[index as int]@);
                match post_request(&list[index]) {
                    Err(e) => (ItemState::Over, Action::Fail { fault: Fault::Config(e), stop_server: false }),
                    Ok(p) => (ItemState::Loading { index, tally }, Action::ReadPayload(p.payload)),
                }
            }
        },
    }
}

/// The POST item at `index`, which the run has already read once.
fn post_item_at(items: &JsonValue, index: usize) -> (r: Option<PostItem>)
    ensures
        match r {
            Some(p) => item_at(items@, index as int) matches Some(item) && post_item(item)
                == Ok::<(Seq<char>, Seq<char>, Seq<char>), ConfigFault>((p.path@, p.payload@, p.file@)),
            None => !(item_at(items@, index as int) matches Some(item) && post_item(item) is Ok),
        },
{
    match item_list(items, ItemKind::Post) {
        Ok(list) => {
            if index < list.len() {
                assert(views_of(list@)[index as int] == list@[index as int]@);
                match post_request(&list[index]) {
                    Ok(p) => Some(p),
                    Err(_) => None,
                }
            } else {
                None
            }
        },
        Err(_) => None,
    }
}

/// One step of a POST run over `items` in `mode`, whose base address is `base_url`.
pub fn post_step(mode: &str, base_url: &str, items: &JsonValue, s: ItemState, ev: Event) -> (r: (ItemState, Action))
    requires
        item_state_ok(s@),
    ensures
        (r.0@, r.1@) == post_next(mode@, base_url@, items@, s@, ev@),
        item_state_ok(r.0@),
{
    match s {
        ItemState::Next { index, tally } => match ev {
            Event::Begin => post_advance_step(items, index, tally),
            _ => (ItemState::Over, Action::Fail { fault: Fault::OutOfOrder, stop_server: false }),
        },
        ItemState::Loading { index, tally } => match ev {
            Event::Text(payload) => match post_item_at(items, index) {
                Some(p) => {
                    let command = curl_post_command(mode, base_url, p.path.as_str(), payload.as_str());
                    (ItemState::Fetching { index, tally }, Action::Run(command))
                },
                None => (ItemState::Over, Action::Fail { fault: Fault::OutOfOrder, stop_server: false }),
            },
            Event::Failed(m) => (ItemState::Over, Action::Fail { fault: Fault::Io(m), stop_server: false }),
            _ => (ItemState::Over, Action::Fail { fault: Fault::OutOfOrder, stop_server: false }),
        },
        ItemState::Fetching { index, tally } => match ev {
            Event::Output(received) => match post_item_at(items, index) {
                Some(p) => (ItemState::Reading { index, tally, received }, Action::ReadExpected(p.file)),
                None => (ItemState::Over, Action::Fail { fault: Fault::OutOfOrder, stop_server: false }),
            },
            Event::Failed(m) => (ItemState::Over, Action::Fail { fault: Fault::Io(m), stop_server: false }),
            _ => (ItemState::Over, Action::Fail { fault: Fault::OutOfOrder, stop_server: false }),
        },
        ItemState::Reading { index, tally, received } => match ev {
            Event::Text(expected) => {
                let passed = str_eq(expected.as_str(), received.as_str());
                let t = record_verdict(tally, passed);
                post_advance_step(items, index + 1, t)
            },
            Event::Failed(m) => (ItemState::Over, Action::Fail { fault: Fault::Io(m), stop_server: false }),
            _ => (ItemState::Over, Action::Fail { fault: Fault::OutOfOrder, stop_server: false }),
        },
        ItemState::Over => (ItemState::Over, Action::Fail { fault: Fault::OutOfOrder, stop_server: false }),
    }
}


/// The events of a run in which every outside action succeeds: for each item, the
/// server's reply and then the expected file's text.
pub open spec fn reply_events(expected: Seq<Seq<char>>, received: Seq<Seq<char>>) -> Seq<EventView>
    decreases expected.len(),
{
    if expected.len() == 0 || received.len() == 0 {
        Seq::empty()
    } else {
        seq![EventView::Output(received[0]), EventView::Text(expected[0])] + reply_events(
            expected.drop_first(),
            received.drop_first(),
        )
    }
}

/// Where a GET run that stands at `s`, having asked for `a`, stands after `events`.
pub open spec fn get_after(base_url: Seq<char>, items: Json, s: ItemStateView, a: ActionView, events: Seq<EventView>) -> (ItemStateView, ActionView)
    decreases events.len(),
{
    if events.len() == 0 {
        (s, a)
    } else {
        let (s2, a2) = get_next(base_url, items, s, events[0]);
        get_after(base_url, items, s2, a2, events.drop_first())
    }
}

/// From item `index` on, with the items before it judged, a GET run in which every
/// action succeeds ends with the tally of all the replies.
proof fn lemma_get_run_from(base_url: Seq<char>, items: Json, expected: Seq<Seq<char>>, received: Seq<Seq<char>>, index: int)
    requires
        elements_of(items) matches Some(list) && list.len() == expected.len() && forall|i: int|
            0 <= i < list.len() ==> #[trigger] get_item(base_url, list[i]) is Ok,
        expected.len() == received.len(),
        expected.len() <= usize::MAX,
        0 <= index <= expected.len(),
    ensures
        ({
            let (s, a) = get_advance(
                base_url,
                items,
                index as usize,
                tally_replies(expected.take(index), received.take(index)),
            );
            get_after(base_url, items, s, a, reply_events(expected.skip(index), received.skip(index)))
        }) == (ItemStateView::Over, ActionView::Done(tally_replies(expected, received))),
    decreases expected.len() - index,
{
    let n = expected.len() as int;
    let t = tally_replies(expected.take(index), received.take(index));
    lemma_tally_counts(expected.take(index), received.take(index));
    let list = elements_of(items)->Some_0;
    if index == n {
        assert(expected.take(index) =~= expected);
        assert(received.take(index) =~= received);
        assert(reply_events(expected.skip(index), received.skip(index)) =~= Seq::<EventView>::empty());
        assert(get_advance(base_url, items, index as usize, t) == (ItemStateView::Over, ActionView::Done(t)));
    } else {
        assert(get_item(base_url, list[index]) is Ok);
        let (path, file, command) = get_item(base_url, list[index])->Ok_0;
        assert(get_advance(base_url, items, index as usize, t) == (
            ItemStateView::Fetching { index: index as usize, tally: t },
            ActionView::Run(command),
        ));
        let rest = reply_events(expected.skip(index + 1), received.skip(index + 1));
        assert(expected.skip(index).drop_first() =~= expected.skip(index + 1));
        assert(received.skip(index).drop_first() =~= received.skip(index + 1));
        let events = reply_events(expected.skip(index), received.skip(index));
        assert(events =~= seq![EventView::Output(received[index]), EventView::Text(expected[index])] + rest);
        assert(item_at(items, index) == Some(list[index]));
        let s1 = ItemStateView::Reading { index: index as usize, tally: t, received: received[index] };
        assert(get_next(base_url, items, ItemStateView::Fetching { index: index as usize, tally: t }, events[0]) == (
            s1,
            ActionView::ReadExpected(file),
        ));
        assert(events.drop_first() =~= seq![EventView::Text(expected[index])] + rest);
        assert((seq![EventView::Text(expected[index])] + rest).drop_first() =~= rest);
        assert(expected.take(index + 1).drop_last() =~= expected.take(index));
        assert(received.take(index + 1).drop_last() =~= received.take(index));
        let t1 = tally_replies(expected.take(index + 1), received.take(index + 1));
        assert(t1 == record(t, expected[index] == received[index]));
        lemma_get_run_from(base_url, items, expected, received, index + 1);
        let a1 = ActionView::ReadExpected(file);
        let e2 = events.drop_first();
        let (s2, a2) = get_next(base_url, items, s1, e2[0]);
        assert(e2[0] == EventView::Text(expected[index]));
        assert((s2, a2) == get_advance(base_url, items, (index + 1) as usize, t1));
        assert(get_after(base_url, items, s1, a1, e2) == get_after(base_url, items, s2, a2, e2.drop_first()));
        assert(e2.drop_first() == rest);
        assert(get_after(
            base_url,
            items,
            ItemStateView::Fetching { index: index as usize, tally: t },
            ActionView::Run(command),
            events,
        ) == get_after(base_url, items, s1, a1, e2));
    }
}

/// A GET run over `n` well-formed items in which every outside action succeeds (item
/// `i` gets `received[i]` from the server and `expected[i]` from its file) ends with
/// `n` items judged and as many passes as replies equal to their file.
pub proof fn lemma_get_run_tally(base_url: Seq<char>, items: Json, expected: Seq<Seq<char>>, received: Seq<Seq<char>>)
    requires
        elements_of(items) matches Some(list) && list.len() == expected.len() && forall|i: int|
            0 <= i < list.len() ==> #[trigger] get_item(base_url, list[i]) is Ok,
        expected.len() == received.len(),
        expected.len() <= usize::MAX,
    ensures
        ({
            let (s, a) = get_next(
                base_url,
                items,
                ItemStateView::Next { index: 0, tally: no_replies() },
                EventView::Begin,
            );
            get_after(base_url, items, s, a, reply_events(expected, received))
        }) == (ItemStateView::Over, ActionView::Done(
            RunTally { all: expected.len() as usize, passes: count_equal(expected, received) as usize },
        )),
{
    assert(expected.take(0) =~= Seq::<Seq<char>>::empty());
    assert(received.take(0) =~= Seq::<Seq<char>>::empty());
    assert(expected.skip(0) =~= expected);
    assert(received.skip(0) =~= received);
    lemma_get_run_from(base_url, items, expected, received, 0);
    lemma_tally_counts(expected, received);
}


/// The events of a POST run in which every outside action succeeds: for each item, the
/// payload file's text, the server's reply, and the expected file's text.
pub open spec fn post_events(payloads: Seq<Seq<char>>, expected: Seq<Seq<char>>, received: Seq<Seq<char>>) -> Seq<EventView>
    decreases expected.len(),
{
    if expected.len() == 0 || received.len() == 0 || payloads.len() == 0 {
        Seq::empty()
    } else {
        seq![
            EventView::Text(payloads[0]),
            EventView::Output(received[0]),
            EventView::Text(expected[0]),
        ] + post_events(payloads.drop_first(), expected.drop_first(), received.drop_first())
    }
}

/// Where a POST run that stands at `s`, having asked for `a`, stands after `events`.
pub open spec fn post_after(mode: Seq<char>, base_url: Seq<char>, items: Json, s: ItemStateView, a: ActionView, events: Seq<EventView>) -> (ItemStateView, ActionView)
    decreases events.len(),
{
    if events.len() == 0 {
        (s, a)
    } else {
        let (s2, a2) = post_next(mode, base_url, items, s, events[0]);
        post_after(mode, base_url, items, s2, a2, events.drop_first())
    }
}

/// From item `index` on, with the items before it judged, a POST run in which every
/// action succeeds ends with the tally of all the replies.
proof fn lemma_post_run_from(mode: Seq<char>, base_url: Seq<char>, items: Json, payloads: Seq<Seq<char>>, expected: Seq<Seq<char>>, received: Seq<Seq<char>>, index: int)
    requires
        elements_of(items) matches Some(list) && list.len() == expected.len() && forall|i: int|
            0 <= i < list.len() ==> #[trigger] post_item(list[i]) is Ok,
        expected.len() == received.len(),
        payloads.len() == expected.len(),
        expected.len() <= usize::MAX,
        0 <= index <= expected.len(),
    ensures
        ({
            let (s, a) = post_advance(
                items,
                index as usize,
                tally_replies(expected.take(index), received.take(index)),
            );
            post_after(
                mode,
                base_url,
                items,
                s,
                a,
                post_events(payloads.skip(index), expected.skip(index), received.skip(index)),
            )
        }) == (ItemStateView::Over, ActionView::Done(tally_replies(expected, received))),
    decreases expected.len() - index,
{
    let n = expected.len() as int;
    let t = tally_replies(expected.take(index), received.take(index));
    lemma_tally_counts(expected.take(index), received.take(index));
    let list = elements_of(items)->Some_0;
    if index == n {
        assert(expected.take(index) =~= expected);
        assert(received.take(index) =~= received);
        assert(post_events(payloads.skip(index), expected.skip(index), received.skip(index))
            =~= Seq::<EventView>::empty());
        assert(post_advance(items, index as usize, t) == (ItemStateView::Over, ActionView::Done(t)));
    } else {
        assert(post_item(list[index]) is Ok);
        let (path, payload_file, file) = post_item(list[index])->Ok_0;
        let s0 = ItemStateView::Loading { index: index as usize, tally: t };
        let a0 = ActionView::ReadPayload(payload_file);
        assert(post_advance(items, index as usize, t) == (s0, a0));
        let rest = post_events(payloads.skip(index + 1), expected.skip(index + 1), received.skip(index + 1));
        assert(payloads.skip(index).drop_first() =~= payloads.skip(index + 1));
        assert(expected.skip(index).drop_first() =~= expected.skip(index + 1));
        assert(received.skip(index).drop_first() =~= received.skip(index + 1));
        let events = post_events(payloads.skip(index), expected.skip(index), received.skip(index));
        let e1 = EventView::Text(payloads[index]);
        let e2 = EventView::Output(received[index]);
        let e3 = EventView::Text(expected[index]);
        assert(events =~= seq![e1, e2, e3] + rest);
        assert(item_at(items, index) == Some(list[index]));
        let s1 = ItemStateView::Fetching { index: index as usize, tally: t };
        let a1 = ActionView::Run(curl_post_text(mode, base_url, path, payloads[index]));
        assert(post_next(mode, base_url, items, s0, e1) == (s1, a1));
        let s2 = ItemStateView::Reading { index: index as usize, tally: t, received: received[index] };
        let a2 = ActionView::ReadExpected(file);
        assert(post_next(mode, base_url, items, s1, e2) == (s2, a2));
        assert(expected.take(index + 1).drop_last() =~= expected.take(index));
        assert(received.take(index + 1).drop_last() =~= received.take(index));
        let t1 = tally_replies(expected.take(index + 1), received.take(index + 1));
        assert(t1 == record(t, expected[index] == received[index]));
        let (s3, a3) = post_advance(items, (index + 1) as usize, t1);
        assert(post_next(mode, base_url, items, s2, e3) == (s3, a3));
        lemma_post_run_from(mode, base_url, items, payloads, expected, received, index + 1);
        let ev1 = events.drop_first();
        let ev2 = ev1.drop_first();
        assert(ev1 =~= seq![e2, e3] + rest);
        assert(ev2 =~= seq![e3] + rest);
        assert(ev2.drop_first() =~= rest);
        assert(events[0] == e1 && ev1[0] == e2 && ev2[0] == e3);
        assert(post_after(mode, base_url, items, s2, a2, ev2) == post_after(mode, base_url, items, s3, a3, rest));
        assert(post_after(mode, base_url, items, s1, a1, ev1) == post_after(mode, base_url, items, s2, a2, ev2));
        assert(post_after(mode, base_url, items, s0, a0, events) == post_after(mode, base_url, items, s1, a1, ev1));
    }
}

/// A POST run over `n` well-formed items in which every outside action succeeds (item
/// `i` reads `payloads[i]`, gets `received[i]` from the server and `expected[i]` from its
/// file) ends with `n` items judged and as many passes as replies equal to their file.
pub proof fn lemma_post_run_tally(mode: Seq<char>, base_url: Seq<char>, items: Json, payloads: Seq<Seq<char>>, expected: Seq<Seq<char>>, received: Seq<Seq<char>>)
    requires
        elements_of(items) matches Some(list) && list.len() == expected.len() && forall|i: int|
            0 <= i < list.len() ==> #[trigger] post_item(list[i]) is Ok,
        expected.len() == received.len(),
        payloads.len() == expected.len(),
        expected.len() <= usize::MAX,
    ensures
        ({
            let (s, a) = post_next(
                mode,
                base_url,
                items,
                ItemStateView::Next { index: 0, tally: no_replies() },
                EventView::Begin,
            );
            post_after(mode, base_url, items, s, a, post_events(payloads, expected, received))
        }) == (ItemStateView::Over, ActionView::Done(
            RunTally { all: expected.len() as usize, passes: count_equal(expected, received) as usize },
        )),
{
    assert(expected.take(0) =~= Seq::<Seq<char>>::empty());
    assert(received.take(0) =~= Seq::<Seq<char>>::empty());
    assert(expected.skip(0) =~= expected);
    assert(received.skip(0) =~= received);
    assert(payloads.skip(0) =~= payloads);
    lemma_post_run_from(mode, base_url, items, payloads, expected, received, 0);
    lemma_tally_counts(expected, received);
}


/// The GET and the POST items of `mode` among the test items, or the member that is missing.
pub open spec fn http_lists(items: Json, mode: Seq<char>) -> Result<(Json, Json), ConfigFault> {
    match value_at(items, mode) {
        Err(e) => Err(e),
        Ok(mode_items) => match value_at(mode_items, "get"@) {
            Err(e) => Err(e),
            Ok(get_items) => match value_at(mode_items, "post"@) {
                Err(e) => Err(e),
                Ok(post_items) => Ok((get_items, post_items)),
            },
        },
    }
}

/// Where an HTTP run (the GET items, then the POST items, on one server) stands.
#[derive(Debug, PartialEq, Eq)]
pub enum HttpState {
    /// Nothing was done yet.
    Ready,
    /// The server was asked to start.
    Starting,
    /// The GET run stands at `s`.
    Get { s: ItemState },
    /// The GET run ended with `got`, and the POST run stands at `s`.
    Post { got: RunTally, s: ItemState },
    /// The server was asked to stop; `total` counts both runs.
    Stopping { total: RunTally },
    /// The run is over.
    Over,
}

/// The content of an `HttpState`.
pub enum HttpStateView {
    Ready,
    Starting,
    Get { s: ItemStateView },
    Post { got: RunTally, s: ItemStateView },
    Stopping { total: RunTally },
    Over,
}

impl View for HttpState {
    type V = HttpStateView;

    open spec fn view(&self) -> HttpStateView {
        match self {
            HttpState::Ready => HttpStateView::Ready,
            HttpState::Starting => HttpStateView::Starting,
            HttpState::Get { s } => HttpStateView::Get { s: s@ },
            HttpState::Post { got, s } => HttpStateView::Post { got: *got, s: s@ },
            HttpState::Stopping { total } => HttpStateView::Stopping { total: *total },
            HttpState::Over => HttpStateView::Over,
        }
    }
}

/// The inner runs' states are sound.
pub open spec fn http_state_ok(s: HttpStateView) -> bool {
    match s {
        HttpStateView::Get { s } => item_state_ok(s),
        HttpStateView::Post { s, .. } => item_state_ok(s),
        _ => true,
    }
}

impl HttpState {
    /// The state before anything is done.
    pub fn start() -> (r: HttpState)
        ensures
            r@ == HttpStateView::Ready,
    {
        HttpState::Ready
    }
}

/// The sum of two tallies, when it can be counted.
pub open spec fn sum_of(a: RunTally, b: RunTally) -> Option<RunTally> {
    if a.all + b.all <= usize::MAX && a.passes + b.passes <= usize::MAX {
        Some(RunTally { all: (a.all + b.all) as usize, passes: (a.passes + b.passes) as usize })
    } else {
        None
    }
}

/// An HTTP run after a step of its POST run, whose GET run ended with `got`: when the
/// POST run ends, the server is stopped; when it fails, the run fails and the server
/// is stopped.
pub open spec fn http_after_post(got: RunTally, r: (ItemStateView, ActionView)) -> (HttpStateView, ActionView) {
    match r.1 {
        ActionView::Done(t) => match sum_of(got, t) {
            Some(total) => (HttpStateView::Stopping { total }, ActionView::StopServer),
            None => (
                HttpStateView::Over,
                ActionView::Fail { fault: FaultView::TooManyReplies, stop_server: true },
            ),
        },
        ActionView::Fail { fault, .. } => (HttpStateView::Over, ActionView::Fail { fault, stop_server: true }),
        _ => (HttpStateView::Post { got, s: r.0 }, r.1),
    }
}

/// An HTTP run after a step of its GET run: when the GET run ends, the POST run
/// begins; when it fails, the run fails and the server is stopped.
pub open spec fn http_after_get(mode: Seq<char>, base_url: Seq<char>, post_items: Json, r: (ItemStateView, ActionView)) -> (HttpStateView, ActionView) {
    match r.1 {
        ActionView::Done(t) => http_after_post(
            t,
            post_next(
                mode,
                base_url,
                post_items,
                ItemStateView::Next { index: 0, tally: no_replies() },
                EventView::Begin,
            ),
        ),
        ActionView::Fail { fault, .. } => (HttpStateView::Over, ActionView::Fail { fault, stop_server: true }),
        _ => (HttpStateView::Get { s: r.0 }, r.1),
    }
}

/// One step of an HTTP run: the GET and POST lists of `mode` are looked up, the server
/// is started, the GET run and then the POST run are made, and the server is stopped;
/// the run ends with the two tallies added.
pub open spec fn http_next(server_args: Seq<char>, mode: Seq<char>, base_url: Seq<char>, items: Json, s: HttpStateView, ev: EventView) -> (HttpStateView, ActionView) {
    match s {
        HttpStateView::Ready => match ev {
            EventView::Begin => match http_lists(items, mode) {
                Err(e) => (HttpStateView::Over, config_fail(e, false)),
                Ok(_) => (HttpStateView::Starting, ActionView::StartServer(server_args)),
            },
            _ => (HttpStateView::Over, out_of_order()),
        },
        HttpStateView::Starting => match ev {
            EventView::Started => match http_lists(items, mode) {
                Ok((get_items, post_items)) => http_after_get(
                    mode,
                    base_url,
                    post_items,
                    get_next(
                        base_url,
                        get_items,
                        ItemStateView::Next { index: 0, tally: no_replies() },
                        EventView::Begin,
                    ),
                ),
                Err(_) => (HttpStateView::Over, out_of_order()),
            },
            EventView::Failed(m) => (HttpStateView::Over, io_fail(m)),
            _ => (HttpStateView::Over, out_of_order()),
        },
        HttpStateView::Get { s } => match http_lists(items, mode) {
            Ok((get_items, post_items)) => http_after_get(
                mode,
                base_url,
                post_items,
                get_next(base_url, get_items, s, ev),
            ),
            Err(_) => (HttpStateView::Over, out_of_order()),
        },
        HttpStateView::Post { got, s } => match http_lists(items, mode) {
            Ok((get_items, post_items)) => http_after_post(got, post_next(mode, base_url, post_items, s, ev)),
            Err(_) => (HttpStateView::Over, out_of_order()),
        },
        HttpStateView::Stopping { total } => match ev {
            EventView::Stopped => (HttpStateView::Over, ActionView::Done(total)),
            EventView::Failed(m) => (HttpStateView::Over, io_fail(m)),
            _ => (HttpStateView::Over, out_of_order()),
        },
        HttpStateView::Over => (HttpStateView::Over, out_of_order()),
    }
}

fn http_lists_of(items: &JsonValue, mode: &str) -> (r: Result<(JsonValue, JsonValue), ConfigError>)
    ensures
        match r {
            Ok((g, p)) => http_lists(items@, mode@) == Ok::<(Json, Json), ConfigFault>((g@, p@)),
            Err(e) => http_lists(items@, mode@) == Err::<(Json, Json), ConfigFault>(e@),
        },
{
    let mode_items = get_json_value(items, mode)?;
    let get_items = get_json_value(&mode_items, "get")?;
    let post_items = get_json_value(&mode_items, "post")?;
    Ok((get_items, post_items))
}

fn http_after_post_step(got: RunTally, r: (ItemState, Action)) -> (o: (HttpState, Action))
    requires
        item_state_ok(r.0@),
    ensures
        (o.0@, o.1@) == http_after_post(got, (r.0@, r.1@)),
        http_state_ok(o.0@),
{
    let (s, action) = r;
    match action {
        Action::Done(t) => {
            if t.all <= usize::MAX - got.all && t.passes <= usize::MAX - got.passes {
                (HttpState::Stopping { total: RunTally { all: got.all + t.all, passes: got.passes + t.passes } }, Action::StopServer)
            } else {
                (HttpState::Over, Action::Fail { fault: Fault::TooManyReplies, stop_server: true })
            }
        },
        Action::Fail { fault, stop_server } => (HttpState::Over, Action::Fail { fault, stop_server: true }),
        other => (HttpState::Post { got, s }, other),
    }
}

fn http_after_get_step(mode: &str, base_url: &str, post_items: &JsonValue, r: (ItemState, Action)) -> (o: (HttpState, Action))
    requires
        item_state_ok(r.0@),
    ensures
        (o.0@, o.1@) == http_after_get(mode@, base_url@, post_items@, (r.0@, r.1@)),
        http_state_ok(o.0@),
{
    let (s, action) = r;
    match action {
        Action::Done(t) => {
            let first = post_step(mode, base_url, post_items, ItemState::start(), Event::Begin);
            http_after_post_step(t, first)
        },
        Action::Fail { fault, stop_server } => (HttpState::Over, Action::Fail { fault, stop_server: true }),
        other => (HttpState::Get { s }, other),
    }
}

/// One step of an HTTP run over the test items `items` in `mode`, where the server is
/// started with `server_args` and reached at `base_url`.
pub fn http_step(server_args: &str, mode: &str, base_url: &str, items: &JsonValue, s: HttpState, ev: Event) -> (r: (HttpState, Action))
    requires
        http_state_ok(s@),
    ensures
        (r.0@, r.1@) == http_next(server_args@, mode@, base_url@, items@, s@, ev@),
        http_state_ok(r.0@),
{
    match s {
        HttpState::Ready => match ev {
            Event::Begin => match http_lists_of(items, mode) {
                Err(e) => (HttpState::Over, Action::Fail { fault: Fault::Config(e), stop_server: false }),
                Ok(_) => (HttpState::Starting, Action::StartServer(server_args.to_owned())),
            },
            _ => (HttpState::Over, Action::Fail { fault: Fault::OutOfOrder, stop_server: false }),
        },
        HttpState::Starting => match ev {
            Event::Started => match http_lists_of(items, mode) {
                Ok((get_items, post_items)) => {
                    let first = get_step(base_url, &get_items, ItemState::start(), Event::Begin);
                    http_after_get_step(mode, base_url, &post_items, first)
                },
                Err(_) => (HttpState::Over, Action::Fail { fault: Fault::OutOfOrder, stop_server: false }),
            },
            Event::Failed(m) => (HttpState::Over, Action::Fail { fault: Fault::Io(m), stop_server: false }),
            _ => (HttpState::Over, Action::Fail { fault: Fault::OutOfOrder, stop_server: false }),
        },
        HttpState::Get { s } => match http_lists_of(items, mode) {
            Ok((get_items, post_items)) => {
                let r = get_step(base_url, &get_items, s, ev);
                http_after_get_step(mode, base_url, &post_items, r)
            },
            Err(_) => (HttpState::Over, Action::Fail { fault: Fault::OutOfOrder, stop_server: false }),
        },
        HttpState::Post { got, s } => match http_lists_of(items, mode) {
            Ok((get_items, post_items)) => {
                let r = post_step(mode, base_url, &post_items, s, ev);
                http_after_post_step(got, r)
            },
            Err(_) => (HttpState::Over, Action::Fail { fault: Fault::OutOfOrder, stop_server: false }),
        },
        HttpState::Stopping { total } => match ev {
            Event::Stopped => (HttpState::Over, Action::Done(total)),
            Event::Failed(m) => (HttpState::Over, Action::Fail { fault: Fault::Io(m), stop_server: false }),
            _ => (HttpState::Over, Action::Fail { fault: Fault::OutOfOrder, stop_server: false }),
        },
        HttpState::Over => (HttpState::Over, Action::Fail { fault: Fault::OutOfOrder, stop_server: false }),
    }
}


/// Where an HTTP run that stands at `s`, having asked for `a`, stands after `events`.
pub open spec fn http_after(server_args: Seq<char>, mode: Seq<char>, base_url: Seq<char>, items: Json, s: HttpStateView, a: ActionView, events: Seq<EventView>) -> (HttpStateView, ActionView)
    decreases events.len(),
{
    if events.len() == 0 {
        (s, a)
    } else {
        let (s2, a2) = http_next(server_args, mode, base_url, items, s, events[0]);
        http_after(server_args, mode, base_url, items, s2, a2, events.drop_first())
    }
}

proof fn lemma_http_after_concat(server_args: Seq<char>, mode: Seq<char>, base_url: Seq<char>, items: Json, s: HttpStateView, a: ActionView, x: Seq<EventView>, y: Seq<EventView>)
    ensures
        http_after(server_args, mode, base_url, items, s, a, x + y) == ({
            let (s1, a1) = http_after(server_args, mode, base_url, items, s, a, x);
            http_after(server_args, mode, base_url, items, s1, a1, y)
        }),
    decreases x.len(),
{
    if x.len() == 0 {
        assert(x + y =~= y);
    } else {
        let (s2, a2) = http_next(server_args, mode, base_url, items, s, x[0]);
        assert((x + y)[0] == x[0]);
        assert((x + y).drop_first() =~= x.drop_first() + y);
        lemma_http_after_concat(server_args, mode, base_url, items, s2, a2, x.drop_first(), y);
    }
}

/// A GET or POST step that ends or fails its run leaves it over.
proof fn lemma_item_steps_end_over(mode: Seq<char>, base_url: Seq<char>, items: Json, s: ItemStateView, ev: EventView)
    ensures
        get_next(base_url, items, s, ev).1 is Done || get_next(base_url, items, s, ev).1 is Fail
            ==> get_next(base_url, items, s, ev).0 is Over,
        post_next(mode, base_url, items, s, ev).1 is Done || post_next(mode, base_url, items, s, ev).1 is Fail
            ==> post_next(mode, base_url, items, s, ev).0 is Over,
{
}

/// Once over, a GET or POST run answers every further event with a fault.
proof fn lemma_item_over_stays(mode: Seq<char>, base_url: Seq<char>, items: Json, a: ActionView, events: Seq<EventView>)
    requires
        events.len() > 0,
    ensures
        get_after(base_url, items, ItemStateView::Over, a, events) == (ItemStateView::Over, out_of_order()),
        post_after(mode, base_url, items, ItemStateView::Over, a, events) == (ItemStateView::Over, out_of_order()),
    decreases events.len(),
{
    if events.len() > 1 {
        lemma_item_over_stays(mode, base_url, items, out_of_order(), events.drop_first());
    } else {
        assert(events.drop_first().len() == 0);
        assert(get_after(base_url, items, ItemStateView::Over, out_of_order(), events.drop_first())
            == (ItemStateView::Over, out_of_order()));
        assert(post_after(mode, base_url, items, ItemStateView::Over, out_of_order(), events.drop_first())
            == (ItemStateView::Over, out_of_order()));
    }
}

/// An HTTP run follows its GET run: when the GET run, from `r`, ends with `t` after
/// `events`, so does the HTTP run's GET part, which then goes on to the POST run.
proof fn lemma_http_follows_get(server_args: Seq<char>, mode: Seq<char>, base_url: Seq<char>, items: Json, r: (ItemStateView, ActionView), events: Seq<EventView>, t: RunTally)
    requires
        http_lists(items, mode) matches Ok((get_items, post_items)) && get_after(base_url, get_items, r.0, r.1, events)
            == (ItemStateView::Over, ActionView::Done(t)),
        (r.1 is Done || r.1 is Fail) ==> r.0 is Over,
    ensures
        http_lists(items, mode) matches Ok((get_items, post_items)) && ({
            let (h, a) = http_after_get(mode, base_url, post_items, r);
            http_after(server_args, mode, base_url, items, h, a, events)
        }) == http_after_get(mode, base_url, post_items, (ItemStateView::Over, ActionView::Done(t))),
    decreases events.len(),
{
    let (get_items, post_items) = http_lists(items, mode)->Ok_0;
    if events.len() > 0 {
        if r.1 is Done || r.1 is Fail {
            lemma_item_over_stays(mode, base_url, get_items, r.1, events);
        }
        let r2 = get_next(base_url, get_items, r.0, events[0]);
        lemma_item_steps_end_over(mode, base_url, get_items, r.0, events[0]);
        lemma_http_follows_get(server_args, mode, base_url, items, r2, events.drop_first(), t);
    }
}

/// An HTTP run follows its POST run, as it follows its GET run.
proof fn lemma_http_follows_post(server_args: Seq<char>, mode: Seq<char>, base_url: Seq<char>, items: Json, got: RunTally, r: (ItemStateView, ActionView), events: Seq<EventView>, t: RunTally)
    requires
        http_lists(items, mode) matches Ok((get_items, post_items)) && post_after(mode, base_url, post_items, r.0, r.1, events)
            == (ItemStateView::Over, ActionView::Done(t)),
        (r.1 is Done || r.1 is Fail) ==> r.0 is Over,
    ensures
        ({
            let (h, a) = http_after_post(got, r);
            http_after(server_args, mode, base_url, items, h, a, events)
        }) == http_after_post(got, (ItemStateView::Over, ActionView::Done(t))),
    decreases events.len(),
{
    let (get_items, post_items) = http_lists(items, mode)->Ok_0;
    if events.len() > 0 {
        if r.1 is Done || r.1 is Fail {
            lemma_item_over_stays(mode, base_url, post_items, r.1, events);
        }
        let r2 = post_next(mode, base_url, post_items, r.0, events[0]);
        lemma_item_steps_end_over(mode, base_url, post_items, r.0, events[0]);
        lemma_http_follows_post(server_args, mode, base_url, items, got, r2, events.drop_first(), t);
    }
}

/// An HTTP run whose GET and POST items are well formed and in which every outside
/// action succeeds (GET item `i` gets `get_received[i]` from the server and
/// `get_expected[i]` from its file; POST item `i` sends `payloads[i]`, gets
/// `post_received[i]` and expects `post_expected[i]`) ends with every item of both
/// lists judged and as many passes as replies equal to their file.
pub proof fn lemma_http_run_tally(server_args: Seq<char>, mode: Seq<char>, base_url: Seq<char>, items: Json, get_expected: Seq<Seq<char>>, get_received: Seq<Seq<char>>, payloads: Seq<Seq<char>>, post_expected: Seq<Seq<char>>, post_received: Seq<Seq<char>>)
    requires
        http_lists(items, mode) matches Ok((get_items, post_items)) && (elements_of(get_items) matches Some(list)
            && list.len() == get_expected.len() && forall|i: int|
            0 <= i < list.len() ==> #[trigger] get_item(base_url, list[i]) is Ok) && (elements_of(post_items) matches Some(list)
            && list.len() == post_expected.len() && forall|i: int|
            0 <= i < list.len() ==> #[trigger] post_item(list[i]) is Ok),
        get_expected.len() == get_received.len(),
        payloads.len() == post_expected.len(),
        post_expected.len() == post_received.len(),
        get_expected.len() + post_expected.len() <= usize::MAX,
    ensures
        http_after(
            server_args,
            mode,
            base_url,
            items,
            HttpStateView::Ready,
            ActionView::StopServer,
            seq![EventView::Begin, EventView::Started] + reply_events(get_expected, get_received)
                + post_events(payloads, post_expected, post_received) + seq![EventView::Stopped],
        ) == (HttpStateView::Over, ActionView::Done(
            RunTally {
                all: (get_expected.len() + post_expected.len()) as usize,
                passes: (count_equal(get_expected, get_received) + count_equal(post_expected, post_received)) as usize,
            },
        )),
{
    let (get_items, post_items) = http_lists(items, mode)->Ok_0;
    lemma_get_run_tally(base_url, get_items, get_expected, get_received);
    lemma_post_run_tally(mode, base_url, post_items, payloads, post_expected, post_received);
    lemma_tally_counts(get_expected, get_received);
    lemma_tally_counts(post_expected, post_received);
    let tg = RunTally { all: get_expected.len() as usize, passes: count_equal(get_expected, get_received) as usize };
    let tp = RunTally { all: post_expected.len() as usize, passes: count_equal(post_expected, post_received) as usize };
    lemma_http_sums_runs(
        server_args,
        mode,
        base_url,
        items,
        reply_events(get_expected, get_received),
        post_events(payloads, post_expected, post_received),
        tg,
        tp,
    );
}

/// Whatever the GET and POST runs meet: when the GET run, through `get_events`, ends
/// with `get_tally` and the POST run, through `post_events`, ends with `post_tally`,
/// the HTTP run that starts the server, makes both and stops the server ends with the
/// sum of the two tallies.
pub proof fn lemma_http_sums_runs(server_args: Seq<char>, mode: Seq<char>, base_url: Seq<char>, items: Json, get_events: Seq<EventView>, post_events: Seq<EventView>, get_tally: RunTally, post_tally: RunTally)
    requires
        http_lists(items, mode) matches Ok((get_items, post_items)) && ({
            let (s, a) = get_next(
                base_url,
                get_items,
                ItemStateView::Next { index: 0, tally: no_replies() },
                EventView::Begin,
            );
            get_after(base_url, get_items, s, a, get_events)
        }) == (ItemStateView::Over, ActionView::Done(get_tally)) && ({
            let (s, a) = post_next(
                mode,
                base_url,
                post_items,
                ItemStateView::Next { index: 0, tally: no_replies() },
                EventView::Begin,
            );
            post_after(mode, base_url, post_items, s, a, post_events)
        }) == (ItemStateView::Over, ActionView::Done(post_tally)),
        get_tally.all + post_tally.all <= usize::MAX,
        get_tally.passes + post_tally.passes <= usize::MAX,
    ensures
        http_after(
            server_args,
            mode,
            base_url,
            items,
            HttpStateView::Ready,
            ActionView::StopServer,
            seq![EventView::Begin, EventView::Started] + get_events + post_events + seq![EventView::Stopped],
        ) == (HttpStateView::Over, ActionView::Done(
            RunTally {
                all: (get_tally.all + post_tally.all) as usize,
                passes: (get_tally.passes + post_tally.passes) as usize,
            },
        )),
{
    let (get_items, post_items) = http_lists(items, mode)->Ok_0;
    let start = ItemStateView::Next { index: 0, tally: no_replies() };
    let ge = get_events;
    let pe = post_events;
    let tg = get_tally;
    let tp = post_tally;
    let total = RunTally { all: (tg.all + tp.all) as usize, passes: (tg.passes + tp.passes) as usize };
    // Begin and Started: the server starts, and the GET run begins.
    let head = seq![EventView::Begin, EventView::Started];
    let rg = get_next(base_url, get_items, start, EventView::Begin);
    lemma_item_steps_end_over(mode, base_url, get_items, start, EventView::Begin);
    let (h1, a1) = http_after_get(mode, base_url, post_items, rg);
    assert(head[0] == EventView::Begin);
    let h0 = head.drop_first();
    assert(h0[0] == EventView::Started);
    assert(h0.drop_first() =~= Seq::<EventView>::empty());
    assert(http_next(server_args, mode, base_url, items, HttpStateView::Ready, EventView::Begin) == (
        HttpStateView::Starting,
        ActionView::StartServer(server_args),
    ));
    assert(http_after(server_args, mode, base_url, items, h1, a1, h0.drop_first()) == (h1, a1));
    assert(http_after(server_args, mode, base_url, items, HttpStateView::Starting, ActionView::StartServer(server_args), h0)
        == (h1, a1));
    assert(http_after(server_args, mode, base_url, items, HttpStateView::Ready, ActionView::StopServer, head) == (h1, a1));
    // The GET run.
    lemma_http_follows_get(server_args, mode, base_url, items, rg, ge, tg);
    let rp = post_next(mode, base_url, post_items, start, EventView::Begin);
    lemma_item_steps_end_over(mode, base_url, post_items, start, EventView::Begin);
    assert(http_after_get(mode, base_url, post_items, (ItemStateView::Over, ActionView::Done(tg))) == http_after_post(tg, rp));
    // The POST run.
    lemma_http_follows_post(server_args, mode, base_url, items, tg, rp, pe, tp);
    assert(sum_of(tg, tp) == Some(total));
    let tail = seq![EventView::Stopped];
    assert(tail[0] == EventView::Stopped);
    assert(tail.drop_first() =~= Seq::<EventView>::empty());
    assert(http_after(server_args, mode, base_url, items, HttpStateView::Over, ActionView::Done(total), tail.drop_first())
        == (HttpStateView::Over, ActionView::Done(total)));
    assert(http_after(server_args, mode, base_url, items, HttpStateView::Stopping { total }, ActionView::StopServer, tail)
        == (HttpStateView::Over, ActionView::Done(total)));
    lemma_http_after_concat(server_args, mode, base_url, items, HttpStateView::Ready, ActionView::StopServer, head, ge);
    lemma_http_after_concat(server_args, mode, base_url, items, HttpStateView::Ready, ActionView::StopServer, head + ge, pe);
    lemma_http_after_concat(server_args, mode, base_url, items, HttpStateView::Ready, ActionView::StopServer, head + ge + pe, tail);
}


/// Member `key` of `item` as a string (the empty text where it is none).
pub open spec fn member_text(item: Json, key: Seq<char>) -> Seq<char> {
    match string_at(item, key) {
        Ok(t) => t,
        Err(_) => Seq::empty(),
    }
}

/// A list of items whose members `keys` are all strings, short enough to be counted.
pub open spec fn items_with_texts(items: Json, keys: Seq<Seq<char>>) -> bool {
    &&& elements_of(items) matches Some(list)
    &&& list.len() <= usize::MAX
    &&& forall|i: int, k: int|
        0 <= i < list.len() && 0 <= k < keys.len() ==> #[trigger] string_at(list[i], #[trigger] keys[k]) is Ok
}

/// A tally after one more judged reply, a pass exactly when the reply equals the expected text.
pub open spec fn judged(t: RunTally, expected: Seq<char>, received: Seq<char>) -> RunTally {
    RunTally {
        all: (t.all + 1) as usize,
        passes: (t.passes + if expected == received {
            1int
        } else {
            0int
        }) as usize,
    }
}

/// Each step of a GET run works on its own item: item `i`'s request fetches its own
/// `path` from `base_url`, the reply to it is compared with its own `file`, and once
/// judged the run goes on to item `i + 1`'s path, or ends with the tally after the last.
pub proof fn lemma_get_steps_follow_items(base_url: Seq<char>, items: Json, i: usize, t: RunTally, received: Seq<char>, expected: Seq<char>)
    requires
        items_with_texts(items, seq!["path"@, "file"@]),
        i < elements_of(items)->Some_0.len(),
    ensures
        ({
            let list = elements_of(items)->Some_0;
            let path = member_text(list[i as int], "path"@);
            let file = member_text(list[i as int], "file"@);
            &&& get_next(base_url, items, ItemStateView::Next { index: i, tally: t }, EventView::Begin) == (
                ItemStateView::Fetching { index: i, tally: t },
                ActionView::Run("curl --connect-timeout 5 \""@ + base_url + path + "\""@),
            )
            &&& get_next(base_url, items, ItemStateView::Fetching { index: i, tally: t }, EventView::Output(received)) == (
                ItemStateView::Reading { index: i, tally: t, received },
                ActionView::ReadExpected(file),
            )
            &&& i + 1 < list.len() ==> get_next(
                base_url,
                items,
                ItemStateView::Reading { index: i, tally: t, received },
                EventView::Text(expected),
            ) == (
                ItemStateView::Fetching { index: (i + 1) as usize, tally: judged(t, expected, received) },
                ActionView::Run(
                    "curl --connect-timeout 5 \""@ + base_url + member_text(list[i + 1], "path"@) + "\""@,
                ),
            )
            &&& i + 1 == list.len() ==> get_next(
                base_url,
                items,
                ItemStateView::Reading { index: i, tally: t, received },
                EventView::Text(expected),
            ) == (ItemStateView::Over, ActionView::Done(judged(t, expected, received)))
        }),
{
    let keys = seq!["path"@, "file"@];
    let list = elements_of(items)->Some_0;
    assert(keys[0] == "path"@ && keys[1] == "file"@);
    assert(string_at(list[i as int], keys[0]) is Ok && string_at(list[i as int], keys[1]) is Ok);
    assert(item_at(items, i as int) == Some(list[i as int]));
    if i + 1 < list.len() {
        assert(string_at(list[i + 1], keys[0]) is Ok && string_at(list[i + 1], keys[1]) is Ok);
    }
}

/// Each step of a POST run in mode `mode` works on its own item: item `i`'s payload
/// file is read, the payload text is posted to its own `path` (as form data in the
/// `basic` mode, as JSON with its content type in the `advanced` mode), the reply is
/// compared with its own `file`, and once judged the run goes on to item `i + 1`'s
/// payload, or ends with the tally after the last.
pub proof fn lemma_post_steps_follow_items(mode: Seq<char>, base_url: Seq<char>, items: Json, i: usize, t: RunTally, payload: Seq<char>, received: Seq<char>, expected: Seq<char>)
    requires
        items_with_texts(items, seq!["path"@, "payload"@, "file"@]),
        i < elements_of(items)->Some_0.len(),
    ensures
        ({
            let list = elements_of(items)->Some_0;
            let path = member_text(list[i as int], "path"@);
            let loading = ItemStateView::Loading { index: i, tally: t };
            &&& post_next(mode, base_url, items, ItemStateView::Next { index: i, tally: t }, EventView::Begin) == (
                loading,
                ActionView::ReadPayload(member_text(list[i as int], "payload"@)),
            )
            &&& mode == "basic"@ ==> post_next(mode, base_url, items, loading, EventView::Text(payload)) == (
                ItemStateView::Fetching { index: i, tally: t },
                ActionView::Run(
                    "curl --connect-timeout 5 -d \""@ + payload + "\" -X POST \""@ + base_url + path + "\""@,
                ),
            )
            &&& mode == "advanced"@ ==> post_next(mode, base_url, items, loading, EventView::Text(payload)) == (
                ItemStateView::Fetching { index: i, tally: t },
                ActionView::Run(
                    "curl --connect-timeout 5 -H 'Content-Type: application/json' -d '"@ + payload
                        + "' -X POST \""@ + base_url + path + "\""@,
                ),
            )
            &&& post_next(mode, base_url, items, ItemStateView::Fetching { index: i, tally: t }, EventView::Output(received))
                == (
                ItemStateView::Reading { index: i, tally: t, received },
                ActionView::ReadExpected(member_text(list[i as int], "file"@)),
            )
            &&& i + 1 < list.len() ==> post_next(
                mode,
                base_url,
                items,
                ItemStateView::Reading { index: i, tally: t, received },
                EventView::Text(expected),
            ) == (
                ItemStateView::Loading { index: (i + 1) as usize, tally: judged(t, expected, received) },
                ActionView::ReadPayload(member_text(list[i + 1], "payload"@)),
            )
            &&& i + 1 == list.len() ==> post_next(
                mode,
                base_url,
                items,
                ItemStateView::Reading { index: i, tally: t, received },
                EventView::Text(expected),
            ) == (ItemStateView::Over, ActionView::Done(judged(t, expected, received)))
        }),
{
    let keys = seq!["path"@, "payload"@, "file"@];
    let list = elements_of(items)->Some_0;
    reveal_strlit("basic");
    reveal_strlit("advanced");
    assert("advanced"@.len() != "basic"@.len());
    assert(keys[0] == "path"@ && keys[1] == "payload"@ && keys[2] == "file"@);
    assert(string_at(list[i as int], keys[0]) is Ok && string_at(list[i as int], keys[1]) is Ok
        && string_at(list[i as int], keys[2]) is Ok);
    assert(item_at(items, i as int) == Some(list[i as int]));
    if i + 1 < list.len() {
        assert(string_at(list[i + 1], keys[0]) is Ok && string_at(list[i + 1], keys[1]) is Ok
            && string_at(list[i + 1], keys[2]) is Ok);
    }
}


/// An HTTP run starts the server with its arguments, then makes the GET run over the
/// member `get` of the items of `mode`, and when that ends, the POST run over the
/// member `post`, carrying the GET tally along.
pub proof fn lemma_http_runs_get_then_post(server_args: Seq<char>, mode: Seq<char>, base_url: Seq<char>, items: Json, s: ItemStateView, ev: EventView)
    requires
        value_at(items, mode) is Ok,
        value_at(value_at(items, mode)->Ok_0, "get"@) is Ok,
        value_at(value_at(items, mode)->Ok_0, "post"@) is Ok,
    ensures
        ({
            let get_items = value_at(value_at(items, mode)->Ok_0, "get"@)->Ok_0;
            let post_items = value_at(value_at(items, mode)->Ok_0, "post"@)->Ok_0;
            let start = ItemStateView::Next { index: 0, tally: no_replies() };
            let g = get_next(base_url, get_items, start, EventView::Begin);
            let g2 = get_next(base_url, get_items, s, ev);
            let p = post_next(mode, base_url, post_items, start, EventView::Begin);
            &&& http_next(server_args, mode, base_url, items, HttpStateView::Ready, EventView::Begin) == (
                HttpStateView::Starting,
                ActionView::StartServer(server_args),
            )
            &&& g.1 is Run ==> http_next(server_args, mode, base_url, items, HttpStateView::Starting, EventView::Started)
                == (HttpStateView::Get { s: g.0 }, g.1)
            &&& (g2.1 is Run || g2.1 is ReadExpected) ==> http_next(server_args, mode, base_url, items, HttpStateView::Get { s }, ev)
                == (HttpStateView::Get { s: g2.0 }, g2.1)
            &&& (g2.1 is Done && p.1 is ReadPayload) ==> http_next(server_args, mode, base_url, items, HttpStateView::Get { s }, ev)
                == (HttpStateView::Post { got: g2.1->Done_0, s: p.0 }, p.1)
        }),
{
}

} // verus!

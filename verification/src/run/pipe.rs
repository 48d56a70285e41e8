//! Pipelining tests: several requests sent on one connection, whose replies'
//! bodies must equal those of the same requests sent one by one.
use vstd::prelude::*;

use crate::config::{base_url_text, ConfigError, ConfigFault, ItemKind};
use crate::json::{elements_of, text_of, views_of, Json, JsonValue};
use crate::run::http::{item_at, judged};
use crate::report::Level;
use crate::run::{item_list, joined3, lines_view};
use crate::run::steps::{
    config_fail, count_equal, io_fail, lemma_tally_counts, no_replies, out_of_order, record,
    record_verdict, tally_ok, tally_replies, Action, ActionView, Event, EventView, Fault,
    FaultView, RunTally,
};
use crate::text::{
    chars_of, contains, decimal, find, find_at_or_after, join, join_strings, lemma_decimal_digits,
    lemma_find, lemma_find_is, lemma_join_empty_is_flatten, occurs_at, replace, replace_str, split,
    split_str, starts_with, str_eq, string_of,
};

verus! {

/// The blank line that ends the head of an HTTP message.
pub open spec fn head_end() -> Seq<char> {
    "\r\n\r\n"@
}

/// The start of the status line of an HTTP/1.1 reply.
pub open spec fn status_start() -> Seq<char> {
    "HTTP/1.1"@
}

/// `s` up to the first occurrence of `pat`; all of `s` when `pat` does not occur.
pub open spec fn before(s: Seq<char>, pat: Seq<char>) -> Seq<char> {
    match find(s, pat) {
        Some(i) => s.take(i),
        None => s,
    }
}

/// Each piece cut before its first status line, laid end to end.
pub open spec fn cut_and_join(pieces: Seq<Seq<char>>) -> Seq<char>
    decreases pieces.len(),
{
    if pieces.len() == 0 {
        Seq::empty()
    } else {
        before(pieces[0], status_start()) + cut_and_join(pieces.drop_first())
    }
}

/// The bodies of a pipelined reply: the reply is cut at each blank line, each piece
/// is cut before its first status line, and the rest is laid end to end.
pub open spec fn response_bodies(response: Seq<char>) -> Seq<char> {
    cut_and_join(split(response, head_end()))
}

/// Cutting one more piece appends its part before the status line.
proof fn lemma_cut_and_join_push(pieces: Seq<Seq<char>>, x: Seq<char>)
    ensures
        cut_and_join(pieces.push(x)) == cut_and_join(pieces) + before(x, status_start()),
    decreases pieces.len(),
{
    if pieces.len() == 0 {
        assert(pieces.push(x).drop_first() =~= Seq::<Seq<char>>::empty());
        assert(pieces.push(x)[0] == x);
        assert(cut_and_join(pieces.push(x).drop_first()) == Seq::<char>::empty());
        assert(cut_and_join(pieces.push(x)) =~= before(x, status_start()));
    } else {
        lemma_cut_and_join_push(pieces.drop_first(), x);
        assert(pieces.push(x).drop_first() =~= pieces.drop_first().push(x));
        assert(cut_and_join(pieces.push(x)) =~= cut_and_join(pieces) + before(x, status_start()));
    }
}

/// The bodies of the replies that `nc` printed for a pipelined request.
pub fn parse_pipelining_response(response: &str) -> (r: String)
    ensures
        r@ == response_bodies(response@),
{
    proof {
        reveal_strlit("\r\n\r\n");
    }
    let pieces = split_str(response, "\r\n\r\n");
    let status = chars_of("HTTP/1.1");
    let mut all_body = String::new();
    let mut k: usize = 0;
    while k < pieces.len()
        invariant
            k <= pieces.len(),
            status@ == status_start(),
            pieces.deep_view() == split(response@, head_end()),
            all_body@ == cut_and_join(pieces.deep_view().take(k as int)),
        decreases pieces.len() - k,
    {
        let piece = chars_of(pieces[k].as_str());
        let end = match find_at_or_after(&piece, &status, 0) {
            Some(i) => i,
            None => piece.len(),
        };
        proof {
            assert(piece@.skip(0) =~= piece@);
            lemma_find(piece@, status@);
        }
        let body = string_of(&piece, 0, end);
        all_body.append(body.as_str());
        proof {
            assert(body@ == before(pieces.deep_view()[k as int], status_start()));
            lemma_cut_and_join_push(pieces.deep_view().take(k as int), pieces.deep_view()[k as int]);
            assert(pieces.deep_view().take(k + 1) =~= pieces.deep_view().take(k as int).push(
                pieces.deep_view()[k as int],
            ));
        }
        k = k + 1;
    }
    assert(pieces.deep_view().take(k as int) =~= pieces.deep_view());
    all_body
}


/// A reply made of heads and bodies: each head, then a blank line, then its body.
pub open spec fn pipelined_reply(heads: Seq<Seq<char>>, bodies: Seq<Seq<char>>) -> Seq<char>
    decreases heads.len(),
{
    if heads.len() == 0 || bodies.len() == 0 {
        Seq::empty()
    } else {
        heads[0] + head_end() + bodies[0] + pipelined_reply(heads.drop_first(), bodies.drop_first())
    }
}

/// A head that begins with a status line, holds no blank line, and does not end in CR or LF.
pub open spec fn plain_head(h: Seq<char>) -> bool {
    &&& starts_with(h, status_start())
    &&& !contains(h, head_end())
    &&& h.last() != '\r'
    &&& h.last() != '\n'
}

/// A body that holds neither a blank line nor the start of a status line.
pub open spec fn plain_body(b: Seq<char>) -> bool {
    !contains(b, head_end()) && !contains(b, status_start())
}

/// The pieces that cutting `lead` followed by a pipelined reply at its blank lines gives.
spec fn reply_pieces(lead: Seq<char>, heads: Seq<Seq<char>>, bodies: Seq<Seq<char>>) -> Seq<Seq<char>>
    decreases heads.len(),
{
    if heads.len() == 0 || bodies.len() == 0 {
        seq![lead]
    } else {
        seq![lead + heads[0]] + reply_pieces(bodies[0], heads.drop_first(), bodies.drop_first())
    }
}

/// The characters of the blank line and of the status line start.
proof fn lemma_marker_chars()
    ensures
        head_end().len() == 4,
        forall|k: int| 0 <= k < 4 ==> #[trigger] head_end()[k] == '\r' || head_end()[k] == '\n',
        head_end()[0] == '\r' && head_end()[1] == '\n' && head_end()[2] == '\r' && head_end()[3]
            == '\n',
        status_start().len() == 8,
        status_start()[0] == 'H',
        forall|k: int| 1 <= k < 8 ==> #[trigger] status_start()[k] != 'H',
{
    reveal_strlit("\r\n\r\n");
    reveal_strlit("HTTP/1.1");
}

/// In `lead`, a plain head, a blank line and anything, the first blank line is the one after the head.
#[verifier::spinoff_prover]
#[verifier::rlimit(40)]
proof fn lemma_first_head_end(lead: Seq<char>, h: Seq<char>, rest: Seq<char>)
    requires
        !contains(lead, head_end()),
        plain_head(h),
    ensures
        find(lead + h + head_end() + rest, head_end()) == Some((lead.len() + h.len()) as int),
{
    lemma_marker_chars();
    let d = head_end();
    let s = lead + h + d + rest;
    let i = (lead.len() + h.len()) as int;
    assert(h[0] == h.take(8)[0]);
    assert(s.subrange(i, i + 4) =~= d);
    assert forall|j: int| 0 <= j < i implies !#[trigger] occurs_at(s, d, j) by {
        if occurs_at(s, d, j) {
            if j + 4 <= lead.len() {
                assert(lead.subrange(j, j + 4) =~= s.subrange(j, j + 4));
                assert(occurs_at(lead, d, j));
            } else if j < lead.len() {
                assert(s[lead.len() as int] == h[0]);
                assert(s.subrange(j, j + 4)[lead.len() - j] == s[lead.len() as int]);
            } else if j + 4 <= i {
                assert(h.subrange(j - lead.len(), j - lead.len() + 4) =~= s.subrange(j, j + 4));
                assert(occurs_at(h, d, j - lead.len()));
            } else {
                assert(s[i - 1] == h.last());
                assert(s.subrange(j, j + 4)[i - 1 - j] == s[i - 1]);
            }
        }
    }
    lemma_find_is(s, d, i);
}

/// `lead` followed by a pipelined reply is cut at its blank lines into `reply_pieces`.
proof fn lemma_split_reply(lead: Seq<char>, heads: Seq<Seq<char>>, bodies: Seq<Seq<char>>)
    requires
        heads.len() == bodies.len(),
        !contains(lead, head_end()),
        forall|k: int| 0 <= k < heads.len() ==> plain_head(#[trigger] heads[k]),
        forall|k: int| 0 <= k < bodies.len() ==> plain_body(#[trigger] bodies[k]),
    ensures
        split(lead + pipelined_reply(heads, bodies), head_end()) == reply_pieces(lead, heads, bodies),
    decreases heads.len(),
{
    lemma_marker_chars();
    let d = head_end();
    if heads.len() == 0 {
        assert(lead + pipelined_reply(heads, bodies) =~= lead);
        lemma_find(lead, d);
    } else {
        let h = heads[0];
        let b = bodies[0];
        let rest = pipelined_reply(heads.drop_first(), bodies.drop_first());
        let s = lead + pipelined_reply(heads, bodies);
        assert(s =~= lead + h + d + (b + rest));
        lemma_first_head_end(lead, h, b + rest);
        let i = (lead.len() + h.len()) as int;
        assert(s.take(i) =~= lead + h);
        assert(s.skip(i + d.len()) =~= b + rest);
        assert(plain_body(bodies[0]));
        lemma_split_reply(b, heads.drop_first(), bodies.drop_first());
    }
}

/// `lead` and then a head: cut before the status line, only `lead` is left.
proof fn lemma_before_head(lead: Seq<char>, h: Seq<char>)
    requires
        !contains(lead, status_start()),
        starts_with(h, status_start()),
    ensures
        before(lead + h, status_start()) == lead,
{
    lemma_marker_chars();
    let p = status_start();
    let s = lead + h;
    let i = lead.len() as int;
    assert(s.subrange(i, i + 8) =~= h.take(8));
    assert forall|j: int| 0 <= j < i implies !#[trigger] occurs_at(s, p, j) by {
        if occurs_at(s, p, j) {
            if j + 8 <= i {
                assert(lead.subrange(j, j + 8) =~= s.subrange(j, j + 8));
                assert(occurs_at(lead, p, j));
            } else {
                assert(h[0] == h.take(8)[0]);
                assert(s[i] == h[0]);
                assert(s.subrange(j, j + 8)[i - j] == s[i]);
            }
        }
    }
    lemma_find_is(s, p, i);
    assert(s.take(i) =~= lead);
}

/// A piece without a status line is kept whole.
proof fn lemma_before_plain(b: Seq<char>)
    requires
        !contains(b, status_start()),
    ensures
        before(b, status_start()) == b,
{
    lemma_find(b, status_start());
}

/// Cutting the pieces of `lead` and a pipelined reply leaves `lead` and the bodies.
proof fn lemma_cut_reply_pieces(lead: Seq<char>, heads: Seq<Seq<char>>, bodies: Seq<Seq<char>>)
    requires
        heads.len() == bodies.len(),
        !contains(lead, status_start()),
        forall|k: int| 0 <= k < heads.len() ==> plain_head(#[trigger] heads[k]),
        forall|k: int| 0 <= k < bodies.len() ==> plain_body(#[trigger] bodies[k]),
    ensures
        cut_and_join(reply_pieces(lead, heads, bodies)) == lead + bodies.flatten(),
    decreases heads.len(),
{
    let pieces = reply_pieces(lead, heads, bodies);
    if heads.len() == 0 {
        lemma_before_plain(lead);
        assert(pieces.drop_first() =~= Seq::<Seq<char>>::empty());
        assert(cut_and_join(pieces.drop_first()) == Seq::<char>::empty());
        assert(cut_and_join(pieces) =~= lead + bodies.flatten());
    } else {
        assert(plain_head(heads[0]));
        assert(plain_body(bodies[0]));
        lemma_before_head(lead, heads[0]);
        lemma_cut_reply_pieces(bodies[0], heads.drop_first(), bodies.drop_first());
        assert(pieces.drop_first() =~= reply_pieces(bodies[0], heads.drop_first(), bodies.drop_first()));
        assert(pieces[0] == lead + heads[0]);
        assert(cut_and_join(pieces) =~= lead + bodies.flatten());
    }
}

/// A pipelined reply (each reply a head that starts with its status line, a blank line,
/// and a body) yields exactly its bodies, laid end to end, when no body holds a blank
/// line or the start of a status line and no head holds a blank line or ends in CR or LF.
pub proof fn lemma_pipelined_reply_bodies(heads: Seq<Seq<char>>, bodies: Seq<Seq<char>>)
    requires
        heads.len() == bodies.len(),
        forall|k: int| 0 <= k < heads.len() ==> plain_head(#[trigger] heads[k]),
        forall|k: int| 0 <= k < bodies.len() ==> plain_body(#[trigger] bodies[k]),
    ensures
        response_bodies(pipelined_reply(heads, bodies)) == bodies.flatten(),
{
    let empty = Seq::<char>::empty();
    lemma_marker_chars();
    assert(!contains(empty, head_end()));
    assert(!contains(empty, status_start()));
    lemma_split_reply(empty, heads, bodies);
    lemma_cut_reply_pieces(empty, heads, bodies);
    assert(empty + pipelined_reply(heads, bodies) =~= pipelined_reply(heads, bodies));
    assert(empty + bodies.flatten() =~= bodies.flatten());
}


/// What is left of a base address once each `http://` is taken out, cut at its colons.
pub open spec fn address_parts(base_url: Seq<char>) -> Seq<Seq<char>> {
    split(replace(base_url, "http://"@, Seq::empty()), ":"@)
}

/// The base address names a host and, after a colon, a port.
pub open spec fn has_port(base_url: Seq<char>) -> bool {
    address_parts(base_url).len() >= 2
}

/// The host and the port of a base address: the first two of its parts.
pub open spec fn host_port(base_url: Seq<char>) -> (Seq<char>, Seq<char>) {
    (address_parts(base_url)[0], address_parts(base_url)[1])
}

/// The host and port of `base_url`, or `None` when it has no port.
pub fn host_and_port(base_url: &str) -> (r: Option<(String, String)>)
    ensures
        r is Some <==> has_port(base_url@),
        r matches Some((ip, port)) ==> (ip@, port@) == host_port(base_url@),
{
    proof {
        reveal_strlit("http://");
        reveal_strlit(":");
        reveal_strlit("");
        assert(""@ =~= Seq::<char>::empty());
    }
    let address = replace_str(base_url, "http://", "");
    let mut parts = split_str(address.as_str(), ":");
    if parts.len() < 2 {
        return None;
    }
    let ghost views = parts.deep_view();
    let port = parts.remove(1);
    let ip = parts.remove(0);
    assert(ip@ == views[0] && port@ == views[1]);
    Some((ip, port))
}

/// `GET {path} HTTP/1.1\r\nHost: {ip}:{port}\r\n\r\n`.
pub open spec fn get_request_text(path: Seq<char>, ip: Seq<char>, port: Seq<char>) -> Seq<char> {
    "GET "@ + path + " HTTP/1.1\r\nHost: "@ + ip + ":"@ + port + "\r\n\r\n"@
}

/// A GET request for each path in turn.
pub open spec fn requests_text(paths: Seq<Seq<char>>, ip: Seq<char>, port: Seq<char>) -> Seq<char>
    decreases paths.len(),
{
    if paths.len() == 0 {
        Seq::empty()
    } else {
        requests_text(paths.drop_last(), ip, port) + get_request_text(paths.last(), ip, port)
    }
}

/// The shell command that sends `requests` to `ip` `port` on one connection with `nc`.
pub open spec fn nc_command_text(requests: Seq<char>, ip: Seq<char>, port: Seq<char>) -> Seq<char> {
    "(echo -en \""@ + requests + "\";)| nc "@ + ip + " "@ + port
}

/// Every value is a string.
pub open spec fn all_strings(items: Seq<Json>) -> bool {
    forall|k: int| 0 <= k < items.len() ==> #[trigger] text_of(items[k]) is Some
}

/// The texts of values that are all strings.
pub open spec fn texts(items: Seq<Json>) -> Seq<Seq<char>> {
    Seq::new(items.len(), |k: int| text_of(items[k])->Some_0)
}

/// The shell command that sends one GET request for each path, and the paths;
/// fails on the first entry that is no string.
pub fn parse_pipelining_requests(base_url: &str, paths: &Vec<JsonValue>) -> (r: Result<(String, Vec<String>), ConfigError>)
    requires
        has_port(base_url@),
    ensures
        match r {
            Ok((cmd, ps)) => {
                let items = views_of(paths@);
                let (ip, port) = host_port(base_url@);
                &&& all_strings(items)
                &&& ps.deep_view() == texts(items)
                &&& cmd@ == nc_command_text(requests_text(texts(items), ip, port), ip, port)
            },
            Err(e) => exists|k: int|
                0 <= k < paths.len() && #[trigger] text_of(paths@[k]@) is None && (forall|j: int|
                    0 <= j < k ==> text_of(paths@[j]@) is Some) && e@ == ConfigFault::PipeEntryNotString(
                    paths@[k]@,
                ),
        },
{
    let (ip, port) = host_and_port(base_url).unwrap();
    let ghost items = views_of(paths@);
    let mut all_requests = String::new();
    let mut all_paths: Vec<String> = Vec::new();
    let mut k: usize = 0;
    while k < paths.len()
        invariant
            k <= paths.len(),
            items == views_of(paths@),
            all_paths.len() == k,
            forall|j: int| 0 <= j < k ==> #[trigger] text_of(items[j]) is Some,
            forall|j: int| 0 <= j < k ==> #[trigger] all_paths@[j]@ == text_of(items[j])->Some_0,
            all_requests@ == requests_text(all_paths.deep_view(), ip@, port@),
        decreases paths.len() - k,
    {
        match paths[k].as_str() {
            Some(path) => {
                let ghost before_paths = all_paths.deep_view();
                all_requests.append("GET ");
                all_requests.append(path);
                all_requests.append(" HTTP/1.1\r\nHost: ");
                all_requests.append(ip.as_str());
                all_requests.append(":");
                all_requests.append(port.as_str());
                all_requests.append("\r\n\r\n");
                all_paths.push(path.to_owned());
                proof {
                    assert(all_paths.deep_view() =~= before_paths.push(path@));
                    assert(all_paths.deep_view().drop_last() =~= before_paths);
                }
            },
            None => {
                proof {
                    assert forall|j: int| 0 <= j < k implies text_of(paths@[j]@) is Some by {
                        assert(items[j] == paths@[j]@);
                    }
                    assert(text_of(paths@[k as int]@) is None);
                }
                return Err(ConfigError::PipeEntryNotString(paths[k].deep_copy()));
            },
        }
        k = k + 1;
    }
    assert(all_paths.deep_view() =~= texts(items));
    let mut cmd = String::from_str("(echo -en \"");
    cmd.append(all_requests.as_str());
    cmd.append("\";)| nc ");
    cmd.append(ip.as_str());
    cmd.append(" ");
    cmd.append(port.as_str());
    Ok((cmd, all_paths))
}


/// The host and port that a pipelining test reads out of the base address are the `ip`
/// and the decimal `port` that the server's address was made of, when `ip` holds no colon.
pub proof fn lemma_host_port_of_base_url(ip: Seq<char>, port: u64)
    requires
        forall|k: int| 0 <= k < ip.len() ==> ip[k] != ':',
    ensures
        has_port(base_url_text(ip, port)),
        host_port(base_url_text(ip, port)) == (ip, decimal(port as nat)),
{
    reveal_strlit("http://");
    reveal_strlit(":");
    let scheme = "http://"@;
    let colon = ":"@;
    let dec = decimal(port as nat);
    lemma_decimal_digits(port as nat);
    let tail = ip + colon + dec;
    let base = base_url_text(ip, port);
    assert(base =~= scheme + tail);
    // The scheme is found at the start, and nowhere in the rest.
    assert(base.subrange(0, 7) =~= scheme);
    lemma_find_is(base, scheme, 0);
    assert(base.take(0) =~= Seq::<char>::empty());
    assert(base.skip(7) =~= tail);
    assert forall|j: int| !#[trigger] occurs_at(tail, scheme, j) by {
        if occurs_at(tail, scheme, j) {
            assert(tail.subrange(j, j + 7)[4] == tail[j + 4]);
            assert(tail.subrange(j, j + 7)[5] == tail[j + 5]);
            if j + 4 < ip.len() {
                assert(tail[j + 4] == ip[j + 4]);
            } else if j + 4 > ip.len() {
                assert(tail[j + 4] == dec[j + 4 - ip.len() - 1]);
            } else {
                assert(tail[j + 5] == dec[0]);
            }
        }
    }
    lemma_find(tail, scheme);
    let removed = split(base, scheme);
    assert(split(tail, scheme) =~= seq![tail]);
    assert(removed =~= seq![Seq::<char>::empty(), tail]);
    assert(removed.drop_first() =~= seq![tail]);
    assert(join(removed.drop_first(), Seq::empty()) == tail);
    assert(replace(base, scheme, Seq::empty()) =~= tail);
    // The first colon is the one before the port, and the port holds none.
    assert(tail.subrange(ip.len() as int, ip.len() + 1int) =~= colon);
    assert forall|j: int| 0 <= j < ip.len() implies !#[trigger] occurs_at(tail, colon, j) by {
        assert(tail.subrange(j, j + 1)[0] == ip[j]);
    }
    lemma_find_is(tail, colon, ip.len() as int);
    assert(tail.take(ip.len() as int) =~= ip);
    assert(tail.skip(ip.len() + 1int) =~= dec);
    assert forall|j: int| !#[trigger] occurs_at(dec, colon, j) by {
        if occurs_at(dec, colon, j) {
            assert(dec.subrange(j, j + 1)[0] == dec[j]);
        }
    }
    lemma_find(dec, colon);
    assert(split(dec, colon) =~= seq![dec]);
    assert(address_parts(base) =~= seq![ip, dec]);
}


/// `curl --connect-timeout 5 {base_url}{path}`: the single request that a pipelined one is checked against.
pub open spec fn pipe_curl_text(base_url: Seq<char>, path: Seq<char>) -> Seq<char> {
    "curl --connect-timeout 5 "@ + base_url + path
}

/// The command that fetches `path` alone.
pub fn pipe_curl_command(base_url: &str, path: &str) -> (r: String)
    ensures
        r@ == pipe_curl_text(base_url@, path@),
{
    let mut c = String::from_str("curl --connect-timeout 5 ");
    c.append(base_url);
    c.append(path);
    c
}

/// Each path followed by a space.
pub open spec fn paths_label_text(paths: Seq<Seq<char>>) -> Seq<char>
    decreases paths.len(),
{
    if paths.len() == 0 {
        Seq::empty()
    } else {
        paths_label_text(paths.drop_last()) + paths.last() + " "@
    }
}

/// The paths of a pipelining test as its reports name them.
pub fn paths_label(paths: &Vec<String>) -> (r: String)
    ensures
        r@ == paths_label_text(paths.deep_view()),
{
    let mut label = String::new();
    let mut k: usize = 0;
    while k < paths.len()
        invariant
            k <= paths.len(),
            label@ == paths_label_text(paths.deep_view().take(k as int)),
        decreases paths.len() - k,
    {
        label.append(paths[k].as_str());
        label.append(" ");
        proof {
            assert(paths.deep_view().take(k + 1).drop_last() =~= paths.deep_view().take(k as int));
        }
        k = k + 1;
    }
    assert(paths.deep_view().take(k as int) =~= paths.deep_view());
    label
}


/// Whether a pipelined group passes: the bodies of the reply to the pipelined requests
/// equal the replies to the single requests, laid end to end.
pub fn pipelined_group_passes(nc_output: &str, singles: &Vec<String>) -> (r: bool)
    ensures
        r == (response_bodies(nc_output@) == singles.deep_view().flatten()),
{
    let bodies = parse_pipelining_response(nc_output);
    let expected = join_strings(singles, "");
    proof {
        reveal_strlit("");
        assert(""@ =~= Seq::<char>::empty());
        lemma_join_empty_is_flatten(singles.deep_view());
    }
    str_eq(bodies.as_str(), expected.as_str())
}


/// The first entry of `items` that is no string.
pub open spec fn first_non_string(items: Seq<Json>) -> int {
    choose|k: int|
        0 <= k < items.len() && #[trigger] text_of(items[k]) is None && forall|j: int|
            0 <= j < k ==> text_of(items[j]) is Some
}

/// The texts of entries that are all strings; nothing when one is not.
fn path_texts(paths: &Vec<JsonValue>) -> (r: Option<Vec<String>>)
    ensures
        match r {
            Some(v) => all_strings(views_of(paths@)) && v.deep_view() == texts(views_of(paths@)),
            None => !all_strings(views_of(paths@)),
        },
{
    let ghost items = views_of(paths@);
    let mut out: Vec<String> = Vec::new();
    let mut k: usize = 0;
    while k < paths.len()
        invariant
            k <= paths.len(),
            items == views_of(paths@),
            out.len() == k,
            forall|j: int| 0 <= j < k ==> #[trigger] text_of(items[j]) is Some,
            forall|j: int| 0 <= j < k ==> #[trigger] out@[j]@ == text_of(items[j])->Some_0,
        decreases paths.len() - k,
    {
        match paths[k].as_str() {
            Some(p) => {
                out.push(p.to_owned());
            },
            None => {
                assert(text_of(items[k as int]) is None);
                return None;
            },
        }
        k = k + 1;
    }
    assert(out.deep_view() =~= texts(items));
    Some(out)
}

/// Where a pipelining run stands.
#[derive(Debug, PartialEq, Eq)]
pub enum PipeState {
    /// Nothing was done yet.
    Ready,
    /// The server was asked to start.
    Starting,
    /// The pipelined requests of group `index` were sent with `nc`; `tally` judged the groups before it.
    Sending { index: usize, tally: RunTally },
    /// Single request `path` of group `index` was sent; `reply` is `nc`'s output and
    /// `singles` the replies to the single requests before it.
    Fetching { index: usize, path: usize, tally: RunTally, reply: String, singles: Vec<String> },
    /// The server was asked to stop.
    Stopping { tally: RunTally },
    /// The run is over.
    Over,
}

/// The content of a `PipeState`.
pub enum PipeStateView {
    Ready,
    Starting,
    Sending { index: usize, tally: RunTally },
    Fetching { index: usize, path: usize, tally: RunTally, reply: Seq<char>, singles: Seq<Seq<char>> },
    Stopping { tally: RunTally },
    Over,
}

impl View for PipeState {
    type V = PipeStateView;

    open spec fn view(&self) -> PipeStateView {
        match self {
            PipeState::Ready => PipeStateView::Ready,
            PipeState::Starting => PipeStateView::Starting,
            PipeState::Sending { index, tally } => PipeStateView::Sending { index: *index, tally: *tally },
            PipeState::Fetching { index, path, tally, reply, singles } => PipeStateView::Fetching {
                index: *index,
                path: *path,
                tally: *tally,
                reply: reply@,
                singles: singles.deep_view(),
            },
            PipeState::Stopping { tally } => PipeStateView::Stopping { tally: *tally },
            PipeState::Over => PipeStateView::Over,
        }
    }
}

/// The tally counts exactly the groups before the current one.
pub open spec fn pipe_state_ok(s: PipeStateView) -> bool {
    match s {
        PipeStateView::Sending { index, tally } => tally.all == index && tally_ok(tally) && index
            < usize::MAX,
        PipeStateView::Fetching { index, path, tally, singles, .. } => tally.all == index
            && tally_ok(tally) && index < usize::MAX && path < usize::MAX && singles.len() == path,
        PipeStateView::Stopping { tally } => tally_ok(tally),
        _ => true,
    }
}

/// The paths of group `index`, when it is a list of strings.
pub open spec fn group_paths(items: Json, index: int) -> Option<Seq<Seq<char>>> {
    match item_at(items, index) {
        Some(group) => match elements_of(group) {
            Some(paths) => if all_strings(paths) {
                Some(texts(paths))
            } else {
                None
            },
            None => None,
        },
        None => None,
    }
}

/// A pipelining run at group `index`, with the server running: send its requests on
/// one connection, or stop the server after the last group.
pub open spec fn pipe_advance(base_url: Seq<char>, items: Json, index: usize, tally: RunTally) -> (PipeStateView, ActionView) {
    match elements_of(items) {
        None => (PipeStateView::Over, out_of_order()),
        Some(list) => if index >= list.len() {
            (PipeStateView::Stopping { tally }, ActionView::StopServer)
        } else {
            match elements_of(list[index as int]) {
                None => (
                    PipeStateView::Over,
                    config_fail(ConfigFault::NotArray { item: ItemKind::Pipe, value: list[index as int] }, true),
                ),
                Some(paths) => if !has_port(base_url) {
                    (PipeStateView::Over, ActionView::Fail { fault: FaultView::NoPort, stop_server: false })
                } else if !all_strings(paths) {
                    (
                        PipeStateView::Over,
                        config_fail(ConfigFault::PipeEntryNotString(paths[first_non_string(paths)]), false),
                    )
                } else {
                    let (ip, port) = host_port(base_url);
                    (
                        PipeStateView::Sending { index, tally },
                        ActionView::Run(nc_command_text(requests_text(texts(paths), ip, port), ip, port)),
                    )
                },
            }
        },
    }
}

/// A pipelining run at single request `path` of group `index`: send it, or judge the
/// group after its last path and go on to the next group.
pub open spec fn pipe_fetch(base_url: Seq<char>, items: Json, index: usize, path: usize, tally: RunTally, reply: Seq<char>, singles: Seq<Seq<char>>) -> (PipeStateView, ActionView) {
    match group_paths(items, index as int) {
        None => (PipeStateView::Over, out_of_order()),
        Some(paths) => if path >= paths.len() {
            pipe_advance(
                base_url,
                items,
                (index + 1) as usize,
                record(tally, response_bodies(reply) == singles.flatten()),
            )
        } else {
            (
                PipeStateView::Fetching { index, path, tally, reply, singles },
                ActionView::Run(pipe_curl_text(base_url, paths[path as int])),
            )
        },
    }
}

/// One step of a pipelining run: the server is started, each group's paths are
/// requested on one connection and then one by one, the group counted as a pass when
/// the bodies of the pipelined reply equal the single replies laid end to end, and the
/// server is stopped.
pub open spec fn pipe_next(server_args: Seq<char>, base_url: Seq<char>, items: Json, s: PipeStateView, ev: EventView) -> (PipeStateView, ActionView) {
    match s {
        PipeStateView::Ready => match ev {
            EventView::Begin => match elements_of(items) {
                None => (
                    PipeStateView::Over,
                    config_fail(ConfigFault::NotArray { item: ItemKind::Pipelining, value: items }, false),
                ),
                Some(_) => (PipeStateView::Starting, ActionView::StartServer(server_args)),
            },
            _ => (PipeStateView::Over, out_of_order()),
        },
        PipeStateView::Starting => match ev {
            EventView::Started => pipe_advance(base_url, items, 0, no_replies()),
            EventView::Failed(m) => (PipeStateView::Over, io_fail(m)),
            _ => (PipeStateView::Over, out_of_order()),
        },
        PipeStateView::Sending { index, tally } => match ev {
            EventView::Output(reply) => pipe_fetch(base_url, items, index, 0, tally, reply, Seq::empty()),
            EventView::Failed(m) => (PipeStateView::Over, io_fail(m)),
            _ => (PipeStateView::Over, out_of_order()),
        },
        PipeStateView::Fetching { index, path, tally, reply, singles } => match ev {
            EventView::Output(single) => pipe_fetch(
                base_url,
                items,
                index,
                (path + 1) as usize,
                tally,
                reply,
                singles.push(single),
            ),
            EventView::Failed(m) => (PipeStateView::Over, io_fail(m)),
            _ => (PipeStateView::Over, out_of_order()),
        },
        PipeStateView::Stopping { tally } => match ev {
            EventView::Stopped => (PipeStateView::Over, ActionView::Done(tally)),
            EventView::Failed(m) => (PipeStateView::Over, io_fail(m)),
            _ => (PipeStateView::Over, out_of_order()),
        },
        PipeStateView::Over => (PipeStateView::Over, out_of_order()),
    }
}

impl PipeState {
    /// The state before anything is done.
    pub fn start() -> (r: PipeState)
        ensures
            r@ == PipeStateView::Ready,
    {
        PipeState::Ready
    }
}

fn pipe_advance_step(base_url: &str, items: &JsonValue, index: usize, tally: RunTally) -> (r: (PipeState, Action))
    requires
        tally.all == index,
        tally_ok(tally),
    ensures
        (r.0@, r.1@) == pipe_advance(base_url@, items@, index, tally),
        pipe_state_ok(r.0@),
{
    let list = match item_list(items, ItemKind::Pipelining) {
        Ok(list) => list,
        Err(_) => {
            return (PipeState::Over, Action::Fail { fault: Fault::OutOfOrder, stop_server: false });
        },
    };
    if index >= list.len() {
        return (PipeState::Stopping { tally }, Action::StopServer);
    }
    assert(views_of(list@)[index as int] == list@[index as int]@);
    let paths = match item_list(&list[index], ItemKind::Pipe) {
        Ok(paths) => paths,
        Err(e) => {
            return (PipeState::Over, Action::Fail { fault: Fault::Config(e), stop_server: true });
        },
    };
    if host_and_port(base_url).is_none() {
        return (PipeState::Over, Action::Fail { fault: Fault::NoPort, stop_server: false });
    }
    match parse_pipelining_requests(base_url, paths) {
        Ok((cmd, _)) => (PipeState::Sending { index, tally }, Action::Run(cmd)),
        Err(e) => {
            proof {
                let v = views_of(paths@);
                let k = choose|k: int|
                    0 <= k < paths.len() && #[trigger] text_of(paths@[k]@) is None && (forall|j: int|
                        0 <= j < k ==> text_of(paths@[j]@) is Some) && e@ == ConfigFault::PipeEntryNotString(
                        paths@[k]@,
                    );
                assert(v[k] == paths@[k]@);
                assert(forall|j: int| 0 <= j < k ==> v[j] == paths@[j]@);
                let k0 = first_non_string(v);
                assert(0 <= k0 < v.len() && text_of(v[k0]) is None && forall|j: int|
                    0 <= j < k0 ==> text_of(v[j]) is Some);
                if k < k0 {
                    assert(text_of(v[k]) is Some);
                } else if k0 < k {
                    assert(v[k0] == paths@[k0]@);
                }
                assert(!all_strings(v));
            }
            (PipeState::Over, Action::Fail { fault: Fault::Config(e), stop_server: false })
        },
    }
}

/// The paths of group `index`, when it is a list of strings.
pub fn group_paths_at(items: &JsonValue, index: usize) -> (r: Option<Vec<String>>)
    ensures
        match r {
            Some(v) => group_paths(items@, index as int) == Some(v.deep_view()),
            None => group_paths(items@, index as int) is None,
        },
{
    match item_list(items, ItemKind::Pipelining) {
        Ok(list) => {
            if index < list.len() {
                assert(views_of(list@)[index as int] == list@[index as int]@);
                match item_list(&list[index], ItemKind::Pipe) {
                    Ok(paths) => path_texts(paths),
                    Err(_) => None,
                }
            } else {
                None
            }
        },
        Err(_) => None,
    }
}

fn pipe_fetch_step(base_url: &str, items: &JsonValue, index: usize, path: usize, tally: RunTally, reply: String, singles: Vec<String>) -> (r: (PipeState, Action))
    requires
        tally.all == index,
        tally_ok(tally),
        index < usize::MAX,
        singles.len() == path,
    ensures
        (r.0@, r.1@) == pipe_fetch(base_url@, items@, index, path, tally, reply@, singles.deep_view()),
        pipe_state_ok(r.0@),
{
    let paths = match group_paths_at(items, index) {
        Some(paths) => paths,
        None => {
            return (PipeState::Over, Action::Fail { fault: Fault::OutOfOrder, stop_server: false });
        },
    };
    if path >= paths.len() {
        let passed = pipelined_group_passes(reply.as_str(), &singles);
        let t = record_verdict(tally, passed);
        pipe_advance_step(base_url, items, index + 1, t)
    } else {
        let command = pipe_curl_command(base_url, paths[path].as_str());
        (PipeState::Fetching { index, path, tally, reply, singles }, Action::Run(command))
    }
}

/// One step of a pipelining run over `items`, where the server is started with
/// `server_args` and reached at `base_url`.
pub fn pipe_step(server_args: &str, base_url: &str, items: &JsonValue, s: PipeState, ev: Event) -> (r: (PipeState, Action))
    requires
        pipe_state_ok(s@),
    ensures
        (r.0@, r.1@) == pipe_next(server_args@, base_url@, items@, s@, ev@),
        pipe_state_ok(r.0@),
{
    match s {
        PipeState::Ready => match ev {
            Event::Begin => match item_list(items, ItemKind::Pipelining) {
                Err(e) => (PipeState::Over, Action::Fail { fault: Fault::Config(e), stop_server: false }),
                Ok(_) => (PipeState::Starting, Action::StartServer(server_args.to_owned())),
            },
            _ => (PipeState::Over, Action::Fail { fault: Fault::OutOfOrder, stop_server: false }),
        },
        PipeState::Starting => match ev {
            Event::Started => pipe_advance_step(base_url, items, 0, RunTally::new()),
            Event::Failed(m) => (PipeState::Over, Action::Fail { fault: Fault::Io(m), stop_server: false }),
            _ => (PipeState::Over, Action::Fail { fault: Fault::OutOfOrder, stop_server: false }),
        },
        PipeState::Sending { index, tally } => match ev {
            Event::Output(reply) => {
                let singles: Vec<String> = Vec::new();
                assert(singles.deep_view() =~= Seq::<Seq<char>>::empty());
                pipe_fetch_step(base_url, items, index, 0, tally, reply, singles)
            },
            Event::Failed(m) => (PipeState::Over, Action::Fail { fault: Fault::Io(m), stop_server: false }),
            _ => (PipeState::Over, Action::Fail { fault: Fault::OutOfOrder, stop_server: false }),
        },
        PipeState::Fetching { index, path, tally, reply, singles } => match ev {
            Event::Output(single) => {
                let ghost before = singles.deep_view();
                let mut singles = singles;
                let ghost single_view = single@;
                singles.push(single);
                assert(singles.deep_view() =~= before.push(single_view));
                pipe_fetch_step(base_url, items, index, path + 1, tally, reply, singles)
            },
            Event::Failed(m) => (PipeState::Over, Action::Fail { fault: Fault::Io(m), stop_server: false }),
            _ => (PipeState::Over, Action::Fail { fault: Fault::OutOfOrder, stop_server: false }),
        },
        PipeState::Stopping { tally } => match ev {
            Event::Stopped => (PipeState::Over, Action::Done(tally)),
            Event::Failed(m) => (PipeState::Over, Action::Fail { fault: Fault::Io(m), stop_server: false }),
            _ => (PipeState::Over, Action::Fail { fault: Fault::OutOfOrder, stop_server: false }),
        },
        PipeState::Over => (PipeState::Over, Action::Fail { fault: Fault::OutOfOrder, stop_server: false }),
    }
}


/// `s` ends with CR LF.
pub open spec fn ends_with_crlf(s: Seq<char>) -> bool {
    s.len() >= 2 && s[s.len() - 2] == '\r' && s[s.len() - 1] == '\n'
}

/// Cutting two lists of pieces one after the other is cutting each, end to end.
proof fn lemma_cut_and_join_append(p: Seq<Seq<char>>, q: Seq<Seq<char>>)
    ensures
        cut_and_join(p + q) == cut_and_join(p) + cut_and_join(q),
    decreases p.len(),
{
    if p.len() == 0 {
        assert(p + q =~= q);
        assert(cut_and_join(p) + cut_and_join(q) =~= cut_and_join(q));
    } else {
        lemma_cut_and_join_append(p.drop_first(), q);
        assert((p + q).drop_first() =~= p.drop_first() + q);
        assert((p + q)[0] == p[0]);
        assert(cut_and_join(p + q) =~= cut_and_join(p) + cut_and_join(q));
    }
}

/// Splitting `a`, a blank line and `b` at blank lines splits `a` and `b` apart, when
/// `a` does not end in CR LF.
proof fn lemma_split_at_blank_line(a: Seq<char>, b: Seq<char>)
    requires
        !ends_with_crlf(a),
    ensures
        split(a + head_end() + b, head_end()) == split(a, head_end()) + split(b, head_end()),
    decreases a.len(),
{
    lemma_marker_chars();
    let d = head_end();
    let s = a + d + b;
    lemma_find(a, d);
    match find(a, d) {
        Some(i) => {
            assert forall|j: int| 0 <= j < i implies !#[trigger] occurs_at(s, d, j) by {
                assert(s.subrange(j, j + 4) =~= a.subrange(j, j + 4));
                if occurs_at(s, d, j) {
                    assert(occurs_at(a, d, j));
                }
            }
            assert(s.subrange(i, i + 4) =~= a.subrange(i, i + 4));
            lemma_find_is(s, d, i);
            let rest = a.skip(i + 4);
            assert(!ends_with_crlf(rest)) by {
                if rest.len() >= 2 {
                    assert(rest[rest.len() - 2] == a[a.len() - 2]);
                    assert(rest[rest.len() - 1] == a[a.len() - 1]);
                }
            }
            lemma_split_at_blank_line(rest, b);
            assert(s.take(i) =~= a.take(i));
            assert(s.skip(i + 4) =~= rest + d + b);
            assert(split(s, d) =~= seq![a.take(i)] + (split(rest, d) + split(b, d)));
            assert(split(a, d) =~= seq![a.take(i)] + split(rest, d));
            assert(split(s, d) =~= split(a, d) + split(b, d));
        },
        None => {
            let n = a.len() as int;
            assert forall|j: int| 0 <= j < n implies !#[trigger] occurs_at(s, d, j) by {
                if occurs_at(s, d, j) {
                    if j + 4 <= n {
                        assert(s.subrange(j, j + 4) =~= a.subrange(j, j + 4));
                        assert(occurs_at(a, d, j));
                    } else {
                        let w = s.subrange(j, j + 4);
                        assert(s[n] == d[0]);
                        assert(w[n - j] == s[n]);
                        if j == n - 2 {
                            assert(w[0] == a[n - 2]);
                            assert(w[1] == a[n - 1]);
                            assert(w[0] == d[0] && w[1] == d[1]);
                        } else if j == n - 1 {
                            assert(w[1] == d[1]);
                        } else {
                            assert(w[3] == d[3]);
                        }
                    }
                }
            }
            assert(s.subrange(n, n + 4) =~= d);
            lemma_find_is(s, d, n);
            assert(s.take(n) =~= a);
            assert(s.skip(n + 4) =~= b);
            assert(split(a, d) =~= seq![a]);
            assert(split(s, d) =~= split(a, d) + split(b, d));
        },
    }
}

/// The bodies of `a`, a blank line and `b` are the bodies of `a` and then those of `b`,
/// when `a` does not end in CR LF.
pub proof fn lemma_response_bodies_concat(a: Seq<char>, b: Seq<char>)
    requires
        !ends_with_crlf(a),
    ensures
        response_bodies(a + head_end() + b) == response_bodies(a) + response_bodies(b),
{
    lemma_split_at_blank_line(a, b);
    lemma_cut_and_join_append(split(a, head_end()), split(b, head_end()));
}

/// The events of the single requests of a group in which every request succeeds.
pub open spec fn single_events(singles: Seq<Seq<char>>) -> Seq<EventView> {
    singles.map_values(|single: Seq<char>| EventView::Output(single))
}

/// The events of the groups of a pipelining run in which every request succeeds: for
/// each group, the reply to its pipelined requests and then the single replies.
pub open spec fn pipe_events(replies: Seq<Seq<char>>, singles: Seq<Seq<Seq<char>>>) -> Seq<EventView>
    decreases replies.len(),
{
    if replies.len() == 0 || singles.len() == 0 {
        Seq::empty()
    } else {
        seq![EventView::Output(replies[0])] + single_events(singles[0]) + pipe_events(
            replies.drop_first(),
            singles.drop_first(),
        )
    }
}

/// The bodies of each group's pipelined reply.
pub open spec fn reply_bodies(replies: Seq<Seq<char>>) -> Seq<Seq<char>> {
    replies.map_values(|reply: Seq<char>| response_bodies(reply))
}

/// Each group's single replies laid end to end.
pub open spec fn joined_singles(singles: Seq<Seq<Seq<char>>>) -> Seq<Seq<char>> {
    singles.map_values(|group: Seq<Seq<char>>| group.flatten())
}

/// Where a pipelining run that stands at `s`, having asked for `a`, stands after `events`.
pub open spec fn pipe_after(server_args: Seq<char>, base_url: Seq<char>, items: Json, s: PipeStateView, a: ActionView, events: Seq<EventView>) -> (PipeStateView, ActionView)
    decreases events.len(),
{
    if events.len() == 0 {
        (s, a)
    } else {
        let (s2, a2) = pipe_next(server_args, base_url, items, s, events[0]);
        pipe_after(server_args, base_url, items, s2, a2, events.drop_first())
    }
}

/// A group of string paths, one for each single reply.
pub open spec fn pipe_group_ready(group: Json, singles: Seq<Seq<char>>) -> bool {
    &&& elements_of(group) matches Some(paths)
    &&& all_strings(paths)
    &&& paths.len() == singles.len()
    &&& singles.len() <= usize::MAX
}

/// A list of groups, each ready for its replies, on an address with a port.
pub open spec fn pipe_groups_ready(base_url: Seq<char>, items: Json, replies: Seq<Seq<char>>, singles: Seq<Seq<Seq<char>>>) -> bool {
    &&& has_port(base_url)
    &&& elements_of(items) matches Some(list)
    &&& list.len() == replies.len()
    &&& singles.len() == replies.len()
    &&& forall|i: int| 0 <= i < list.len() ==> #[trigger] pipe_group_ready(list[i], singles[i])
}

proof fn lemma_pipe_after_concat(server_args: Seq<char>, base_url: Seq<char>, items: Json, s: PipeStateView, a: ActionView, x: Seq<EventView>, y: Seq<EventView>)
    ensures
        pipe_after(server_args, base_url, items, s, a, x + y) == ({
            let (s1, a1) = pipe_after(server_args, base_url, items, s, a, x);
            pipe_after(server_args, base_url, items, s1, a1, y)
        }),
    decreases x.len(),
{
    if x.len() == 0 {
        assert(x + y =~= y);
    } else {
        let (s2, a2) = pipe_next(server_args, base_url, items, s, x[0]);
        assert((x + y)[0] == x[0]);
        assert((x + y).drop_first() =~= x.drop_first() + y);
        lemma_pipe_after_concat(server_args, base_url, items, s2, a2, x.drop_first(), y);
    }
}

/// From single request `k` of group `index` on, the single replies bring the run to the
/// next group, with the group judged.
#[verifier::spinoff_prover]
#[verifier::rlimit(40)]
proof fn lemma_pipe_group_from(server_args: Seq<char>, base_url: Seq<char>, items: Json, index: usize, tally: RunTally, reply: Seq<char>, singles: Seq<Seq<char>>, k: int)
    requires
        group_paths(items, index as int) matches Some(paths) && paths.len() == singles.len(),
        singles.len() <= usize::MAX,
        0 <= k <= singles.len(),
    ensures
        ({
            let (s, a) = pipe_fetch(base_url, items, index, k as usize, tally, reply, singles.take(k));
            pipe_after(server_args, base_url, items, s, a, single_events(singles.skip(k)))
        }) == pipe_advance(
            base_url,
            items,
            (index + 1) as usize,
            record(tally, response_bodies(reply) == singles.flatten()),
        ),
    decreases singles.len() - k,
{
    let paths = group_paths(items, index as int)->Some_0;
    if k == singles.len() {
        assert(singles.take(k) =~= singles);
        assert(single_events(singles.skip(k)) =~= Seq::<EventView>::empty());
    } else {
        let s0 = PipeStateView::Fetching { index, path: k as usize, tally, reply, singles: singles.take(k) };
        let a0 = ActionView::Run(pipe_curl_text(base_url, paths[k]));
        assert(pipe_fetch(base_url, items, index, k as usize, tally, reply, singles.take(k)) == (s0, a0));
        let events = single_events(singles.skip(k));
        assert(events[0] == EventView::Output(singles[k]));
        assert(singles.take(k).push(singles[k]) =~= singles.take(k + 1));
        assert(events.drop_first() =~= single_events(singles.skip(k + 1)));
        lemma_pipe_group_from(server_args, base_url, items, index, tally, reply, singles, k + 1);
    }
}

/// From group `i` on, with the groups before it judged, the replies bring the run to
/// stopping the server with every group judged.
#[verifier::spinoff_prover]
#[verifier::rlimit(40)]
proof fn lemma_pipe_groups_from(server_args: Seq<char>, base_url: Seq<char>, items: Json, replies: Seq<Seq<char>>, singles: Seq<Seq<Seq<char>>>, i: int)
    requires
        pipe_groups_ready(base_url, items, replies, singles),
        replies.len() <= usize::MAX,
        0 <= i <= replies.len(),
    ensures
        ({
            let (s, a) = pipe_advance(
                base_url,
                items,
                i as usize,
                tally_replies(reply_bodies(replies).take(i), joined_singles(singles).take(i)),
            );
            pipe_after(server_args, base_url, items, s, a, pipe_events(replies.skip(i), singles.skip(i)))
        }) == (PipeStateView::Stopping { tally: tally_replies(reply_bodies(replies), joined_singles(singles)) }, ActionView::StopServer),
    decreases replies.len() - i,
{
    let n = replies.len() as int;
    let list = elements_of(items)->Some_0;
    let bodies = reply_bodies(replies);
    let joined = joined_singles(singles);
    let t = tally_replies(bodies.take(i), joined.take(i));
    if i == n {
        assert(bodies.take(i) =~= bodies);
        assert(joined.take(i) =~= joined);
        assert(replies.skip(i) =~= Seq::<Seq<char>>::empty());
        assert(pipe_events(replies.skip(i), singles.skip(i)) =~= Seq::<EventView>::empty());
    } else {
        assert(pipe_group_ready(list[i], singles[i]));
        let paths = elements_of(list[i])->Some_0;
        let (ip, port) = host_port(base_url);
        let s0 = PipeStateView::Sending { index: i as usize, tally: t };
        let a0 = ActionView::Run(nc_command_text(requests_text(texts(paths), ip, port), ip, port));
        assert(pipe_advance(base_url, items, i as usize, t) == (s0, a0));
        let group = single_events(singles[i]);
        let rest = pipe_events(replies.skip(i + 1), singles.skip(i + 1));
        assert(replies.skip(i).drop_first() =~= replies.skip(i + 1));
        assert(singles.skip(i).drop_first() =~= singles.skip(i + 1));
        let events = pipe_events(replies.skip(i), singles.skip(i));
        assert(events =~= seq![EventView::Output(replies[i])] + (group + rest));
        // The pipelined reply: the single requests come next.
        assert(events[0] == EventView::Output(replies[i]));
        assert(events.drop_first() =~= group + rest);
        assert(singles[i].take(0) =~= Seq::<Seq<char>>::empty());
        assert(singles[i].skip(0) =~= singles[i]);
        let (s1, a1) = pipe_fetch(base_url, items, i as usize, 0, t, replies[i], singles[i].take(0));
        assert(pipe_next(server_args, base_url, items, s0, events[0]) == (s1, a1));
        assert(pipe_after(server_args, base_url, items, s0, a0, events) == pipe_after(server_args, base_url, items, s1, a1, group + rest));
        // The single replies: the group is judged.
        assert(item_at(items, i) == Some(list[i]));
        assert(group_paths(items, i) == Some(texts(paths)));
        lemma_pipe_group_from(server_args, base_url, items, i as usize, t, replies[i], singles[i], 0);
        lemma_pipe_after_concat(server_args, base_url, items, s1, a1, group, rest);
        assert(bodies.take(i + 1).drop_last() =~= bodies.take(i));
        assert(joined.take(i + 1).drop_last() =~= joined.take(i));
        assert(tally_replies(bodies.take(i + 1), joined.take(i + 1)) == record(
            t,
            response_bodies(replies[i]) == singles[i].flatten(),
        ));
        lemma_pipe_groups_from(server_args, base_url, items, replies, singles, i + 1);
    }
}

/// A pipelining run over well-formed groups in which every outside action succeeds
/// (group `i` gets `replies[i]` for its pipelined requests and `singles[i][k]` for its
/// single request `k`) ends with every group judged and as many passes as groups
/// whose reply bodies equal their single replies laid end to end.
pub proof fn lemma_pipe_run_tally(server_args: Seq<char>, base_url: Seq<char>, items: Json, replies: Seq<Seq<char>>, singles: Seq<Seq<Seq<char>>>)
    requires
        pipe_groups_ready(base_url, items, replies, singles),
        replies.len() <= usize::MAX,
    ensures
        ({
            let (s, a) = pipe_next(server_args, base_url, items, PipeStateView::Ready, EventView::Begin);
            pipe_after(
                server_args,
                base_url,
                items,
                s,
                a,
                seq![EventView::Started] + pipe_events(replies, singles) + seq![EventView::Stopped],
            )
        }) == (PipeStateView::Over, ActionView::Done(
            RunTally {
                all: replies.len() as usize,
                passes: count_equal(reply_bodies(replies), joined_singles(singles)) as usize,
            },
        )),
{
    let bodies = reply_bodies(replies);
    let joined = joined_singles(singles);
    let groups = pipe_events(replies, singles);
    assert(bodies.take(0) =~= Seq::<Seq<char>>::empty());
    assert(joined.take(0) =~= Seq::<Seq<char>>::empty());
    assert(replies.skip(0) =~= replies);
    assert(singles.skip(0) =~= singles);
    assert(tally_replies(Seq::<Seq<char>>::empty(), Seq::<Seq<char>>::empty()) == no_replies());
    lemma_pipe_groups_from(server_args, base_url, items, replies, singles, 0);
    let (s0, a0) = pipe_next(server_args, base_url, items, PipeStateView::Ready, EventView::Begin);
    assert(s0 == PipeStateView::Starting);
    let events = seq![EventView::Started] + groups + seq![EventView::Stopped];
    let (s1, a1) = pipe_advance(base_url, items, 0, no_replies());
    assert(events =~= seq![EventView::Started] + (groups + seq![EventView::Stopped]));
    assert(events[0] == EventView::Started);
    assert(events.drop_first() =~= groups + seq![EventView::Stopped]);
    assert(pipe_after(server_args, base_url, items, s0, a0, events) == pipe_after(
        server_args,
        base_url,
        items,
        s1,
        a1,
        groups + seq![EventView::Stopped],
    ));
    lemma_pipe_after_concat(server_args, base_url, items, s1, a1, groups, seq![EventView::Stopped]);
    let t = tally_replies(bodies, joined);
    let last = seq![EventView::Stopped];
    assert(last[0] == EventView::Stopped);
    assert(last.drop_first() =~= Seq::<EventView>::empty());
    assert(pipe_after(server_args, base_url, items, PipeStateView::Over, ActionView::Done(t), last.drop_first())
        == (PipeStateView::Over, ActionView::Done(t)));
    assert(pipe_after(server_args, base_url, items, PipeStateView::Stopping { tally: t }, ActionView::StopServer, last)
        == (PipeStateView::Over, ActionView::Done(t)));
    lemma_tally_counts(bodies, joined);
}


/// The lines that report the verdict on a pipelining group, with their levels: on a
/// pass, `Pipelining: paths - {paths}pass.`; otherwise the difference, then the single
/// replies laid end to end and the bodies of the pipelined reply.
pub open spec fn pipe_verdict_text(paths: Seq<Seq<char>>, nc_output: Seq<char>, singles: Seq<Seq<char>>) -> Seq<(Level, Seq<char>)> {
    if response_bodies(nc_output) == singles.flatten() {
        seq![(Level::Info, "Pipelining: paths - "@ + paths_label_text(paths) + "pass."@)]
    } else {
        seq![
            (Level::Error, "The content of pipelining paths "@ + paths_label_text(paths)
                + " is different from single requests\n"@),
            (Level::Debug, "You should recv:\n"@ + singles.flatten()),
            (Level::Debug, "You actually recv:\n"@ + response_bodies(nc_output) + "\n"@),
        ]
    }
}

/// The report of the verdict on a pipelining group; the verdict is the one
/// `pipelined_group_passes` gives.
pub fn pipe_verdict_lines(paths: &Vec<String>, nc_output: &str, singles: &Vec<String>) -> (r: Vec<(Level, String)>)
    ensures
        lines_view(r@) == pipe_verdict_text(paths.deep_view(), nc_output@, singles.deep_view()),
{
    let label = paths_label(paths);
    let mut lines: Vec<(Level, String)> = Vec::new();
    proof {
        reveal_strlit("");
    }
    if pipelined_group_passes(nc_output, singles) {
        lines.push((Level::Info, joined3("Pipelining: paths - ", label.as_str(), "pass.")));
    } else {
        let expected = join_strings(singles, "");
        let bodies = parse_pipelining_response(nc_output);
        proof {
            assert(""@ =~= Seq::<char>::empty());
            lemma_join_empty_is_flatten(singles.deep_view());
        }
        lines.push((
            Level::Error,
            joined3("The content of pipelining paths ", label.as_str(), " is different from single requests\n"),
        ));
        lines.push((Level::Debug, joined3("You should recv:\n", expected.as_str(), "")));
        lines.push((Level::Debug, joined3("You actually recv:\n", bodies.as_str(), "\n")));
    }
    assert(lines_view(lines@) =~= pipe_verdict_text(paths.deep_view(), nc_output@, singles.deep_view()));
    lines
}


/// Each step of a pipelining run works on its own path: once group `g`'s pipelined
/// reply is in, its first path is requested alone; when the single reply to path `k`
/// is in, it is kept after the earlier ones and path `k + 1` is requested alone; and
/// after the last path the group is judged on the bodies of its pipelined reply
/// against its single replies laid end to end, before the next group is sent (or the
/// server stopped after the last group).
pub proof fn lemma_pipe_steps_follow_paths(server_args: Seq<char>, base_url: Seq<char>, items: Json, g: usize, k: usize, t: RunTally, reply: Seq<char>, singles: Seq<Seq<char>>, single: Seq<char>)
    requires
        elements_of(items) matches Some(list) && g < list.len() && list.len() <= usize::MAX,
        elements_of(elements_of(items)->Some_0[g as int]) matches Some(paths) && all_strings(paths) && k
            < paths.len() && paths.len() < usize::MAX,
        has_port(base_url),
        t.all + 1 <= usize::MAX,
    ensures
        ({
            let list = elements_of(items)->Some_0;
            let paths = elements_of(list[g as int])->Some_0;
            let kept = singles.push(single);
            let after = judged(t, response_bodies(reply), kept.flatten());
            &&& paths.len() > 0 ==> pipe_next(server_args, base_url, items, PipeStateView::Sending { index: g, tally: t }, EventView::Output(reply)) == (
                PipeStateView::Fetching { index: g, path: 0, tally: t, reply, singles: Seq::empty() },
                ActionView::Run("curl --connect-timeout 5 "@ + base_url + text_of(paths[0])->Some_0),
            )
            &&& k + 1 < paths.len() ==> pipe_next(
                server_args,
                base_url,
                items,
                PipeStateView::Fetching { index: g, path: k, tally: t, reply, singles },
                EventView::Output(single),
            ) == (
                PipeStateView::Fetching { index: g, path: (k + 1) as usize, tally: t, reply, singles: kept },
                ActionView::Run("curl --connect-timeout 5 "@ + base_url + text_of(paths[k + 1])->Some_0),
            )
            &&& k + 1 == paths.len() && g + 1 == list.len() ==> pipe_next(
                server_args,
                base_url,
                items,
                PipeStateView::Fetching { index: g, path: k, tally: t, reply, singles },
                EventView::Output(single),
            ) == (PipeStateView::Stopping { tally: after }, ActionView::StopServer)
            &&& (k + 1 == paths.len() && g + 1 < list.len() && elements_of(list[g + 1]) is Some
                && all_strings(elements_of(list[g + 1])->Some_0)) ==> pipe_next(
                server_args,
                base_url,
                items,
                PipeStateView::Fetching { index: g, path: k, tally: t, reply, singles },
                EventView::Output(single),
            ).0 == (PipeStateView::Sending { index: (g + 1) as usize, tally: after })
        }),
{
    let list = elements_of(items)->Some_0;
    let paths = elements_of(list[g as int])->Some_0;
    assert(item_at(items, g as int) == Some(list[g as int]));
    assert(group_paths(items, g as int) == Some(texts(paths)));
    assert(text_of(paths[k as int]) is Some);
    if paths.len() > 0 {
        assert(text_of(paths[0]) is Some);
    }
    if k + 1 < paths.len() {
        assert(text_of(paths[k + 1]) is Some);
    }
}

} // verus!

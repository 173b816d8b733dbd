//! The read-only session service: what it serves, from where, and how a client
//! resumes without a gap.
use vstd::prelude::*;
use crate::http::{
    cursor_error, error_response, error_response_of, invalid, json_response, HttpResponse,
    ResponseView,
};
use crate::json::{
    a_member_is_the_first_of_its_name, a_written_number_is_read_back, json_text, lemma_member_at,
    member_of, no_members, number_value, object, text_value, uint_of, with_member, Json, JsonView,
};
use crate::names::NameMap;
use crate::paths::{lies_under, path_starts_with};
use crate::protocol::{error, ErrorCode, ErrorEnvelope, ErrorView, SequencedEvent};
use crate::scan::{trim_around, without_around, without_leading};
use crate::session::numbered;
use crate::session_rpc::{
    SessionEventFrame, SessionEventQuery, SessionRpcCapabilities, SessionTimelinePage,
    SessionTimelineQuery, SessionTurnStatus, SessionTurnSummary,
};
use crate::text::{
    a_number_within_its_limit_is_read, chars_of, concat2, concat3, concat5, cut_once, decimal,
    decimal_of, first_index, is_alnum, is_ascii_alnum, lemma_first_place, parse_u64, pieces,
    pieces_lie_between_the_marks, same_text, split_on, split_once, unsigned_value, views,
};

verus! {

broadcast use vstd::string::group_string_axioms;

pub const DEFAULT_BIND: &'static str = "127.0.0.1:8765";

pub const DEFAULT_TIMELINE_LIMIT: u32 = 20;

pub const MAX_TIMELINE_LIMIT: u32 = 1000;

// ---------------------------------------------------------------------------
// Starting
// ---------------------------------------------------------------------------

/// An address with a port in its canonical form, and whether it is a loopback address.
#[derive(Debug, PartialEq, Eq)]
pub struct BindAddress {
    pub text: String,
    pub loopback: bool,
}

#[derive(Debug, PartialEq, Eq)]
pub struct ServeArgs {
    pub root: String,
    pub bind: BindAddress,
}

/// The arguments that were read so far.
pub struct ServeView {
    pub root: Option<Seq<char>>,
    pub bind: Seq<char>,
    pub loopback: bool,
}

/// The arguments after the first `n` flags. `addresses` holds what the texts
/// that are addresses with a port stand for.
pub open spec fn serve_after(
    args: Seq<Seq<char>>,
    n: nat,
    addresses: Map<Seq<char>, BindAddress>,
) -> Result<ServeView, Seq<char>>
    decreases n,
{
    if n == 0 {
        Ok(ServeView { root: None, bind: DEFAULT_BIND@, loopback: true })
    } else {
        match serve_after(args, (n - 1) as nat, addresses) {
            Err(e) => Err(e),
            Ok(s) => {
                let i = 2 * (n - 1);
                if i + 1 >= args.len() {
                    Err(args[i] + " 缺少取值"@)
                } else if args[i] == "--root"@ {
                    Ok(ServeView { root: Some(args[i + 1]), ..s })
                } else if args[i] == "--bind"@ {
                    if addresses.dom().contains(args[i + 1]) {
                        let address = addresses[args[i + 1]];
                        Ok(ServeView { bind: address.text@, loopback: address.loopback, ..s })
                    } else {
                        Err("--bind 必须是 IP:端口"@)
                    }
                } else {
                    Err("未知 serve 参数："@ + args[i])
                }
            },
        }
    }
}

/// What the arguments come to.
pub open spec fn serve_args(args: Seq<Seq<char>>, addresses: Map<Seq<char>, BindAddress>) -> Result<
    ServeView,
    Seq<char>,
> {
    match serve_after(args, ((args.len() + 1) / 2) as nat, addresses) {
        Err(e) => Err(e),
        Ok(s) => if s.root is None {
            Err("serve 缺少 --root <session-dir>"@)
        } else {
            Ok(s)
        },
    }
}

proof fn lemma_serve_error(
    args: Seq<Seq<char>>,
    k: nat,
    n: nat,
    addresses: Map<Seq<char>, BindAddress>,
)
    requires
        k <= n,
        serve_after(args, k, addresses) is Err,
    ensures
        serve_after(args, n, addresses) == serve_after(args, k, addresses),
    decreases n,
{
    if k < n {
        lemma_serve_error(args, k, (n - 1) as nat, addresses);
    }
}

/// Reads the arguments of the service. `addresses` holds what the texts
/// that are addresses with a port stand for.
pub fn parse_args(args: &Vec<String>, addresses: &NameMap<BindAddress>) -> (r: Result<ServeArgs, String>)
    ensures
        match r {
            Ok(s) => serve_args(views(args@), addresses@) == Ok::<ServeView, Seq<char>>(
                ServeView {
                    root: Some(s.root@),
                    bind: s.bind.text@,
                    loopback: s.bind.loopback,
                },
            ),
            Err(e) => serve_args(views(args@), addresses@) == Err::<ServeView, Seq<char>>(e@),
        },
{
    let ghost all = views(args@);
    let ghost total = ((all.len() + 1) / 2) as nat;
    let mut root: Option<String> = None;
    let mut bind = BindAddress { text: DEFAULT_BIND.to_string(), loopback: true };
    let mut i: usize = 0;
    let ghost mut n: nat = 0;
    while i < args.len()
        invariant
            i == 2 * n,
            n <= total,
            i <= args@.len() + 1,
            all == views(args@),
            total == ((all.len() + 1) / 2) as nat,
            serve_after(all, n, addresses@) == Ok::<ServeView, Seq<char>>(
                ServeView {
                    root: match root {
                        Some(path) => Some(path@),
                        None => None,
                    },
                    bind: bind.text@,
                    loopback: bind.loopback,
                },
            ),
        decreases args@.len() + 1 - i,
    {
        assert(all[i as int] == args@[i as int]@);
        let ghost next = n + 1;
        if args.len() - i < 2 {
            proof {
                lemma_serve_error(all, next, total, addresses@);
            }
            return Err(concat2(&args[i], " 缺少取值"));
        }
        assert(all[i + 1] == args@[i + 1]@);
        if same_text(&args[i], "--root") {
            root = Some(args[i + 1].clone());
        } else if same_text(&args[i], "--bind") {
            match addresses.get(&args[i + 1]) {
                Some(address) => {
                    bind = BindAddress { text: address.text.clone(), loopback: address.loopback };
                },
                None => {
                    proof {
                        lemma_serve_error(all, next, total, addresses@);
                    }
                    return Err("--bind 必须是 IP:端口".to_string());
                },
            }
        } else {
            proof {
                lemma_serve_error(all, next, total, addresses@);
            }
            return Err(concat2("未知 serve 参数：", &args[i]));
        }
        i = i + 2;
        proof {
            n = next;
        }
    }
    assert(n == total);
    match root {
        Some(root) => Ok(ServeArgs { root, bind }),
        None => Err("serve 缺少 --root <session-dir>".to_string()),
    }
}

/// Decides whether the service may start: only on a loopback address, and only with
/// a directory to serve.
pub fn check_bind(bind: &BindAddress, root: &str, root_is_dir: bool) -> (r: Result<(), String>)
    ensures
        !bind.loopback ==> r is Err && r->Err_0@
            == "read-only session server refuses non-loopback bind: "@ + bind.text@,
        bind.loopback && !root_is_dir ==> r is Err && r->Err_0@
            == "session root does not exist or is not a directory: "@ + root@,
        bind.loopback && root_is_dir ==> r is Ok,
{
    if !bind.loopback {
        return Err(concat2("read-only session server refuses non-loopback bind: ", &bind.text));
    }
    if !root_is_dir {
        return Err(concat2("session root does not exist or is not a directory: ", root));
    }
    Ok(())
}

/// The generation after a given one; there is none after the last.
pub fn next_generation(current: u64) -> (r: Result<u64, String>)
    ensures
        current < u64::MAX ==> r == Ok::<u64, String>((current + 1) as u64),
        current == u64::MAX ==> r is Err && r->Err_0@ == "read-only RPC generation overflow"@,
{
    if current == u64::MAX {
        return Err("read-only RPC generation overflow".to_string());
    }
    Ok(current + 1)
}

// ---------------------------------------------------------------------------
// Queries
// ---------------------------------------------------------------------------

/// The values of a map of texts.
pub open spec fn text_map(m: Map<Seq<char>, String>) -> Map<Seq<char>, Seq<char>> {
    Map::new(|k: Seq<char>| m.dom().contains(k), |k: Seq<char>| m[k]@)
}

/// The parameters with one more.
pub open spec fn with_pair(
    values: Map<Seq<char>, Seq<char>>,
    pair: Seq<char>,
    allowed: Seq<Seq<char>>,
) -> Result<Map<Seq<char>, Seq<char>>, ErrorView> {
    match cut_once(pair, '=') {
        None => Err(cursor_error("query parameters require key=value"@)),
        Some((key, value)) => if !allowed.contains(key) || value.len() == 0
            || values.dom().contains(key) {
            Err(cursor_error("invalid or duplicate query parameter: "@ + key))
        } else {
            Ok(values.insert(key, value))
        },
    }
}

pub open spec fn pairs_of(ps: Seq<Seq<char>>, allowed: Seq<Seq<char>>) -> Result<
    Map<Seq<char>, Seq<char>>,
    ErrorView,
>
    decreases ps.len(),
{
    if ps.len() == 0 {
        Ok(Map::empty())
    } else {
        match pairs_of(ps.drop_last(), allowed) {
            Err(e) => Err(e),
            Ok(values) => with_pair(values, ps.last(), allowed),
        }
    }
}

/// The parameters of a query: each of the allowed ones at most once, none empty.
pub open spec fn query_of(query: Seq<char>, allowed: Seq<Seq<char>>) -> Result<
    Map<Seq<char>, Seq<char>>,
    ErrorView,
> {
    if query.len() == 0 {
        Ok(Map::empty())
    } else {
        pairs_of(pieces(query, '&'), allowed)
    }
}

proof fn lemma_pairs_error(ps: Seq<Seq<char>>, allowed: Seq<Seq<char>>, k: int)
    requires
        0 <= k <= ps.len(),
        pairs_of(ps.take(k), allowed) is Err,
    ensures
        pairs_of(ps, allowed) == pairs_of(ps.take(k), allowed),
    decreases ps.len() - k,
{
    if k < ps.len() {
        assert(ps.take(k + 1).drop_last() =~= ps.take(k));
        lemma_pairs_error(ps, allowed, k + 1);
    } else {
        assert(ps.take(k) =~= ps);
    }
}

fn is_allowed(key: &str, allowed: &Vec<String>) -> (r: bool)
    ensures
        r == views(allowed@).contains(key@),
{
    let ghost all = views(allowed@);
    let mut i: usize = 0;
    while i < allowed.len()
        invariant
            i <= allowed@.len(),
            all == views(allowed@),
            forall|j: int| 0 <= j < i ==> #[trigger] all[j] != key@,
        decreases allowed@.len() - i,
    {
        assert(all[i as int] == allowed@[i as int]@);
        if same_text(&allowed[i], key) {
            return true;
        }
        i = i + 1;
    }
    false
}

fn parse_query(query: &str, allowed: &Vec<String>) -> (r: Result<NameMap<String>, ErrorEnvelope>)
    ensures
        match r {
            Ok(values) => query_of(query@, views(allowed@)) == Ok::<
                Map<Seq<char>, Seq<char>>,
                ErrorView,
            >(text_map(values@)),
            Err(e) => query_of(query@, views(allowed@)) == Err::<
                Map<Seq<char>, Seq<char>>,
                ErrorView,
            >(e@),
        },
{
    let mut values: NameMap<String> = NameMap::new();
    assert(text_map(values@) =~= Map::empty());
    if query.is_empty() {
        return Ok(values);
    }
    let pairs = split_on(query, '&');
    let ghost ps = pieces(query@, '&');
    let ghost names = views(allowed@);
    assert(ps.take(0) =~= Seq::empty());
    let mut i: usize = 0;
    while i < pairs.len()
        invariant
            i <= pairs@.len(),
            query@.len() > 0,
            ps == pieces(query@, '&'),
            ps == views(pairs@),
            names == views(allowed@),
            pairs_of(ps.take(i as int), names) == Ok::<Map<Seq<char>, Seq<char>>, ErrorView>(
                text_map(values@),
            ),
        decreases pairs@.len() - i,
    {
        let ghost next = ps.take(i + 1);
        assert(next.drop_last() =~= ps.take(i as int));
        assert(next.last() == pairs@[i as int]@);
        match split_once(&pairs[i], '=') {
            None => {
                proof {
                    lemma_pairs_error(ps, names, i + 1);
                }
                return Err(invalid("query parameters require key=value"));
            },
            Some((key, value)) => {
                if !is_allowed(&key, allowed) || value.as_str().is_empty() || values.contains_key(
                    &key,
                ) {
                    proof {
                        lemma_pairs_error(ps, names, i + 1);
                    }
                    return Err(
                        ErrorEnvelope::new(
                            ErrorCode::CursorInvalid,
                            concat2("invalid or duplicate query parameter: ", &key),
                        ),
                    );
                }
                let ghost before = values@;
                values.insert(key, value);
                assert(text_map(values@) =~= text_map(before).insert(key@, value@));
            },
        }
        i = i + 1;
    }
    assert(ps.take(ps.len() as int) =~= ps);
    Ok(values)
}

/// The number of a parameter, where it is given.
pub open spec fn number_of(value: Option<Seq<char>>, name: Seq<char>) -> Result<
    Option<u64>,
    ErrorView,
> {
    match value {
        None => Ok(None),
        Some(text) => match unsigned_value(text, u64::MAX as nat) {
            Some(n) => Ok(Some(n as u64)),
            None => Err(cursor_error(name + " must be a non-negative integer"@)),
        },
    }
}

pub open spec fn lookup(values: Map<Seq<char>, Seq<char>>, key: Seq<char>) -> Option<Seq<char>> {
    if values.dom().contains(key) {
        Some(values[key])
    } else {
        None
    }
}

fn parse_optional_u64(value: Option<&str>, name: &str) -> (r: Result<Option<u64>, ErrorEnvelope>)
    ensures
        ({
            let expected = number_of(
                match value {
                    Some(t) => Some(t@),
                    None => None,
                },
                name@,
            );
            match r {
                Ok(n) => expected == Ok::<Option<u64>, ErrorView>(n),
                Err(e) => expected == Err::<Option<u64>, ErrorView>(e@),
            }
        }),
{
    match value {
        None => Ok(None),
        Some(text) => match parse_u64(text) {
            Some(n) => Ok(Some(n)),
            None => Err(
                ErrorEnvelope::new(
                    ErrorCode::CursorInvalid,
                    concat2(name, " must be a non-negative integer"),
                ),
            ),
        },
    }
}

fn number_in(values: &NameMap<String>, name: &str) -> (r: Result<Option<u64>, ErrorEnvelope>)
    ensures
        ({
            let expected = number_of(lookup(text_map(values@), name@), name@);
            match r {
                Ok(n) => expected == Ok::<Option<u64>, ErrorView>(n),
                Err(e) => expected == Err::<Option<u64>, ErrorView>(e@),
            }
        }),
{
    match values.get(name) {
        Some(text) => parse_optional_u64(Some(text.as_str()), name),
        None => parse_optional_u64(None, name),
    }
}

// ---------------------------------------------------------------------------
// Routes
// ---------------------------------------------------------------------------

/// What a request asks for.
#[derive(Debug, PartialEq, Eq)]
pub enum Route {
    Capabilities,
    Timeline(SessionTimelineQuery),
    Events(SessionEventQuery),
}

pub enum RouteView {
    Capabilities,
    Timeline { session: Seq<char>, generation: Option<u64>, cursor: Option<u64>, limit: u32 },
    Events { session: Seq<char>, generation: Option<u64>, last_seq: Option<u64> },
}

impl View for Route {
    type V = RouteView;

    open spec fn view(&self) -> RouteView {
        match self {
            Route::Capabilities => RouteView::Capabilities,
            Route::Timeline(q) => RouteView::Timeline {
                session: q.session_id@,
                generation: q.connection_generation,
                cursor: q.cursor,
                limit: q.limit,
            },
            Route::Events(q) => RouteView::Events {
                session: q.session_id@,
                generation: q.connection_generation,
                last_seq: q.last_seq,
            },
        }
    }
}

/// Whether a text is a session id: letters, digits, `-` and `_` only, so that it
/// never leads out of a directory.
pub open spec fn is_session_id(s: Seq<char>) -> bool {
    s.len() > 0 && forall|i: int|
        0 <= i < s.len() ==> (is_alnum(#[trigger] s[i]) || s[i] == '-' || s[i] == '_')
}

pub fn has_session_id_form(value: &str) -> (r: bool)
    ensures
        r == is_session_id(value@),
{
    let chars = chars_of(value);
    if chars.len() == 0 {
        return false;
    }
    let mut i: usize = 0;
    while i < chars.len()
        invariant
            i <= chars@.len(),
            chars@ == value@,
            forall|j: int|
                0 <= j < i ==> (is_alnum(#[trigger] chars@[j]) || chars@[j] == '-' || chars@[j]
                    == '_'),
        decreases chars@.len() - i,
    {
        if !(is_ascii_alnum(chars[i]) || chars[i] == '-' || chars[i] == '_') {
            assert(!(is_alnum(value@[i as int]) || value@[i as int] == '-' || value@[i as int]
                == '_'));
            return false;
        }
        i = i + 1;
    }
    true
}

/// The path and the query of a target.
pub open spec fn target_parts(target: Seq<char>) -> (Seq<char>, Seq<char>) {
    match cut_once(target, '?') {
        Some((path, query)) => (path, query),
        None => (target, Seq::empty()),
    }
}

pub open spec fn timeline_keys() -> Seq<Seq<char>> {
    seq!["cursor"@, "limit"@, "generation"@]
}

pub open spec fn event_keys() -> Seq<Seq<char>> {
    seq!["last_seq"@, "generation"@]
}

pub open spec fn timeline_route(
    session: Seq<char>,
    values: Map<Seq<char>, Seq<char>>,
    current: u64,
) -> Result<RouteView, ErrorView> {
    match number_of(lookup(values, "generation"@), "generation"@) {
        Err(e) => Err(e),
        Ok(generation) => if generation is Some && generation->0 != current {
            Err(cursor_error("connection generation is stale"@))
        } else {
            match number_of(lookup(values, "cursor"@), "cursor"@) {
                Err(e) => Err(e),
                Ok(cursor) => match number_of(lookup(values, "limit"@), "limit"@) {
                    Err(e) => Err(e),
                    Ok(limit) => {
                        let n = if limit is Some {
                            limit->0
                        } else {
                            DEFAULT_TIMELINE_LIMIT as u64
                        };
                        if n > u32::MAX {
                            Err(cursor_error("limit is too large"@))
                        } else if n == 0 || n > MAX_TIMELINE_LIMIT {
                            Err(cursor_error("limit must be between 1 and 1000"@))
                        } else {
                            Ok(
                                RouteView::Timeline {
                                    session,
                                    generation,
                                    cursor,
                                    limit: n as u32,
                                },
                            )
                        }
                    },
                },
            }
        },
    }
}

pub open spec fn event_route(
    session: Seq<char>,
    values: Map<Seq<char>, Seq<char>>,
    last_event_id: Option<Seq<char>>,
    current: u64,
) -> Result<RouteView, ErrorView> {
    match number_of(lookup(values, "generation"@), "generation"@) {
        Err(e) => Err(e),
        Ok(generation) => if generation is Some && generation->0 != current {
            Err(cursor_error("connection generation is stale"@))
        } else if values.dom().contains("last_seq"@) && last_event_id is Some {
            Err(cursor_error("last_seq and Last-Event-ID cannot be supplied together"@))
        } else {
            let last = if last_event_id is Some {
                number_of(last_event_id, "Last-Event-ID"@)
            } else {
                number_of(lookup(values, "last_seq"@), "last_seq"@)
            };
            match last {
                Err(e) => Err(e),
                Ok(last_seq) => Ok(RouteView::Events { session, generation, last_seq }),
            }
        },
    }
}

/// What a target asks for, or the first thing that is wrong with it.
pub open spec fn route_of(
    target: Seq<char>,
    last_event_id: Option<Seq<char>>,
    current: u64,
) -> Result<RouteView, ErrorView> {
    let (path, query) = target_parts(target);
    let inner = without_around(path, '/');
    let parts = pieces(inner, '/');
    if inner == "v1/capabilities"@ {
        if query.len() > 0 || last_event_id is Some {
            Err(cursor_error("capabilities route does not accept cursors"@))
        } else {
            Ok(RouteView::Capabilities)
        }
    } else if parts.len() != 4 || parts[0] != "v1"@ || parts[1] != "sessions"@ {
        Err(cursor_error("unknown read-only RPC route"@))
    } else if !is_session_id(parts[2]) {
        Err(cursor_error("session id must contain only ASCII letters, digits, '-' or '_'"@))
    } else if parts[3] == "timeline"@ {
        if last_event_id is Some {
            Err(cursor_error("Last-Event-ID is only valid for event streams"@))
        } else {
            match query_of(query, timeline_keys()) {
                Err(e) => Err(e),
                Ok(values) => timeline_route(parts[2], values, current),
            }
        }
    } else if parts[3] == "events"@ {
        match query_of(query, event_keys()) {
            Err(e) => Err(e),
            Ok(values) => event_route(parts[2], values, last_event_id, current),
        }
    } else {
        Err(cursor_error("unknown read-only RPC route"@))
    }
}

fn validate_generation(requested: Option<u64>, current: u64) -> (r: Result<(), ErrorEnvelope>)
    ensures
        requested is Some && requested->0 != current ==> r is Err && r->Err_0@ == cursor_error(
            "connection generation is stale"@,
        ),
        requested is None || requested->0 == current ==> r is Ok,
{
    match requested {
        Some(generation) => {
            if generation != current {
                Err(invalid("connection generation is stale"))
            } else {
                Ok(())
            }
        },
        None => Ok(()),
    }
}

fn read_timeline(session: &String, query: &str, current: u64) -> (r: Result<Route, ErrorEnvelope>)
    ensures
        ({
            let expected = match query_of(query@, timeline_keys()) {
                Err(e) => Err(e),
                Ok(values) => timeline_route(session@, values, current),
            };
            match r {
                Ok(route) => expected == Ok::<RouteView, ErrorView>(route@),
                Err(e) => expected == Err::<RouteView, ErrorView>(e@),
            }
        }),
{
    let mut allowed: Vec<String> = Vec::new();
    allowed.push("cursor".to_string());
    allowed.push("limit".to_string());
    allowed.push("generation".to_string());
    assert(views(allowed@) =~= timeline_keys());
    let values = match parse_query(query, &allowed) {
        Ok(values) => values,
        Err(e) => {
            return Err(e);
        },
    };
    let connection_generation = match number_in(&values, "generation") {
        Ok(generation) => generation,
        Err(e) => {
            return Err(e);
        },
    };
    match validate_generation(connection_generation, current) {
        Ok(()) => {},
        Err(e) => {
            return Err(e);
        },
    }
    let cursor = match number_in(&values, "cursor") {
        Ok(cursor) => cursor,
        Err(e) => {
            return Err(e);
        },
    };
    let limit: u64 = match number_in(&values, "limit") {
        Ok(Some(limit)) => limit,
        Ok(None) => DEFAULT_TIMELINE_LIMIT as u64,
        Err(e) => {
            return Err(e);
        },
    };
    if limit > u32::MAX as u64 {
        return Err(invalid("limit is too large"));
    }
    if limit == 0 || limit > MAX_TIMELINE_LIMIT as u64 {
        return Err(invalid("limit must be between 1 and 1000"));
    }
    Ok(
        Route::Timeline(
            SessionTimelineQuery {
                session_id: session.clone(),
                connection_generation,
                cursor,
                limit: limit as u32,
            },
        ),
    )
}

fn read_events(
    session: &String,
    query: &str,
    last_event_id: Option<&str>,
    current: u64,
) -> (r: Result<Route, ErrorEnvelope>)
    ensures
        ({
            let id = match last_event_id {
                Some(id) => Some(id@),
                None => None,
            };
            let expected = match query_of(query@, event_keys()) {
                Err(e) => Err(e),
                Ok(values) => event_route(session@, values, id, current),
            };
            match r {
                Ok(route) => expected == Ok::<RouteView, ErrorView>(route@),
                Err(e) => expected == Err::<RouteView, ErrorView>(e@),
            }
        }),
{
    let mut allowed: Vec<String> = Vec::new();
    allowed.push("last_seq".to_string());
    allowed.push("generation".to_string());
    assert(views(allowed@) =~= event_keys());
    let values = match parse_query(query, &allowed) {
        Ok(values) => values,
        Err(e) => {
            return Err(e);
        },
    };
    let connection_generation = match number_in(&values, "generation") {
        Ok(generation) => generation,
        Err(e) => {
            return Err(e);
        },
    };
    match validate_generation(connection_generation, current) {
        Ok(()) => {},
        Err(e) => {
            return Err(e);
        },
    }
    if values.contains_key("last_seq") && last_event_id.is_some() {
        return Err(invalid("last_seq and Last-Event-ID cannot be supplied together"));
    }
    let last = match last_event_id {
        Some(id) => parse_optional_u64(Some(id), "Last-Event-ID"),
        None => number_in(&values, "last_seq"),
    };
    match last {
        Ok(last_seq) => Ok(
            Route::Events(
                SessionEventQuery { session_id: session.clone(), connection_generation, last_seq },
            ),
        ),
        Err(e) => Err(e),
    }
}

/// Reads what a target asks for.
pub fn parse_target(target: &str, last_event_id: Option<&str>, generation: u64) -> (r: Result<
    Route,
    ErrorEnvelope,
>)
    ensures
        ({
            let id = match last_event_id {
                Some(id) => Some(id@),
                None => None,
            };
            match r {
                Ok(route) => route_of(target@, id, generation) == Ok::<RouteView, ErrorView>(
                    route@,
                ),
                Err(e) => route_of(target@, id, generation) == Err::<RouteView, ErrorView>(e@),
            }
        }),
{
    let (path, query) = match split_once(target, '?') {
        Some((path, query)) => (path, query),
        None => {
            let none = String::new();
            assert(none@ =~= Seq::empty());
            (target.to_owned(), none)
        },
    };
    let inner = trim_around(&path, '/');
    if same_text(&inner, "v1/capabilities") {
        if !query.as_str().is_empty() || last_event_id.is_some() {
            return Err(invalid("capabilities route does not accept cursors"));
        }
        return Ok(Route::Capabilities);
    }
    let parts = split_on(&inner, '/');
    assert(views(parts@).len() == parts@.len());
    if parts.len() != 4 {
        return Err(invalid("unknown read-only RPC route"));
    }
    assert(views(parts@)[0] == parts@[0]@ && views(parts@)[1] == parts@[1]@ && views(parts@)[2]
        == parts@[2]@ && views(parts@)[3] == parts@[3]@);
    if !same_text(&parts[0], "v1") || !same_text(&parts[1], "sessions") {
        return Err(invalid("unknown read-only RPC route"));
    }
    if !has_session_id_form(&parts[2]) {
        return Err(
            invalid("session id must contain only ASCII letters, digits, '-' or '_'"),
        );
    }
    if same_text(&parts[3], "timeline") {
        if last_event_id.is_some() {
            return Err(invalid("Last-Event-ID is only valid for event streams"));
        }
        read_timeline(&parts[2], &query, generation)
    } else if same_text(&parts[3], "events") {
        read_events(&parts[2], &query, last_event_id, generation)
    } else {
        Err(invalid("unknown read-only RPC route"))
    }
}

/// The route of a request, or the response that refuses it: only `GET` is served.
pub open spec fn routed(
    method: Seq<char>,
    target: Seq<char>,
    last_event_id: Option<Seq<char>>,
    current: u64,
) -> Result<RouteView, ResponseView> {
    if method != "GET"@ {
        Err(
            error_response_of(
                405,
                error(ErrorCode::SandboxDenied, "read-only RPC accepts GET only"@),
            ),
        )
    } else {
        match route_of(target, last_event_id, current) {
            Ok(route) => Ok(route),
            Err(e) => Err(error_response_of(400, e)),
        }
    }
}

pub fn route_with_generation(
    method: &str,
    target: &str,
    last_event_id: Option<&str>,
    generation: u64,
) -> (r: Result<Route, HttpResponse>)
    ensures
        ({
            let id = match last_event_id {
                Some(id) => Some(id@),
                None => None,
            };
            match r {
                Ok(route) => routed(method@, target@, id, generation) == Ok::<
                    RouteView,
                    ResponseView,
                >(route@),
                Err(response) => routed(method@, target@, id, generation) == Err::<
                    RouteView,
                    ResponseView,
                >(response@),
            }
        }),
{
    if !same_text(method, "GET") {
        let e = ErrorEnvelope::of(ErrorCode::SandboxDenied, "read-only RPC accepts GET only");
        return Err(error_response(405, &e));
    }
    match parse_target(target, last_event_id, generation) {
        Ok(route) => Ok(route),
        Err(e) => Err(error_response(400, &e)),
    }
}

// ---------------------------------------------------------------------------
// The file of a session
// ---------------------------------------------------------------------------

/// The name of the file of a session.
pub fn session_file(session_id: &str) -> (r: String)
    ensures
        r@ == session_id@ + ".jsonl"@,
{
    concat2(session_id, ".jsonl")
}

pub open spec fn replay_failed(detail: Seq<char>) -> ErrorView {
    error(ErrorCode::Internal, "session replay failed: "@ + detail)
}

pub fn internal_io(detail: &str) -> (r: ErrorEnvelope)
    ensures
        r@ == replay_failed(detail@),
{
    ErrorEnvelope::new(ErrorCode::Internal, concat2("session replay failed: ", detail))
}

/// Decides whether the file of a session may be read, given what the file system
/// says: it must be there, and lie under the root once both paths are canonical.
pub fn check_session_path(
    session_id: &str,
    is_file: bool,
    canonical_root: Result<String, String>,
    canonical_path: Result<String, String>,
) -> (r: Result<String, ErrorEnvelope>)
    ensures
        if !is_file {
            r is Err && r->Err_0@ == error(
                ErrorCode::SessionNotFound,
                "unknown session: "@ + session_id@,
            )
        } else if canonical_root is Err {
            r is Err && r->Err_0@ == replay_failed(canonical_root->Err_0@)
        } else if canonical_path is Err {
            r is Err && r->Err_0@ == replay_failed(canonical_path->Err_0@)
        } else if !lies_under(canonical_path->Ok_0@, canonical_root->Ok_0@) {
            r is Err && r->Err_0@ == error(
                ErrorCode::SandboxDenied,
                "session path resolves outside the configured root"@,
            )
        } else {
            r == Ok::<String, ErrorEnvelope>(canonical_path->Ok_0)
        },
{
    if !is_file {
        return Err(
            ErrorEnvelope::new(
                ErrorCode::SessionNotFound,
                concat2("unknown session: ", session_id),
            ),
        );
    }
    let root = match canonical_root {
        Ok(root) => root,
        Err(e) => {
            return Err(internal_io(&e));
        },
    };
    let path = match canonical_path {
        Ok(path) => path,
        Err(e) => {
            return Err(internal_io(&e));
        },
    };
    if !path_starts_with(&path, &root) {
        return Err(
            ErrorEnvelope::of(
                ErrorCode::SandboxDenied,
                "session path resolves outside the configured root",
            ),
        );
    }
    Ok(path)
}

// ---------------------------------------------------------------------------
// The timeline
// ---------------------------------------------------------------------------

/// The end of a page.
pub open spec fn page_end(cursor: int, limit: int, count: int) -> int {
    if cursor + limit < count {
        cursor + limit
    } else {
        count
    }
}

/// Why a cursor is refused: there must be a turn at it, unless there are no turns.
pub open spec fn cursor_refused(cursor: int, count: int) -> bool {
    cursor > count || (cursor == count && count > 0)
}

/// A page of the turns of a session.
pub fn timeline_page(
    turns: &Vec<SessionTurnSummary>,
    query: &SessionTimelineQuery,
    generation: u64,
) -> (r: Result<SessionTimelinePage, ErrorEnvelope>)
    ensures
        ({
            let cursor = match query.cursor {
                Some(c) => c as int,
                None => 0,
            };
            let count = turns@.len() as int;
            let end = page_end(cursor, query.limit as int, count);
            if cursor > usize::MAX {
                r is Err && r->Err_0@ == cursor_error("timeline cursor exceeds platform limits"@)
            } else if cursor_refused(cursor, count) {
                r is Err && r->Err_0@ == cursor_error(
                    "timeline cursor "@ + decimal(cursor as nat) + " is outside "@ + decimal(
                        turns@.len(),
                    ) + " turns"@,
                )
            } else {
                &&& r matches Ok(page)
                &&& page.session_id@ == query.session_id@
                &&& page.connection_generation == generation
                &&& page.turns@ == turns@.subrange(cursor, end)
                &&& page.next_cursor == (if end < count {
                    Some(end as u64)
                } else {
                    None
                })
            }
        }),
{
    let wanted: u64 = match query.cursor {
        Some(c) => c,
        None => 0,
    };
    if wanted > usize::MAX as u64 {
        return Err(invalid("timeline cursor exceeds platform limits"));
    }
    let cursor: usize = wanted as usize;
    let count: usize = turns.len();
    if cursor > count || (cursor == count && count > 0) {
        let message = concat5(
            "timeline cursor ",
            &decimal_of(wanted),
            " is outside ",
            &decimal_of(count as u64),
            " turns",
        );
        return Err(ErrorEnvelope::new(ErrorCode::CursorInvalid, message));
    }
    let limit: usize = query.limit as usize;
    let end: usize = if limit < count - cursor {
        cursor + limit
    } else {
        count
    };
    let mut page: Vec<SessionTurnSummary> = Vec::new();
    let mut i: usize = cursor;
    while i < end
        invariant
            cursor <= i <= end <= turns@.len(),
            page@ == turns@.subrange(cursor as int, i as int),
        decreases end - i,
    {
        page.push(turns[i]);
        i = i + 1;
        assert(page@ =~= turns@.subrange(cursor as int, i as int));
    }
    assert(page@ =~= turns@.subrange(cursor as int, end as int));
    let next_cursor = if end < count {
        Some(end as u64)
    } else {
        None
    };
    Ok(
        SessionTimelinePage {
            session_id: query.session_id.clone(),
            connection_generation: generation,
            turns: page,
            next_cursor,
        },
    )
}

/// Following the cursor from page to page goes through every turn once, in order.
pub proof fn pages_cover_the_timeline(
    turns: Seq<SessionTurnSummary>,
    cursor: int,
    limit: int,
)
    requires
        0 <= cursor <= turns.len(),
        limit > 0,
    ensures
        ({
            let end = page_end(cursor, limit, turns.len() as int);
            &&& turns.subrange(cursor, turns.len() as int) == turns.subrange(cursor, end)
                + turns.subrange(end, turns.len() as int)
            &&& cursor < turns.len() ==> cursor < end
            &&& end < turns.len() ==> !cursor_refused(end, turns.len() as int)
        }),
{
    let end = page_end(cursor, limit, turns.len() as int);
    assert(turns.subrange(cursor, turns.len() as int) =~= turns.subrange(cursor, end)
        + turns.subrange(end, turns.len() as int));
}

pub open spec fn status_name(status: SessionTurnStatus) -> Seq<char> {
    match status {
        SessionTurnStatus::Completed => "completed"@,
        SessionTurnStatus::Aborted => "aborted"@,
        SessionTurnStatus::Active => "active"@,
    }
}

pub open spec fn turn_json(turn: SessionTurnSummary) -> JsonView {
    let head = seq![
        ("turn_id"@, JsonView::Number(decimal(turn.turn_id as nat))),
        ("start_seq"@, JsonView::Number(decimal(turn.start_seq as nat))),
    ];
    let tail = seq![("status"@, JsonView::Text(status_name(turn.status)))];
    JsonView::Object(
        match turn.end_seq {
            Some(seq) => head.push(("end_seq"@, JsonView::Number(decimal(seq as nat)))) + tail,
            None => head + tail,
        },
    )
}

pub open spec fn turns_json(turns: Seq<SessionTurnSummary>) -> JsonView {
    JsonView::Array(turns.map_values(|turn: SessionTurnSummary| turn_json(turn)))
}

pub open spec fn timeline_json(
    session: Seq<char>,
    generation: u64,
    turns: Seq<SessionTurnSummary>,
    next: Option<u64>,
) -> JsonView {
    let head = seq![
        ("session_id"@, JsonView::Text(session)),
        ("connection_generation"@, JsonView::Number(decimal(generation as nat))),
        ("turns"@, turns_json(turns)),
    ];
    JsonView::Object(
        match next {
            Some(cursor) => head.push(("next_cursor"@, JsonView::Number(decimal(cursor as nat)))),
            None => head,
        },
    )
}

fn turn_value(turn: &SessionTurnSummary) -> (r: Json)
    ensures
        r@ == turn_json(*turn),
{
    let m = with_member(no_members(), "turn_id", number_value(turn.turn_id));
    let m = with_member(m, "start_seq", number_value(turn.start_seq));
    let m = match turn.end_seq {
        Some(seq) => with_member(m, "end_seq", number_value(seq)),
        None => m,
    };
    let status = match turn.status {
        SessionTurnStatus::Completed => "completed",
        SessionTurnStatus::Aborted => "aborted",
        SessionTurnStatus::Active => "active",
    };
    let r = object(with_member(m, "status", text_value(status)));
    assert(r@->Object_0 =~= turn_json(*turn)->Object_0);
    r
}

pub fn timeline_value(page: &SessionTimelinePage) -> (r: Json)
    ensures
        r@ == timeline_json(
            page.session_id@,
            page.connection_generation,
            page.turns@,
            page.next_cursor,
        ),
{
    let mut items: Vec<Json> = Vec::new();
    let mut i: usize = 0;
    while i < page.turns.len()
        invariant
            i <= page.turns@.len(),
            items@.len() == i,
            forall|j: int| 0 <= j < i ==> (#[trigger] items@[j])@ == turn_json(page.turns@[j]),
        decreases page.turns@.len() - i,
    {
        items.push(turn_value(&page.turns[i]));
        i = i + 1;
    }
    proof {
        crate::json::lemma_array_view(items);
        assert(crate::json::items_view(items@) =~= turns_json(page.turns@)->Array_0);
    }
    let m = with_member(no_members(), "session_id", text_value(&page.session_id));
    let m = with_member(m, "connection_generation", number_value(page.connection_generation));
    let m = with_member(m, "turns", Json::Array(items));
    let m = match page.next_cursor {
        Some(cursor) => with_member(m, "next_cursor", number_value(cursor)),
        None => m,
    };
    let r = object(m);
    proof {
        let expected = timeline_json(
            page.session_id@,
            page.connection_generation,
            page.turns@,
            page.next_cursor,
        );
        assert(r@->Object_0 =~= expected->Object_0);
    }
    r
}

/// The response with a page, or with the error.
pub fn timeline_response(page: &Result<SessionTimelinePage, ErrorEnvelope>) -> (r: HttpResponse)
    ensures
        r@ == (match page {
            Ok(page) => ResponseView {
                status: 200,
                content_type: "application/json"@,
                body: json_text(
                    timeline_json(
                        page.session_id@,
                        page.connection_generation,
                        page.turns@,
                        page.next_cursor,
                    ),
                ),
            },
            Err(e) => error_response_of(status_of(e.code), e@),
        }),
{
    match page {
        Ok(page) => json_response(&timeline_value(page)),
        Err(e) => rpc_error_response(e),
    }
}

// ---------------------------------------------------------------------------
// Events
// ---------------------------------------------------------------------------

/// The first record whose number is not its place.
pub open spec fn first_gap(records: Seq<SequencedEvent>) -> int
    decreases records.len(),
{
    if records.len() == 0 {
        0
    } else {
        let k = first_gap(records.drop_last());
        if k < records.len() - 1 {
            k
        } else if records.last().seq == records.len() - 1 {
            records.len() as int
        } else {
            records.len() - 1
        }
    }
}

proof fn lemma_gap(records: Seq<SequencedEvent>)
    ensures
        0 <= first_gap(records) <= records.len(),
        first_gap(records) == records.len() <==> numbered(records),
    decreases records.len(),
{
    if records.len() > 0 {
        let head = records.drop_last();
        lemma_gap(head);
        if numbered(records) {
            assert forall|i: int| 0 <= i < head.len() implies (#[trigger] head[i]).seq == i by {
                assert(head[i] == records[i]);
            }
        }
        if first_gap(records) == records.len() {
            assert forall|i: int| 0 <= i < records.len() implies (#[trigger] records[i]).seq
                == i by {
                if i < head.len() {
                    assert(head[i] == records[i]);
                }
            }
        }
    }
}

/// Where a client resumes, or why it cannot. `last_seq` is the last event that it
/// has.
pub open spec fn resume_at(records: Seq<SequencedEvent>, last_seq: Option<u64>) -> Result<
    int,
    ErrorView,
> {
    if first_gap(records) < records.len() {
        Err(
            error(
                ErrorCode::Internal,
                "session event sequence gap at "@ + decimal(first_gap(records) as nat),
            ),
        )
    } else {
        match last_seq {
            None => Ok(0),
            Some(last) => if last == u64::MAX {
                Err(cursor_error("last_seq overflow"@))
            } else if last + 1 > usize::MAX {
                Err(cursor_error("last_seq exceeds platform limits"@))
            } else if last + 1 > records.len() {
                Err(
                    cursor_error(
                        "last_seq "@ + decimal(last as nat) + " is outside the session"@,
                    ),
                )
            } else {
                Ok(last + 1)
            },
        }
    }
}

fn find_gap(records: &Vec<SequencedEvent>) -> (r: usize)
    ensures
        r == first_gap(records@),
        r <= records@.len(),
{
    let mut i: usize = 0;
    assert(records@.take(0) =~= Seq::empty());
    while i < records.len()
        invariant
            i <= records@.len(),
            first_gap(records@.take(i as int)) == i,
        decreases records@.len() - i,
    {
        let ghost next = records@.take(i + 1);
        assert(next.drop_last() =~= records@.take(i as int));
        assert(next.last() == records@[i as int]);
        if records[i].seq != i as u64 {
            proof {
                lemma_gap_stays(records@, i + 1);
            }
            return i;
        }
        i = i + 1;
    }
    assert(records@.take(records@.len() as int) =~= records@);
    i
}

proof fn lemma_gap_stays(records: Seq<SequencedEvent>, k: int)
    requires
        0 < k <= records.len(),
        first_gap(records.take(k)) < k,
    ensures
        first_gap(records) == first_gap(records.take(k)),
    decreases records.len() - k,
{
    if k < records.len() {
        assert(records.take(k + 1).drop_last() =~= records.take(k));
        lemma_gap_stays(records, k + 1);
    } else {
        assert(records.take(k) =~= records);
    }
}

/// The frames for a client: every event from where it resumes.
pub open spec fn are_frames(
    frames: Seq<SessionEventFrame>,
    session: Seq<char>,
    generation: u64,
    records: Seq<SequencedEvent>,
) -> bool {
    &&& frames.len() == records.len()
    &&& forall|i: int|
        #![trigger frames[i]]
        0 <= i < frames.len() ==> {
            &&& frames[i].session_id@ == session
            &&& frames[i].connection_generation == generation
            &&& frames[i].record == records[i]
        }
}

/// The events that a client does not have yet, as frames.
pub fn event_frames(
    query: &SessionEventQuery,
    generation: u64,
    records: Vec<SequencedEvent>,
) -> (r: Result<Vec<SessionEventFrame>, ErrorEnvelope>)
    ensures
        match r {
            Ok(frames) => {
                &&& resume_at(records@, query.last_seq) is Ok
                &&& 0 <= resume_at(records@, query.last_seq)->Ok_0 <= records@.len()
                &&& are_frames(
                    frames@,
                    query.session_id@,
                    generation,
                    records@.subrange(
                        resume_at(records@, query.last_seq)->Ok_0,
                        records@.len() as int,
                    ),
                )
            },
            Err(e) => resume_at(records@, query.last_seq) == Err::<int, ErrorView>(e@),
        },
{
    let gap: usize = find_gap(&records);
    if gap < records.len() {
        return Err(
            ErrorEnvelope::new(
                ErrorCode::Internal,
                concat2("session event sequence gap at ", &decimal_of(gap as u64)),
            ),
        );
    }
    let start: usize = match query.last_seq {
        None => 0,
        Some(last) => {
            if last == u64::MAX {
                return Err(invalid("last_seq overflow"));
            }
            let next: u64 = last + 1;
            if next > usize::MAX as u64 {
                return Err(invalid("last_seq exceeds platform limits"));
            }
            if next as usize > records.len() {
                return Err(
                    ErrorEnvelope::new(
                        ErrorCode::CursorInvalid,
                        concat3("last_seq ", &decimal_of(last), " is outside the session"),
                    ),
                );
            }
            next as usize
        },
    };
    let ghost all = records@;
    let mut rest = records;
    let mut kept = rest.split_off(start);
    let ghost wanted = kept@;
    assert(wanted =~= all.subrange(start as int, all.len() as int));
    let frames = frames_of(&query.session_id, generation, kept);
    Ok(frames)
}

/// The frames of a list of records, in order.
pub fn frames_of(session_id: &str, generation: u64, records: Vec<SequencedEvent>) -> (r: Vec<
    SessionEventFrame,
>)
    ensures
        are_frames(r@, session_id@, generation, records@),
{
    let ghost all = records@;
    let mut frames: Vec<SessionEventFrame> = Vec::new();
    for record in it: records
        invariant
            it.seq() == all,
            frames@.len() == it.index(),
            forall|i: int|
                #![trigger frames@[i]]
                0 <= i < frames@.len() ==> {
                    &&& frames@[i].session_id@ == session_id@
                    &&& frames@[i].connection_generation == generation
                    &&& frames@[i].record == all[i]
                },
    {
        frames.push(
            SessionEventFrame {
                session_id: session_id.to_owned(),
                connection_generation: generation,
                record,
            },
        );
    }
    frames
}

/// What a client that has everything up to `last_seq` gets is exactly what comes
/// after: no event twice, and none left out.
pub proof fn resuming_leaves_no_gap(
    records: Seq<SequencedEvent>,
    last_seq: Option<u64>,
    i: int,
)
    requires
        resume_at(records, last_seq) is Ok,
        0 <= i < records.len() - resume_at(records, last_seq)->Ok_0,
    ensures
        ({
            let start = resume_at(records, last_seq)->Ok_0;
            let sent = records.subrange(start, records.len() as int);
            &&& sent[i].seq == start + i
            &&& last_seq matches Some(last) ==> start == last + 1
            &&& last_seq is None ==> start == 0
        }),
{
    lemma_gap(records);
    let start = resume_at(records, last_seq)->Ok_0;
    let sent = records.subrange(start, records.len() as int);
    assert(sent[i] == records[start + i]);
}

/// One event of the stream: its number, and its frame as JSON.
pub open spec fn sse_event(seq: u64, data: Seq<char>) -> Seq<char> {
    "id: "@ + decimal(seq as nat) + "\nevent: session_event\ndata: "@ + data + "\n\n"@
}

pub open spec fn sse_text(events: Seq<(u64, String)>) -> Seq<char>
    decreases events.len(),
{
    if events.len() == 0 {
        Seq::empty()
    } else {
        sse_text(events.drop_last()) + sse_event(events.last().0, events.last().1@)
    }
}

/// The body of an event stream, from the numbers of its events and their frames as
/// JSON.
pub fn sse_body(events: &Vec<(u64, String)>) -> (r: String)
    ensures
        r@ == sse_text(events@),
{
    let mut body = String::new();
    assert(body@ =~= Seq::empty());
    assert(events@.take(0) =~= Seq::empty());
    let mut i: usize = 0;
    while i < events.len()
        invariant
            i <= events@.len(),
            body@ == sse_text(events@.take(i as int)),
        decreases events@.len() - i,
    {
        let ghost next = events@.take(i + 1);
        assert(next.drop_last() =~= events@.take(i as int));
        assert(next.last() == events@[i as int]);
        let event = concat5(
            "id: ",
            &decimal_of(events[i].0),
            "\nevent: session_event\ndata: ",
            &events[i].1,
            "\n\n",
        );
        body.push_str(&event);
        i = i + 1;
    }
    assert(events@.take(events@.len() as int) =~= events@);
    body
}

/// The response with an event stream, or with the error.
pub fn event_response(body: Result<String, ErrorEnvelope>) -> (r: HttpResponse)
    ensures
        r@ == (match body {
            Ok(text) => ResponseView {
                status: 200,
                content_type: "text/event-stream"@,
                body: text@,
            },
            Err(e) => error_response_of(status_of(e.code), e@),
        }),
{
    match body {
        Ok(text) => HttpResponse {
            status: 200,
            content_type: "text/event-stream".to_string(),
            body: text,
        },
        Err(e) => rpc_error_response(&e),
    }
}

// ---------------------------------------------------------------------------
// Errors and capabilities
// ---------------------------------------------------------------------------

/// The status of an error.
pub open spec fn status_of(code: ErrorCode) -> u16 {
    match code {
        ErrorCode::SessionNotFound => 404,
        ErrorCode::CursorInvalid => 400,
        ErrorCode::ToolArgsInvalid => 400,
        ErrorCode::TeamRevisionConflict => 409,
        ErrorCode::TeamDependencyCycle => 409,
        ErrorCode::FileRevisionConflict => 409,
        ErrorCode::SandboxDenied => 403,
        ErrorCode::ApprovalRejected => 403,
        _ => 500,
    }
}

pub fn rpc_error_response(error: &ErrorEnvelope) -> (r: HttpResponse)
    ensures
        r@ == error_response_of(status_of(error.code), error@),
{
    let status: u16 = match error.code {
        ErrorCode::SessionNotFound => 404,
        ErrorCode::CursorInvalid => 400,
        ErrorCode::ToolArgsInvalid => 400,
        ErrorCode::TeamRevisionConflict => 409,
        ErrorCode::TeamDependencyCycle => 409,
        ErrorCode::FileRevisionConflict => 409,
        ErrorCode::SandboxDenied => 403,
        ErrorCode::ApprovalRejected => 403,
        _ => 500,
    };
    error_response(status, error)
}

/// What the service offers.
pub fn capabilities(generation: u64) -> (r: SessionRpcCapabilities)
    ensures
        r == (SessionRpcCapabilities {
            connection_generation: generation,
            read_only: true,
            timeline: true,
            event_stream: true,
            last_event_id: true,
            follow_before_page: true,
            retry_business_errors: false,
        }),
{
    SessionRpcCapabilities {
        connection_generation: generation,
        read_only: true,
        timeline: true,
        event_stream: true,
        last_event_id: true,
        follow_before_page: true,
        retry_business_errors: false,
    }
}

pub open spec fn capabilities_json(c: SessionRpcCapabilities) -> JsonView {
    JsonView::Object(
        seq![
            ("connection_generation"@, JsonView::Number(decimal(c.connection_generation as nat))),
            ("read_only"@, JsonView::Bool(c.read_only)),
            ("timeline"@, JsonView::Bool(c.timeline)),
            ("event_stream"@, JsonView::Bool(c.event_stream)),
            ("last_event_id"@, JsonView::Bool(c.last_event_id)),
            ("follow_before_page"@, JsonView::Bool(c.follow_before_page)),
            ("retry_business_errors"@, JsonView::Bool(c.retry_business_errors)),
        ],
    )
}

pub fn capabilities_response(generation: u64) -> (r: HttpResponse)
    ensures
        r@ == (ResponseView {
            status: 200,
            content_type: "application/json"@,
            body: json_text(
                capabilities_json(
                    SessionRpcCapabilities {
                        connection_generation: generation,
                        read_only: true,
                        timeline: true,
                        event_stream: true,
                        last_event_id: true,
                        follow_before_page: true,
                        retry_business_errors: false,
                    },
                ),
            ),
        }),
{
    let c = capabilities(generation);
    let m = with_member(
        no_members(),
        "connection_generation",
        number_value(c.connection_generation),
    );
    let m = with_member(m, "read_only", Json::Bool(c.read_only));
    let m = with_member(m, "timeline", Json::Bool(c.timeline));
    let m = with_member(m, "event_stream", Json::Bool(c.event_stream));
    let m = with_member(m, "last_event_id", Json::Bool(c.last_event_id));
    let m = with_member(m, "follow_before_page", Json::Bool(c.follow_before_page));
    let m = with_member(m, "retry_business_errors", Json::Bool(c.retry_business_errors));
    let value = object(m);
    assert(value@->Object_0 =~= capabilities_json(c)->Object_0);
    json_response(&value)
}

// ---------------------------------------------------------------------------
// Laws
// ---------------------------------------------------------------------------

/// Nothing but `GET` is served, whatever its target.
pub proof fn only_get_is_served(
    method: Seq<char>,
    target: Seq<char>,
    last_event_id: Option<Seq<char>>,
    current: u64,
)
    ensures
        routed(method, target, last_event_id, current) is Ok ==> method == "GET"@,
        method != "GET"@ ==> routed(method, target, last_event_id, current)->Err_0.status == 405,
{
}

/// Every session that a route names has the form of a session id, and a request of
/// another generation gets no route.
pub proof fn routes_name_plain_sessions(
    target: Seq<char>,
    last_event_id: Option<Seq<char>>,
    current: u64,
)
    ensures
        route_of(target, last_event_id, current) matches Ok(
            RouteView::Timeline { session, generation, limit, .. },
        ) ==> is_session_id(session) && 1 <= limit <= MAX_TIMELINE_LIMIT && (generation is Some
            ==> generation->0 == current),
        route_of(target, last_event_id, current) matches Ok(
            RouteView::Events { session, generation, .. },
        ) ==> is_session_id(session) && (generation is Some ==> generation->0 == current),
{
}

/// The status of a turn is shown by its own name, and by no other's.
pub proof fn a_status_has_one_name(a: SessionTurnStatus, b: SessionTurnStatus)
    ensures
        status_name(SessionTurnStatus::Completed) == "completed"@,
        status_name(SessionTurnStatus::Aborted) == "aborted"@,
        status_name(SessionTurnStatus::Active) == "active"@,
        status_name(a) == status_name(b) <==> a == b,
{
    reveal_strlit("completed");
    reveal_strlit("aborted");
    reveal_strlit("active");
    assert("completed"@.len() == 9);
    assert("aborted"@.len() == 7);
    assert("active"@.len() == 6);
}

/// A turn that is shown gives back its numbers and its status; the end is shown where there is
/// one.
pub proof fn a_turn_is_shown_in_full(turn: SessionTurnSummary)
    ensures
        member_of(turn_json(turn), "turn_id"@) is Some,
        uint_of(member_of(turn_json(turn), "turn_id"@)->0) == Some(turn.turn_id as nat),
        member_of(turn_json(turn), "start_seq"@) is Some,
        uint_of(member_of(turn_json(turn), "start_seq"@)->0) == Some(turn.start_seq as nat),
        match turn.end_seq {
            Some(end) => member_of(turn_json(turn), "end_seq"@) is Some && uint_of(
                member_of(turn_json(turn), "end_seq"@)->0,
            ) == Some(end as nat),
            None => member_of(turn_json(turn), "end_seq"@) is None,
        },
        member_of(turn_json(turn), "status"@) == Some(
            JsonView::Text(
                match turn.status {
                    SessionTurnStatus::Completed => "completed"@,
                    SessionTurnStatus::Aborted => "aborted"@,
                    SessionTurnStatus::Active => "active"@,
                },
            ),
        ),
{
    reveal_strlit("turn_id");
    reveal_strlit("start_seq");
    reveal_strlit("end_seq");
    reveal_strlit("status");
    assert("turn_id"@.len() == 7);
    assert("start_seq"@.len() == 9);
    assert("end_seq"@.len() == 7);
    assert("status"@.len() == 6);
    assert("turn_id"@[0] != "end_seq"@[0]);
    let members = turn_json(turn)->Object_0;
    lemma_member_at(members, 0);
    lemma_member_at(members, 1);
    lemma_member_at(members, 2);
    a_written_number_is_read_back(turn.turn_id as nat);
    a_written_number_is_read_back(turn.start_seq as nat);
    a_member_is_the_first_of_its_name(members, "end_seq"@);
    if let Some(end) = turn.end_seq {
        lemma_member_at(members, 3);
        a_written_number_is_read_back(end as nat);
    }
}

/// A page that is shown names its session and its generation, shows every turn in its order,
/// and says where the next page begins where there is one.
pub proof fn a_page_is_shown_in_full(
    session: Seq<char>,
    generation: u64,
    turns: Seq<SessionTurnSummary>,
    next: Option<u64>,
    i: int,
)
    ensures
        ({
            let page = timeline_json(session, generation, turns, next);
            &&& member_of(page, "session_id"@) == Some(JsonView::Text(session))
            &&& member_of(page, "connection_generation"@) is Some
            &&& uint_of(member_of(page, "connection_generation"@)->0) == Some(generation as nat)
            &&& member_of(page, "turns"@) matches Some(JsonView::Array(shown)) && shown.len()
                == turns.len() && (0 <= i < turns.len() ==> shown[i] == turn_json(turns[i]))
            &&& match next {
                Some(cursor) => member_of(page, "next_cursor"@) is Some && uint_of(
                    member_of(page, "next_cursor"@)->0,
                ) == Some(cursor as nat),
                None => member_of(page, "next_cursor"@) is None,
            }
        }),
{
    reveal_strlit("session_id");
    reveal_strlit("connection_generation");
    reveal_strlit("turns");
    reveal_strlit("next_cursor");
    assert("session_id"@.len() == 10);
    assert("connection_generation"@.len() == 21);
    assert("turns"@.len() == 5);
    assert("next_cursor"@.len() == 11);
    let members = timeline_json(session, generation, turns, next)->Object_0;
    lemma_member_at(members, 0);
    lemma_member_at(members, 1);
    lemma_member_at(members, 2);
    a_written_number_is_read_back(generation as nat);
    a_member_is_the_first_of_its_name(members, "next_cursor"@);
    if let Some(cursor) = next {
        lemma_member_at(members, 3);
        a_written_number_is_read_back(cursor as nat);
    }
}

/// What the service can do is shown by the name of each ability.
pub proof fn abilities_are_shown_by_name(c: SessionRpcCapabilities)
    ensures
        ({
            let shown = capabilities_json(c);
            &&& member_of(shown, "connection_generation"@) is Some
            &&& uint_of(member_of(shown, "connection_generation"@)->0) == Some(
                c.connection_generation as nat,
            )
            &&& member_of(shown, "read_only"@) == Some(JsonView::Bool(c.read_only))
            &&& member_of(shown, "timeline"@) == Some(JsonView::Bool(c.timeline))
            &&& member_of(shown, "event_stream"@) == Some(JsonView::Bool(c.event_stream))
            &&& member_of(shown, "last_event_id"@) == Some(JsonView::Bool(c.last_event_id))
            &&& member_of(shown, "follow_before_page"@) == Some(
                JsonView::Bool(c.follow_before_page),
            )
            &&& member_of(shown, "retry_business_errors"@) == Some(
                JsonView::Bool(c.retry_business_errors),
            )
        }),
{
    reveal_strlit("connection_generation");
    reveal_strlit("read_only");
    reveal_strlit("timeline");
    reveal_strlit("event_stream");
    reveal_strlit("last_event_id");
    reveal_strlit("follow_before_page");
    reveal_strlit("retry_business_errors");
    assert("connection_generation"@.len() == 21);
    assert("read_only"@.len() == 9);
    assert("timeline"@.len() == 8);
    assert("event_stream"@.len() == 12);
    assert("last_event_id"@.len() == 13);
    assert("follow_before_page"@.len() == 18);
    assert("retry_business_errors"@.len() == 21);
    assert("connection_generation"@[0] != "retry_business_errors"@[0]);
    let members = capabilities_json(c)->Object_0;
    lemma_member_at(members, 0);
    lemma_member_at(members, 1);
    lemma_member_at(members, 2);
    lemma_member_at(members, 3);
    lemma_member_at(members, 4);
    lemma_member_at(members, 5);
    lemma_member_at(members, 6);
    a_written_number_is_read_back(c.connection_generation as nat);
}

/// Events are sent one after another, each with its number, its kind and its data, and a blank
/// line behind it.
pub proof fn events_are_sent_in_order(
    events: Seq<(u64, String)>,
    event: (u64, String),
)
    ensures
        sse_text(Seq::empty()).len() == 0,
        sse_text(events.push(event)) == sse_text(events) + ("id: "@ + decimal(event.0 as nat)
            + "\n"@ + "event: session_event\n"@ + "data: "@ + event.1@ + "\n\n"@),
{
    assert(events.push(event).drop_last() =~= events);
    reveal_strlit("\nevent: session_event\ndata: ");
    reveal_strlit("\n");
    reveal_strlit("event: session_event\n");
    reveal_strlit("data: ");
    assert("\nevent: session_event\ndata: "@ =~= "\n"@ + "event: session_event\n"@ + "data: "@);
    assert(sse_event(event.0, event.1@) =~= "id: "@ + decimal(event.0 as nat) + "\n"@
        + "event: session_event\n"@ + "data: "@ + event.1@ + "\n\n"@);
}

/// The status of a refusal: not found, a conflict, forbidden, a bad request, or a fault of the
/// service.
pub proof fn refusals_have_their_status(code: ErrorCode)
    ensures
        status_of(code) == 404 <==> code == ErrorCode::SessionNotFound,
        status_of(code) == 400 <==> code == ErrorCode::CursorInvalid || code
            == ErrorCode::ToolArgsInvalid,
        status_of(code) == 409 <==> code == ErrorCode::TeamRevisionConflict || code
            == ErrorCode::TeamDependencyCycle || code == ErrorCode::FileRevisionConflict,
        status_of(code) == 403 <==> code == ErrorCode::SandboxDenied || code
            == ErrorCode::ApprovalRejected,
        status_of(code) == 404 || status_of(code) == 400 || status_of(code) == 409 || status_of(
            code,
        ) == 403 || status_of(code) == 500,
{
}

/// A page holds the turns from the cursor on, as many as asked for where there are so many,
/// and the rest otherwise. A cursor behind the last turn is refused, except on an empty
/// session.
pub proof fn a_page_is_full_where_it_can_be(cursor: int, limit: int, count: int)
    requires
        0 <= cursor <= count,
        0 < limit,
    ensures
        page_end(cursor, limit, count) - cursor <= limit,
        page_end(cursor, limit, count) <= count,
        page_end(cursor, limit, count) - cursor == limit || page_end(cursor, limit, count) == count,
        !cursor_refused(cursor, count) <==> cursor < count || count == 0,
{
}

/// Events are resumed behind the last one that was seen, where the numbers have no gap, and
/// from the start where none was seen.
pub proof fn events_resume_behind_the_last(records: Seq<SequencedEvent>, last: u64, i: int)
    ensures
        (exists|k: int| 0 <= k < records.len() && #[trigger] records[k].seq != k) ==> resume_at(
            records,
            None,
        ) is Err && resume_at(records, Some(last)) is Err,
        (forall|k: int| 0 <= k < records.len() ==> #[trigger] records[k].seq == k) ==> {
            &&& resume_at(records, None) == Ok::<int, ErrorView>(0)
            &&& last < records.len() && last < u64::MAX && last < usize::MAX ==> resume_at(
                records,
                Some(last),
            ) == Ok::<int, ErrorView>(last + 1)
            &&& last >= records.len() ==> resume_at(records, Some(last)) is Err && resume_at(
                records,
                Some(last),
            )->Err_0.code == ErrorCode::CursorInvalid
        },
{
    lemma_gap(records);
    if exists|k: int| 0 <= k < records.len() && #[trigger] records[k].seq != k {
        let k = choose|k: int| 0 <= k < records.len() && #[trigger] records[k].seq != k;
        assert(records[k].seq != k);
        assert(!numbered(records));
    }
}

/// The pairs of a query, each a name that is allowed, an equals sign and a value that is not
/// empty; no name comes twice.
pub proof fn a_query_is_read_pair_by_pair(
    ps: Seq<Seq<char>>,
    key: Seq<char>,
    value: Seq<char>,
    allowed: Seq<Seq<char>>,
)
    requires
        pairs_of(ps, allowed) is Ok,
        !key.contains('='),
    ensures
        pairs_of(Seq::empty(), allowed) == Ok::<Map<Seq<char>, Seq<char>>, ErrorView>(
            Map::empty(),
        ),
        pairs_of(ps.push(key + seq!['='] + value), allowed) is Ok <==> allowed.contains(key)
            && value.len() > 0 && !pairs_of(ps, allowed)->Ok_0.dom().contains(key),
        pairs_of(ps.push(key + seq!['='] + value), allowed) is Ok ==> pairs_of(
            ps.push(key + seq!['='] + value),
            allowed,
        )->Ok_0 == pairs_of(ps, allowed)->Ok_0.insert(key, value),
{
    let pair = key + seq!['='] + value;
    assert(ps.push(pair).drop_last() =~= ps);
    assert(pair[key.len() as int] == '=');
    assert forall|i: int| 0 <= i < key.len() implies pair[i] != '=' by {
        assert(pair[i] == key[i]);
    }
    lemma_first_place(pair, '=');
    assert(pair.take(key.len() as int) =~= key);
    assert(pair.subrange(0, key.len() as int) =~= key);
    assert(pair.subrange(key.len() as int + 1, pair.len() as int) =~= value);
    assert(pair.skip(key.len() as int + 1) =~= value);
}

/// A page that is asked for: of the named session, from the cursor on, as many turns as the
/// limit says, which is twenty where none is given and never nought or more than a
/// thousand; for no other generation than the current one.
pub proof fn a_page_is_asked_for_by_name(
    session: Seq<char>,
    values: Map<Seq<char>, Seq<char>>,
    current: u64,
    route: RouteView,
)
    requires
        timeline_route(session, values, current) == Ok::<RouteView, ErrorView>(route),
    ensures
        route matches RouteView::Timeline { session: s, generation, cursor, limit } && {
            &&& s == session
            &&& 1 <= limit <= 1000
            &&& generation is Some ==> generation->0 == current
            &&& !values.dom().contains("limit"@) ==> limit == 20
            &&& values.dom().contains("limit"@) ==> unsigned_value(
                values["limit"@],
                u64::MAX as nat,
            ) == Some(limit as nat)
            &&& !values.dom().contains("cursor"@) ==> cursor is None
            &&& values.dom().contains("cursor"@) ==> cursor is Some && unsigned_value(
                values["cursor"@],
                u64::MAX as nat,
            ) == Some(cursor->0 as nat)
            &&& !values.dom().contains("generation"@) ==> generation is None
            &&& values.dom().contains("generation"@) ==> generation is Some && unsigned_value(
                values["generation"@],
                u64::MAX as nat,
            ) == Some(current as nat)
        },
{
    a_number_fits(values, "limit"@);
    a_number_fits(values, "cursor"@);
    a_number_fits(values, "generation"@);
}

proof fn a_number_fits(values: Map<Seq<char>, Seq<char>>, key: Seq<char>)
    ensures
        values.dom().contains(key) && unsigned_value(values[key], u64::MAX as nat) is Some
            ==> unsigned_value(values[key], u64::MAX as nat)->0 <= u64::MAX,
{
}

/// Events that are asked for: of the named session, behind the last one that was seen, which
/// the header or the query names, but not both.
pub proof fn events_are_asked_for_by_name(
    session: Seq<char>,
    values: Map<Seq<char>, Seq<char>>,
    last_event_id: Option<Seq<char>>,
    current: u64,
    route: RouteView,
)
    requires
        event_route(session, values, last_event_id, current) == Ok::<RouteView, ErrorView>(route),
    ensures
        route matches RouteView::Events { session: s, generation, last_seq } && {
            &&& s == session
            &&& generation is Some ==> generation->0 == current
            &&& !(last_event_id is Some && values.dom().contains("last_seq"@))
            &&& last_event_id is Some ==> last_seq is Some && unsigned_value(
                last_event_id->0,
                u64::MAX as nat,
            ) == Some(last_seq->0 as nat)
            &&& values.dom().contains("last_seq"@) ==> last_seq is Some && unsigned_value(
                values["last_seq"@],
                u64::MAX as nat,
            ) == Some(last_seq->0 as nat)
            &&& last_event_id is None && !values.dom().contains("last_seq"@) ==> last_seq is None
        },
{
    a_number_fits(values, "last_seq"@);
    a_number_fits(values, "generation"@);
}

/// The gap that is told is the first place where the number of an event is not its place.
pub proof fn the_first_gap_is_told(records: Seq<SequencedEvent>)
    ensures
        forall|i: int| 0 <= i < first_gap(records) ==> (#[trigger] records[i]).seq == i,
        first_gap(records) < records.len() ==> records[first_gap(records)].seq != first_gap(records),
    decreases records.len(),
{
    if records.len() > 0 {
        let head = records.drop_last();
        the_first_gap_is_told(head);
        lemma_gap(head);
        assert forall|i: int| 0 <= i < first_gap(records) implies (#[trigger] records[i]).seq
            == i by {
            if i < head.len() {
                assert(head[i] == records[i]);
            }
        }
        if first_gap(records) < head.len() {
            assert(head[first_gap(head)] == records[first_gap(head)]);
        }
    }
}

/// The options of the service come in pairs: `--root` names the directory of the sessions,
/// `--bind` an address, and the later of two counts. Nothing else is an option, and the
/// directory must be named.
pub proof fn options_come_in_pairs(
    args: Seq<Seq<char>>,
    n: nat,
    addresses: Map<Seq<char>, BindAddress>,
)
    requires
        serve_after(args, n, addresses) is Ok,
        2 * n + 1 < args.len(),
    ensures
        ({
            let before = serve_after(args, n, addresses)->Ok_0;
            let after = serve_after(args, n + 1, addresses);
            let name = args[2 * n as int];
            let value = args[2 * n as int + 1];
            &&& name == "--root"@ ==> after is Ok && after->Ok_0.root == Some(value)
                && after->Ok_0.bind == before.bind && after->Ok_0.loopback == before.loopback
            &&& name == "--bind"@ && addresses.dom().contains(value) ==> after is Ok
                && after->Ok_0.root == before.root && after->Ok_0.bind == addresses[value].text@
                && after->Ok_0.loopback == addresses[value].loopback
            &&& name == "--bind"@ && !addresses.dom().contains(value) ==> after is Err
            &&& name != "--root"@ && name != "--bind"@ ==> after is Err
        }),
        serve_after(args, 0, addresses) matches Ok(s) && s.root is None && s.bind
            == "127.0.0.1:8765"@ && s.loopback,
        serve_args(args, addresses) is Ok ==> serve_args(args, addresses)->Ok_0.root is Some,
{
    reveal_strlit("--root");
    reveal_strlit("--bind");
    assert("--root"@.len() == 6);
    assert("--bind"@.len() == 6);
    assert("--root"@[2] != "--bind"@[2]);
}

/// Where a target leads: the abilities of the service, the turns of a session, or its events.
pub proof fn where_targets_lead(id: Seq<char>, current: u64)
    requires
        is_session_id(id),
    ensures
        route_of("/v1/capabilities"@, None, current) == Ok::<RouteView, ErrorView>(
            RouteView::Capabilities,
        ),
        route_of("/v1/sessions/"@ + id + "/timeline"@, None, current) == Ok::<RouteView, ErrorView>(
            RouteView::Timeline { session: id, generation: None, cursor: None, limit: 20 },
        ),
        route_of("/v1/sessions/"@ + id + "/events"@, None, current) == Ok::<RouteView, ErrorView>(
            RouteView::Events { session: id, generation: None, last_seq: None },
        ),
{
    lemma_capabilities_route(current);
    lemma_timeline_route(id, current);
    lemma_events_route(id, current);
}

proof fn lemma_capabilities_route(current: u64)
    ensures
        route_of("/v1/capabilities"@, None, current) == Ok::<RouteView, ErrorView>(
            RouteView::Capabilities,
        ),
{
    reveal_strlit("/v1/capabilities");
    reveal_strlit("v1/capabilities");
    let c = "/v1/capabilities"@;
    lemma_plain_target(c);
    assert(c.subrange(1, c.len() as int) =~= "v1/capabilities"@);
}

#[verifier::rlimit(40)]
proof fn lemma_timeline_route(id: Seq<char>, current: u64)
    requires
        is_session_id(id),
    ensures
        route_of("/v1/sessions/"@ + id + "/timeline"@, None, current) == Ok::<RouteView, ErrorView>(
            RouteView::Timeline { session: id, generation: None, cursor: None, limit: 20 },
        ),
{
    let t = "/v1/sessions/"@ + id + "/timeline"@;
    assert(t == "/v1/sessions/"@ + id + seq!['/'] + "timeline"@) by {
        reveal_strlit("timeline");
        reveal_strlit("/timeline");
        assert("/timeline"@ =~= seq!['/'] + "timeline"@);
        assert(t =~= "/v1/sessions/"@ + id + seq!['/'] + "timeline"@);
    }
    lemma_session_target(id, "timeline"@);
    let parts = pieces(without_around(t, '/'), '/');
    assert(parts[0] == "v1"@ && parts[1] == "sessions"@ && parts[2] == id && parts[3]
        == "timeline"@);
    assert(query_of(Seq::empty(), timeline_keys()) == Ok::<Map<Seq<char>, Seq<char>>, ErrorView>(
        Map::empty(),
    ));
}

#[verifier::rlimit(40)]
proof fn lemma_events_route(id: Seq<char>, current: u64)
    requires
        is_session_id(id),
    ensures
        route_of("/v1/sessions/"@ + id + "/events"@, None, current) == Ok::<RouteView, ErrorView>(
            RouteView::Events { session: id, generation: None, last_seq: None },
        ),
{
    let t = "/v1/sessions/"@ + id + "/events"@;
    assert(t == "/v1/sessions/"@ + id + seq!['/'] + "events"@) by {
        reveal_strlit("events");
        reveal_strlit("/events");
        assert("/events"@ =~= seq!['/'] + "events"@);
        assert(t =~= "/v1/sessions/"@ + id + seq!['/'] + "events"@);
    }
    assert("timeline"@ != "events"@) by {
        reveal_strlit("timeline");
        reveal_strlit("events");
        assert("timeline"@.len() == 8);
        assert("events"@.len() == 6);
    }
    lemma_session_target(id, "events"@);
    let parts = pieces(without_around(t, '/'), '/');
    assert(parts[0] == "v1"@ && parts[1] == "sessions"@ && parts[2] == id && parts[3]
        == "events"@);
    assert(query_of(Seq::empty(), event_keys()) == Ok::<Map<Seq<char>, Seq<char>>, ErrorView>(
        Map::empty(),
    ));
}

proof fn lemma_plain_target(t: Seq<char>)
    requires
        t.len() > 1,
        t[0] == '/',
        t[1] != '/',
        t.last() != '/',
        !t.contains('?'),
    ensures
        target_parts(t) == (t, Seq::<char>::empty()),
        without_around(t, '/') == t.subrange(1, t.len() as int),
{
    lemma_first_place(t, '?');
    if first_index(t, '?') < t.len() {
        assert(t[first_index(t, '?')] == '?');
    }
    let rest = t.subrange(1, t.len() as int);
    assert(rest[0] == t[1]);
    reveal_with_fuel(without_leading, 2);
    assert(without_leading(t, '/') == rest);
    assert(rest.last() == t.last());
}

#[verifier::rlimit(40)]
proof fn lemma_session_target(id: Seq<char>, last: Seq<char>)
    requires
        is_session_id(id),
        last == "timeline"@ || last == "events"@,
    ensures
        ({
            let t = "/v1/sessions/"@ + id + seq!['/'] + last;
            let inner = without_around(t, '/');
            &&& target_parts(t) == (t, Seq::<char>::empty())
            &&& inner != "v1/capabilities"@
            &&& pieces(inner, '/') == seq!["v1"@, "sessions"@, id, last]
        }),
{
    reveal_strlit("/v1/sessions/");
    reveal_strlit("v1");
    reveal_strlit("sessions");
    reveal_strlit("timeline");
    reveal_strlit("events");
    reveal_strlit("v1/capabilities");
    let t = "/v1/sessions/"@ + id + seq!['/'] + last;
    assert forall|i: int| 0 <= i < t.len() implies t[i] != '?' by {
        if 13 <= i < 13 + id.len() {
            assert(t[i] == id[i - 13]);
        }
    }
    assert(t.last() == last.last());
    lemma_plain_target(t);
    let inner = without_around(t, '/');
    assert(inner[3] == 's');
    assert("v1/capabilities"@[3] == 'c');
    assert forall|i: int| 0 <= i < id.len() implies id[i] != '/' by {
        assert(is_alnum(id[i]) || id[i] == '-' || id[i] == '_');
    }
    assert(!"v1"@.contains('/'));
    assert(!"sessions"@.contains('/'));
    assert(!id.contains('/'));
    assert(!last.contains('/'));
    let third = id + seq!['/'] + last;
    let second = "sessions"@ + seq!['/'] + third;
    assert(inner =~= "v1"@ + seq!['/'] + second);
    pieces_lie_between_the_marks("v1"@, second, '/');
    pieces_lie_between_the_marks("sessions"@, third, '/');
    pieces_lie_between_the_marks(id, last, '/');
    pieces_lie_between_the_marks(last, last, '/');
    assert(pieces(inner, '/') =~= seq!["v1"@, "sessions"@, id, last]);
}

/// A client is sent every event from where it resumes, in their order, under its session and
/// generation.
pub proof fn which_events_are_sent(
    frames: Seq<SessionEventFrame>,
    session: Seq<char>,
    generation: u64,
    records: Seq<SequencedEvent>,
    i: int,
)
    requires
        are_frames(frames, session, generation, records),
    ensures
        frames.len() == records.len(),
        0 <= i < records.len() ==> frames[i].record == records[i] && frames[i].session_id@ == session
            && frames[i].connection_generation == generation,
{
    if 0 <= i < records.len() {
        let f = frames[i];
    }
}

/// A number of a query is read in decimal; anything else under its name is refused.
pub proof fn how_numbers_of_a_query_are_read(n: nat, name: Seq<char>, text: Seq<char>)
    ensures
        number_of(None, name) == Ok::<Option<u64>, ErrorView>(None),
        n <= u64::MAX ==> number_of(Some(decimal(n)), name) == Ok::<Option<u64>, ErrorView>(
            Some(n as u64),
        ),
        n > u64::MAX ==> number_of(Some(decimal(n)), name) is Err,
        text.len() == 0 ==> number_of(Some(text), name) is Err,
        number_of(Some(text), name) is Err ==> number_of(Some(text), name)->Err_0.code
            == ErrorCode::CursorInvalid,
        query_of(Seq::empty(), timeline_keys()) == Ok::<Map<Seq<char>, Seq<char>>, ErrorView>(
            Map::empty(),
        ),
        text.len() > 0 ==> query_of(text, timeline_keys()) == pairs_of(
            pieces(text, '&'),
            seq!["cursor"@, "limit"@, "generation"@],
        ),
        text.len() > 0 ==> query_of(text, event_keys()) == pairs_of(
            pieces(text, '&'),
            seq!["last_seq"@, "generation"@],
        ),
{
    a_number_within_its_limit_is_read(n, u64::MAX as nat);
}

/// A page with a cursor and a limit that are numbers, the limit from one to a thousand, is
/// given; a limit outside of that is refused.
pub proof fn which_pages_are_given(
    session: Seq<char>,
    values: Map<Seq<char>, Seq<char>>,
    current: u64,
    cursor: nat,
    limit: nat,
)
    requires
        cursor <= u64::MAX,
        limit <= u64::MAX,
        values.dom().contains("cursor"@) && values["cursor"@] == decimal(cursor),
        values.dom().contains("limit"@) && values["limit"@] == decimal(limit),
        !values.dom().contains("generation"@),
    ensures
        1 <= limit <= 1000 ==> timeline_route(session, values, current) == Ok::<RouteView, ErrorView>(
            RouteView::Timeline {
                session,
                generation: None,
                cursor: Some(cursor as u64),
                limit: limit as u32,
            },
        ),
        limit == 0 || limit > 1000 ==> timeline_route(session, values, current) is Err
            && timeline_route(session, values, current)->Err_0.code == ErrorCode::CursorInvalid,
{
    a_number_within_its_limit_is_read(cursor, u64::MAX as nat);
    a_number_within_its_limit_is_read(limit, u64::MAX as nat);
}

/// Events behind a number that is named in the query or the header are given; a generation that
/// is not the current one is refused.
pub proof fn which_events_are_given(
    session: Seq<char>,
    values: Map<Seq<char>, Seq<char>>,
    current: u64,
    other: u64,
    last: nat,
)
    requires
        last <= u64::MAX,
        values.dom().contains("generation"@) && values["generation"@] == decimal(other as nat),
        !values.dom().contains("last_seq"@),
    ensures
        other == current ==> event_route(session, values, Some(decimal(last)), current) == Ok::<
            RouteView,
            ErrorView,
        >(
            RouteView::Events {
                session,
                generation: Some(current),
                last_seq: Some(last as u64),
            },
        ),
        other != current ==> event_route(session, values, Some(decimal(last)), current) is Err,
        other != current ==> timeline_route(session, values, current) is Err,
{
    a_number_within_its_limit_is_read(last, u64::MAX as nat);
    a_number_within_its_limit_is_read(other as nat, u64::MAX as nat);
}

/// A service that is only told its directory listens on this machine; without a directory, or
/// with an option that has no value, it does not start.
pub proof fn how_a_service_starts(
    root: Seq<char>,
    option: Seq<char>,
    addresses: Map<Seq<char>, BindAddress>,
)
    ensures
        serve_args(seq!["--root"@, root], addresses) == Ok::<ServeView, Seq<char>>(
            ServeView { root: Some(root), bind: "127.0.0.1:8765"@, loopback: true },
        ),
        serve_args(Seq::empty(), addresses) is Err,
        serve_args(seq![option], addresses) is Err,
{
    reveal_with_fuel(serve_after, 2);
    let args = seq!["--root"@, root];
    assert(args[0] == "--root"@ && args[1] == root);
    assert(serve_after(args, 1, addresses) is Ok);
}

} // verus!

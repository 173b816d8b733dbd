//! The proxy that everything going out passes through: which hosts it lets through,
//! and how it reads a request.
use vstd::prelude::*;
use vstd::utf8::{decode_utf8, valid_utf8};
use crate::names::NameSet;
use crate::protocol::Event;
use crate::scan::{
    a_cut_is_at_the_first_part, a_cut_is_at_the_last_place, a_stop_ends_what_is_before_it,
    before_any, contains_any, contains_white, cut_at, cut_last, first_line, first_line_of, has_any,
    has_white, rsplit_once, split_at_part, split_words, take_before_any, words,
};
use crate::text::{
    a_number_within_its_limit_is_read, concat3, decimal, decimal_of, has_prefix, is_digit,
    is_white, lemma_decimal, lower_case_changes_capitals_only, lowered, parse_unsigned, same_text,
    starts_with, to_lower, trim, trimmed, unsigned_value, utf8_text, views,
};

verus! {

broadcast use vstd::string::group_string_axioms;

// ---------------------------------------------------------------------------
// The policy
// ---------------------------------------------------------------------------

/// The hosts that may be reached; none by default.
#[derive(Debug, PartialEq, Eq)]
pub struct ProxyPolicy {
    allowed_hosts: NameSet,
    allow_forbidden_targets: bool,
}

pub struct ProxyPolicyView {
    pub hosts: Set<Seq<char>>,
    pub forbidden_targets: bool,
}

impl View for ProxyPolicy {
    type V = ProxyPolicyView;

    closed spec fn view(&self) -> ProxyPolicyView {
        ProxyPolicyView {
            hosts: self.allowed_hosts@,
            forbidden_targets: self.allow_forbidden_targets,
        }
    }
}

impl Default for ProxyPolicy {
    fn default() -> (r: ProxyPolicy)
        ensures
            r@.hosts == Set::<Seq<char>>::empty(),
            !r@.forbidden_targets,
    {
        ProxyPolicy::deny_all()
    }
}

impl Clone for ProxyPolicy {
    fn clone(&self) -> (r: ProxyPolicy)
        ensures
            r@ == self@,
    {
        ProxyPolicy {
            allowed_hosts: self.allowed_hosts.clone(),
            allow_forbidden_targets: self.allow_forbidden_targets,
        }
    }
}

/// The form in which hosts are compared: without space around them and in lower
/// case. What is no plain host has none.
pub open spec fn normalized(host: Seq<char>) -> Option<Seq<char>> {
    let n = lowered(trimmed(host));
    if n.len() == 0 || has_any(n, "/\\@*:"@) || has_white(n) {
        None
    } else {
        Some(n)
    }
}

/// Whether a policy lets a host through.
pub open spec fn lets_through(p: ProxyPolicyView, host: Seq<char>) -> bool {
    normalized(host) matches Some(n) && p.hosts.contains(n)
}

fn normalize_host(host: &str) -> (r: Result<String, &'static str>)
    ensures
        match r {
            Ok(n) => normalized(host@) == Some(n@),
            Err(e) => normalized(host@) is None && e@
                == "allowlist entry must be an exact host without scheme, port, or wildcard"@,
        },
{
    let n = to_lower(&trim(host));
    if n.as_str().is_empty() || contains_any(&n, "/\\@*:") || contains_white(&n) {
        return Err("allowlist entry must be an exact host without scheme, port, or wildcard");
    }
    Ok(n)
}

impl ProxyPolicy {
    /// A policy that lets nothing through.
    pub fn deny_all() -> (r: ProxyPolicy)
        ensures
            r@ == (ProxyPolicyView { hosts: Set::empty(), forbidden_targets: false }),
    {
        ProxyPolicy { allowed_hosts: NameSet::new(), allow_forbidden_targets: false }
    }

    /// A policy that lets one host through.
    pub fn for_provider(host: &str) -> (r: Result<ProxyPolicy, &'static str>)
        ensures
            match r {
                Ok(p) => normalized(host@) is Some && p@ == (ProxyPolicyView {
                    hosts: Set::empty().insert(normalized(host@)->0),
                    forbidden_targets: false,
                }),
                Err(e) => normalized(host@) is None && e@
                    == "allowlist entry must be an exact host without scheme, port, or wildcard"@,
            },
    {
        let mut policy = ProxyPolicy::deny_all();
        match policy.allow_host(host) {
            Ok(()) => Ok(policy),
            Err(e) => Err(e),
        }
    }

    /// Adds one exact host name or address; no URL, port or wildcard.
    pub fn allow_host(&mut self, host: &str) -> (r: Result<(), &'static str>)
        ensures
            match r {
                Ok(()) => normalized(host@) is Some && final(self)@ == (ProxyPolicyView {
                    hosts: old(self)@.hosts.insert(normalized(host@)->0),
                    forbidden_targets: old(self)@.forbidden_targets,
                }),
                Err(e) => normalized(host@) is None && final(self)@ == old(self)@ && e@
                    == "allowlist entry must be an exact host without scheme, port, or wildcard"@,
            },
    {
        match normalize_host(host) {
            Ok(n) => {
                self.allowed_hosts.insert(n);
                Ok(())
            },
            Err(e) => Err(e),
        }
    }

    pub fn allows(&self, host: &str) -> (r: bool)
        ensures
            r == lets_through(self@, host@),
    {
        match normalize_host(host) {
            Ok(n) => self.allowed_hosts.contains(&n),
            Err(_) => false,
        }
    }

    /// Lets targets through that are loopback or private addresses.
    pub fn allow_forbidden_targets(&mut self)
        ensures
            final(self)@ == (ProxyPolicyView { hosts: old(self)@.hosts, forbidden_targets: true }),
    {
        self.allow_forbidden_targets = true;
    }

    pub fn forbidden_targets_allowed(&self) -> (r: bool)
        ensures
            r == self@.forbidden_targets,
    {
        self.allow_forbidden_targets
    }
}

// ---------------------------------------------------------------------------
// The head of a request
// ---------------------------------------------------------------------------

pub const MAX_HEADER_BYTES: usize = 8192;

/// Whether bytes end with an empty line.
pub open spec fn head_ended(bytes: Seq<u8>) -> bool {
    let n = bytes.len() as int;
    n >= 4 && bytes[n - 4] == 13 && bytes[n - 3] == 10 && bytes[n - 2] == 13 && bytes[n - 1] == 10
}

/// The head of a request while it is being read, one byte at a time.
#[derive(Debug)]
pub struct RequestHead {
    bytes: Vec<u8>,
}

impl View for RequestHead {
    type V = Seq<u8>;

    closed spec fn view(&self) -> Seq<u8> {
        self.bytes@
    }
}

impl RequestHead {
    pub fn new() -> (r: RequestHead)
        ensures
            r@ == Seq::<u8>::empty(),
    {
        RequestHead { bytes: Vec::new() }
    }

    fn ended(&self) -> (r: bool)
        ensures
            r == head_ended(self@),
    {
        let n: usize = self.bytes.len();
        n >= 4 && self.bytes[n - 4] == 13 && self.bytes[n - 3] == 10 && self.bytes[n - 2] == 13
            && self.bytes[n - 1] == 10
    }

    /// Whether another byte belongs to the head.
    pub fn wants_more(&self) -> (r: bool)
        ensures
            r == (self@.len() < MAX_HEADER_BYTES && !head_ended(self@)),
    {
        self.bytes.len() < MAX_HEADER_BYTES && !self.ended()
    }

    pub fn push(&mut self, byte: u8)
        ensures
            final(self)@ == old(self)@.push(byte),
    {
        self.bytes.push(byte);
    }

    /// The head, once nothing more is to come.
    pub fn finish(self) -> (r: Result<Vec<u8>, String>)
        ensures
            match r {
                Ok(bytes) => head_ended(self@) && bytes@ == self@,
                Err(e) => !head_ended(self@) && e@
                    == "request head is incomplete or exceeds 8 KiB"@,
            },
    {
        if self.ended() {
            Ok(self.bytes)
        } else {
            Err("request head is incomplete or exceeds 8 KiB".to_string())
        }
    }
}

// ---------------------------------------------------------------------------
// Reading a request
// ---------------------------------------------------------------------------

#[derive(Debug, Clone, Copy, PartialEq, Eq, Structural)]
pub enum RequestKind {
    /// A tunnel: bytes pass both ways once the target is reached.
    Connect,
    /// A plain request with an absolute target, passed on as it is.
    PlainHttp,
}

/// Where a request goes.
#[derive(Debug, PartialEq, Eq)]
pub struct ConnectRequest {
    pub kind: RequestKind,
    pub host: String,
    pub port: u16,
}

pub struct TargetView {
    pub kind: RequestKind,
    pub host: Seq<char>,
    pub port: u16,
}

impl View for ConnectRequest {
    type V = TargetView;

    open spec fn view(&self) -> TargetView {
        TargetView { kind: self.kind, host: self.host@, port: self.port }
    }
}

/// The host and the port of an authority.
pub open spec fn authority_of(authority: Seq<char>, message: Seq<char>) -> Result<
    (Seq<char>, nat),
    Seq<char>,
> {
    match cut_last(authority, ':') {
        None => Err(message),
        Some((host, port)) => if host.len() == 0 || has_any(host, ":/\\@*"@) || has_white(host) {
            Err("target contains an invalid host"@)
        } else {
            match unsigned_value(port, u16::MAX as nat) {
                Some(n) => if n != 0 {
                    Ok((lowered(host), n))
                } else {
                    Err("invalid port"@)
                },
                None => Err("invalid port"@),
            }
        },
    }
}

/// The authority of a plain request: the host and port of its target, with port 80
/// where the target names none.
pub open spec fn plain_authority(target: Seq<char>) -> Result<Seq<char>, Seq<char>> {
    match cut_at(target, "://"@) {
        None => Err("target must be absolute-form"@),
        Some((_, rest)) => {
            let authority = before_any(rest, "/?#"@);
            match cut_last(authority, ':') {
                Some((host, port)) => match unsigned_value(port, u16::MAX as nat) {
                    None => Err("invalid target port"@),
                    Some(n) => if host.len() == 0 {
                        Err("target has no host"@)
                    } else {
                        Ok(host + ":"@ + decimal(n))
                    },
                },
                None => if authority.len() == 0 {
                    Err("target has no host"@)
                } else {
                    Ok(authority + ":"@ + decimal(80))
                },
            }
        },
    }
}

/// The request in the text of a head.
pub open spec fn request_in(text: Seq<char>) -> Result<TargetView, Seq<char>> {
    let ws = words(first_line_of(text));
    if ws.len() != 3 || !has_prefix(ws[2], "HTTP/1."@) {
        Err("only HTTP/1.x requests are supported"@)
    } else if ws[0] == "CONNECT"@ {
        match authority_of(ws[1], "CONNECT target requires host:port"@) {
            Ok((host, port)) => Ok(
                TargetView { kind: RequestKind::Connect, host, port: port as u16 },
            ),
            Err(e) => Err(e),
        }
    } else if ws[0] == "GET"@ || ws[0] == "HEAD"@ {
        match plain_authority(ws[1]) {
            Err(e) => Err(e),
            Ok(authority) => match authority_of(authority, "invalid target"@) {
                Ok((host, port)) => Ok(
                    TargetView { kind: RequestKind::PlainHttp, host, port: port as u16 },
                ),
                Err(e) => Err(e),
            },
        }
    } else {
        Err("only CONNECT and plain-form GET/HEAD requests are supported"@)
    }
}

/// The request in the bytes of a head.
pub open spec fn request_of(head: Seq<u8>) -> Result<TargetView, Seq<char>> {
    if valid_utf8(head) {
        request_in(decode_utf8(head))
    } else {
        Err("header is not UTF-8"@)
    }
}

fn parse_authority(authority: &str, message: &str) -> (r: Result<(String, u16), String>)
    ensures
        match r {
            Ok((host, port)) => authority_of(authority@, message@) == Ok::<
                (Seq<char>, nat),
                Seq<char>,
            >((host@, port as nat)),
            Err(e) => authority_of(authority@, message@) == Err::<(Seq<char>, nat), Seq<char>>(e@),
        },
{
    match rsplit_once(authority, ':') {
        None => Err(message.to_owned()),
        Some((host, port)) => {
            if host.as_str().is_empty() || contains_any(&host, ":/\\@*") || contains_white(&host) {
                return Err("target contains an invalid host".to_string());
            }
            match parse_unsigned(&port, u16::MAX as u64) {
                Some(n) => {
                    if n != 0 {
                        Ok((to_lower(&host), n as u16))
                    } else {
                        Err("invalid port".to_string())
                    }
                },
                None => Err("invalid port".to_string()),
            }
        },
    }
}

fn read_plain_authority(target: &str) -> (r: Result<String, String>)
    ensures
        match r {
            Ok(a) => plain_authority(target@) == Ok::<Seq<char>, Seq<char>>(a@),
            Err(e) => plain_authority(target@) == Err::<Seq<char>, Seq<char>>(e@),
        },
{
    match split_at_part(target, "://") {
        None => Err("target must be absolute-form".to_string()),
        Some((_, rest)) => {
            let authority = take_before_any(&rest, "/?#");
            match rsplit_once(&authority, ':') {
                Some((host, port)) => match parse_unsigned(&port, u16::MAX as u64) {
                    None => Err("invalid target port".to_string()),
                    Some(n) => {
                        if host.as_str().is_empty() {
                            Err("target has no host".to_string())
                        } else {
                            Ok(concat3(&host, ":", &decimal_of(n)))
                        }
                    },
                },
                None => {
                    if authority.as_str().is_empty() {
                        Err("target has no host".to_string())
                    } else {
                        Ok(concat3(&authority, ":", &decimal_of(80)))
                    }
                },
            }
        },
    }
}

/// Reads the request in the text of a head.
pub fn parse_request_text(text: &str) -> (r: Result<ConnectRequest, String>)
    ensures
        match r {
            Ok(request) => request_in(text@) == Ok::<TargetView, Seq<char>>(request@),
            Err(e) => request_in(text@) == Err::<TargetView, Seq<char>>(e@),
        },
{
    let line = first_line(text);
    let ws = split_words(&line);
    assert(views(ws@).len() == ws@.len());
    assert(forall|i: int| 0 <= i < ws@.len() ==> #[trigger] views(ws@)[i] == ws@[i]@);
    if ws.len() != 3 {
        return Err("only HTTP/1.x requests are supported".to_string());
    }
    assert(views(ws@)[0] == ws@[0]@ && views(ws@)[1] == ws@[1]@ && views(ws@)[2] == ws@[2]@);
    if !starts_with(&ws[2], "HTTP/1.") {
        return Err("only HTTP/1.x requests are supported".to_string());
    }
    if same_text(&ws[0], "CONNECT") {
        match parse_authority(&ws[1], "CONNECT target requires host:port") {
            Ok((host, port)) => Ok(ConnectRequest { kind: RequestKind::Connect, host, port }),
            Err(e) => Err(e),
        }
    } else if same_text(&ws[0], "GET") || same_text(&ws[0], "HEAD") {
        match read_plain_authority(&ws[1]) {
            Err(e) => Err(e),
            Ok(authority) => match parse_authority(&authority, "invalid target") {
                Ok((host, port)) => Ok(
                    ConnectRequest { kind: RequestKind::PlainHttp, host, port },
                ),
                Err(e) => Err(e),
            },
        }
    } else {
        Err("only CONNECT and plain-form GET/HEAD requests are supported".to_string())
    }
}

/// Reads the request in the bytes of a head.
pub fn parse_request_head(head: &Vec<u8>) -> (r: Result<ConnectRequest, String>)
    ensures
        match r {
            Ok(request) => request_of(head@) == Ok::<TargetView, Seq<char>>(request@),
            Err(e) => request_of(head@) == Err::<TargetView, Seq<char>>(e@),
        },
{
    match utf8_text(head) {
        Some(text) => parse_request_text(&text),
        None => Err("header is not UTF-8".to_string()),
    }
}

// ---------------------------------------------------------------------------
// Deciding on a request
// ---------------------------------------------------------------------------

pub const FORBIDDEN_RESPONSE: &'static str = "HTTP/1.1 403 Forbidden\r\nConnection: close\r\n\r\n";

pub const BAD_GATEWAY_RESPONSE: &'static str =
    "HTTP/1.1 502 Bad Gateway\r\nConnection: close\r\n\r\n";

pub const ESTABLISHED_RESPONSE: &'static str = "HTTP/1.1 200 Connection Established\r\n\r\n";

/// What becomes of a request.
#[derive(Debug)]
pub enum ProxyRoute {
    /// The client is told so, and the event is recorded.
    Denied { event: Event },
    /// The target may be reached.
    Open { request: ConnectRequest },
}

/// Decides on a request: a host that the policy does not name is denied, and the
/// denial is recorded.
pub fn route_request(policy: &ProxyPolicy, request: ConnectRequest) -> (r: ProxyRoute)
    ensures
        lets_through(policy@, request.host@) ==> r == (ProxyRoute::Open { request }),
        !lets_through(policy@, request.host@) ==> (r matches ProxyRoute::Denied { event } && (event
            matches Event::NetworkAccessDenied { host, port, reason } && host == request.host
            && port == request.port && reason@ == "host_not_allowlisted"@)),
{
    if policy.allows(&request.host) {
        ProxyRoute::Open { request }
    } else {
        ProxyRoute::Denied {
            event: Event::NetworkAccessDenied {
                host: request.host,
                port: request.port,
                reason: "host_not_allowlisted".to_string(),
            },
        }
    }
}

// ---------------------------------------------------------------------------
// Laws
// ---------------------------------------------------------------------------

/// Without an entry nothing is let through.
pub proof fn nothing_passes_by_default(host: Seq<char>)
    ensures
        !lets_through(ProxyPolicyView { hosts: Set::empty(), forbidden_targets: false }, host),
{
}

/// Adding a host lets exactly that host through, in whatever case it is written, and
/// changes nothing for any other.
pub proof fn an_entry_is_exact(p: ProxyPolicyView, entry: Seq<char>, host: Seq<char>)
    requires
        normalized(entry) is Some,
    ensures
        ({
            let q = ProxyPolicyView {
                hosts: p.hosts.insert(normalized(entry)->0),
                forbidden_targets: p.forbidden_targets,
            };
            lets_through(q, host) <==> lets_through(p, host) || normalized(host) == normalized(
                entry,
            )
        }),
{
}

/// What is asked for goes to a plain host with a port: nothing that a policy could
/// not name gets as far as being looked up.
pub proof fn targets_are_plain(head: Seq<u8>)
    ensures
        request_of(head) matches Ok(t) ==> t.host.len() > 0 && t.port > 0,
{
    if valid_utf8(head) {
        let ws = words(first_line_of(decode_utf8(head)));
        if ws.len() == 3 && ws[0] == "CONNECT"@ {
            lemma_authority(ws[1], "CONNECT target requires host:port"@);
        } else if ws.len() == 3 && plain_authority(ws[1]) is Ok {
            lemma_authority(plain_authority(ws[1])->Ok_0, "invalid target"@);
        }
    }
}

proof fn lemma_authority(authority: Seq<char>, message: Seq<char>)
    ensures
        authority_of(authority, message) matches Ok((host, port)) ==> host.len() > 0 && 0 < port
            <= u16::MAX,
{
}

/// A host is known by its small letters, without the white around it; one that is empty, or
/// holds white, a slash, an at sign, a star or a colon is none.
pub proof fn how_a_host_is_known(host: Seq<char>, i: int)
    ensures
        normalized(host) matches Some(n) ==> {
            &&& n == lowered(trimmed(host))
            &&& n.len() > 0
            &&& 0 <= i < n.len() ==> {
                &&& !is_white(n[i])
                &&& n[i] != '/' && n[i] != '\\' && n[i] != '@' && n[i] != '*' && n[i] != ':'
                &&& !('A' <= n[i] <= 'Z')
            }
        },
{
    reveal_strlit("/\\@*:");
    if let Some(n) = normalized(host) {
        if 0 <= i < n.len() {
            lower_case_changes_capitals_only(trimmed(host), i);
            let marks = "/\\@*:"@;
            assert(marks.len() == 5);
            assert(marks[0] == '/' && marks[1] == '\\' && marks[2] == '@' && marks[3] == '*'
                && marks[4] == ':');
            assert(marks.contains('/') && marks.contains('\\') && marks.contains('@')
                && marks.contains('*') && marks.contains(':'));
        }
    }
}

/// A host and a port, with a colon between them, are read back: the host in small letters.
pub proof fn an_authority_is_read_back(host: Seq<char>, port: nat, message: Seq<char>)
    requires
        0 < port <= u16::MAX,
        host.len() > 0,
        !has_any(host, ":/\\@*"@),
        !has_white(host),
    ensures
        authority_of(host + seq![':'] + decimal(port), message) == Ok::<(Seq<char>, nat), Seq<char>>(
            (lowered(host), port),
        ),
        authority_of(host + seq![':'] + decimal(0), message) is Err,
        !host.contains(':') ==> authority_of(host, message) == Err::<(Seq<char>, nat), Seq<char>>(
            message,
        ),
{
    lemma_authority_cut(host, port);
    lemma_authority_cut(host, 0);
    a_number_within_its_limit_is_read(port, u16::MAX as nat);
    a_number_within_its_limit_is_read(0, u16::MAX as nat);
    a_cut_is_at_the_last_place(host, ':');
    if let Some((a, b)) = cut_last(host, ':') {
        assert(host[a.len() as int] == ':');
    }
}

proof fn lemma_authority_cut(host: Seq<char>, port: nat)
    ensures
        cut_last(host + seq![':'] + decimal(port), ':') == Some((host, decimal(port))),
{
    let s = host + seq![':'] + decimal(port);
    lemma_decimal(port);
    a_cut_is_at_the_last_place(s, ':');
    assert(s[host.len() as int] == ':');
    assert forall|i: int| 0 <= i < decimal(port).len() implies decimal(port)[i] != ':' by {
        assert(is_digit(decimal(port)[i]));
    }
    match cut_last(s, ':') {
        Some((a, b)) => {
            let again = a + seq![':'] + b;
            assert(again[a.len() as int] == ':');
            if a.len() < host.len() {
                assert(again[host.len() as int] == b[host.len() - a.len() - 1]);
                assert(b.contains(':'));
            }
            if a.len() > host.len() {
                assert(s[a.len() as int] == decimal(port)[a.len() - host.len() - 1]);
            }
            assert(a.len() == host.len());
            assert(again.subrange(0, a.len() as int) =~= a);
            assert(s.subrange(0, a.len() as int) =~= host);
            assert(again.subrange(a.len() as int + 1, s.len() as int) =~= b);
            assert(s.subrange(a.len() as int + 1, s.len() as int) =~= decimal(port));
        },
        None => {},
    }
}

/// A request for a tunnel leads to the host and the port that it names; one for a plain page
/// to those of its target; anything else is refused.
pub proof fn where_a_request_leads(text: Seq<char>, t: TargetView)
    requires
        request_in(text) == Ok::<TargetView, Seq<char>>(t),
    ensures
        ({
            let ws = words(first_line_of(text));
            &&& ws.len() == 3
            &&& has_prefix(ws[2], "HTTP/1."@)
            &&& ws[0] == "CONNECT"@ || ws[0] == "GET"@ || ws[0] == "HEAD"@
            &&& t.kind == RequestKind::Connect <==> ws[0] == "CONNECT"@
            &&& ws[0] == "CONNECT"@ ==> {
                &&& cut_last(ws[1], ':') is Some
                &&& t.host == lowered((cut_last(ws[1], ':')->0).0)
                &&& unsigned_value((cut_last(ws[1], ':')->0).1, u16::MAX as nat) == Some(
                    t.port as nat,
                )
            }
        }),
{
    reveal_strlit("CONNECT");
    reveal_strlit("GET");
    reveal_strlit("HEAD");
    assert("CONNECT"@.len() == 7);
    assert("GET"@.len() == 3);
    assert("HEAD"@.len() == 4);
}

/// The target of a plain request: the host of its URL, and the port where one is named, or
/// eighty.
pub proof fn the_target_of_a_plain_request(scheme: Seq<char>, host: Seq<char>, port: nat)
    requires
        port <= u16::MAX,
        host.len() > 0,
        !host.contains(':') && !host.contains('/') && !host.contains('?') && !host.contains('#'),
        !scheme.contains(':'),
    ensures
        plain_authority(scheme + "://"@ + host) == Ok::<Seq<char>, Seq<char>>(
            host + ":"@ + decimal(80),
        ),
        plain_authority(scheme + "://"@ + host + ":"@ + decimal(port)) == Ok::<
            Seq<char>,
            Seq<char>,
        >(host + ":"@ + decimal(port)),
{
    reveal_strlit("://");
    reveal_strlit(":");
    reveal_strlit("/?#");
    assert(":"@ =~= seq![':']);
    let tail = host + seq![':'] + decimal(port);
    assert(scheme + "://"@ + host + ":"@ + decimal(port) =~= scheme + "://"@ + tail);
    lemma_scheme_cut(scheme, host);
    lemma_scheme_cut(scheme, tail);
    lemma_decimal(port);
    assert forall|i: int| 0 <= i < decimal(port).len() implies is_digit(
        #[trigger] decimal(port)[i],
    ) by {}
    assert forall|i: int| 0 <= i < tail.len() implies tail[i] != '/' && tail[i] != '?' && tail[i]
        != '#' by {
        if i < host.len() {
            assert(tail[i] == host[i]);
            assert(host.contains(tail[i]));
        } else if i > host.len() {
            assert(tail[i] == decimal(port)[i - host.len() - 1]);
        }
    }
    assert forall|i: int| 0 <= i < host.len() implies host[i] != '/' && host[i] != '?' && host[i]
        != '#' && host[i] != ':' by {
        assert(host.contains(host[i]));
    }
    lemma_none_before(host);
    lemma_none_before(tail);
    a_cut_is_at_the_last_place(host, ':');
    if let Some((a, b)) = cut_last(host, ':') {
        assert(host[a.len() as int] == ':');
    }
    lemma_authority_cut(host, port);
    a_number_within_its_limit_is_read(port, u16::MAX as nat);
}

proof fn lemma_scheme_cut(scheme: Seq<char>, rest: Seq<char>)
    requires
        !scheme.contains(':'),
    ensures
        cut_at(scheme + "://"@ + rest, "://"@) == Some((scheme, rest)),
{
    reveal_strlit("://");
    let part = "://"@;
    let s = scheme + part + rest;
    let n = scheme.len() as int;
    a_cut_is_at_the_first_part(s, part);
    assert(s.subrange(n, n + part.len()) =~= part);
    match cut_at(s, part) {
        Some((a, b)) => {
            let again = a + part + b;
            let k = a.len() as int;
            assert(again[k] == part[0]);
            if k < n {
                assert(s[k] == scheme[k]);
                assert(scheme.contains(':'));
            }
            if k > n {
                assert(s.subrange(n, n + part.len()) == part);
            }
            assert(k == n);
            assert(again.subrange(0, k) =~= a);
            assert(s.subrange(0, n) =~= scheme);
            assert(again.subrange(k + 3, s.len() as int) =~= b);
            assert(s.subrange(n + 3, s.len() as int) =~= rest);
        },
        None => {},
    }
}

proof fn lemma_none_before(s: Seq<char>)
    requires
        forall|i: int| 0 <= i < s.len() ==> s[i] != '/' && s[i] != '?' && s[i] != '#',
    ensures
        before_any(s, "/?#"@) == s,
{
    reveal_strlit("/?#");
    let stops = "/?#"@;
    assert(stops.len() == 3);
    a_stop_ends_what_is_before_it(s, stops);
    let k = before_any(s, stops).len() as int;
    if k < s.len() {
        let j = choose|j: int| 0 <= j < stops.len() && stops[j] == s[k];
        assert(stops[0] == '/' && stops[1] == '?' && stops[2] == '#');
        assert(j == 0 || j == 1 || j == 2);
    }
    assert(before_any(s, stops) =~= s);
}

/// The head of a request ends with a blank line.
pub proof fn a_head_ends_with_a_blank_line(bytes: Seq<u8>, before: Seq<u8>)
    ensures
        head_ended(before + seq![13u8, 10u8, 13u8, 10u8]),
        head_ended(bytes) ==> bytes.len() >= 4 && bytes.subrange(
            bytes.len() - 4,
            bytes.len() as int,
        ) == seq![13u8, 10u8, 13u8, 10u8],
{
    if head_ended(bytes) {
        assert(bytes.subrange(bytes.len() - 4, bytes.len() as int) =~= seq![
            13u8,
            10u8,
            13u8,
            10u8,
        ]);
    }
}

/// Which hosts are known at all.
pub proof fn which_hosts_are_known(host: Seq<char>)
    ensures
        normalized(host) is Some <==> {
            let n = lowered(trimmed(host));
            &&& n.len() > 0
            &&& forall|i: int|
                0 <= i < n.len() ==> !is_white(#[trigger] n[i]) && n[i] != '/' && n[i] != '\\' && n[i]
                    != '@' && n[i] != '*' && n[i] != ':'
        },
{
    reveal_strlit("/\\@*:");
    let marks = "/\\@*:"@;
    let n = lowered(trimmed(host));
    assert(marks.len() == 5);
    assert(marks[0] == '/' && marks[1] == '\\' && marks[2] == '@' && marks[3] == '*' && marks[4]
        == ':');
    assert(marks.contains('/') && marks.contains('\\') && marks.contains('@') && marks.contains('*')
        && marks.contains(':'));
    if has_any(n, marks) {
        let i = choose|i: int| 0 <= i < n.len() && marks.contains(#[trigger] n[i]);
        let k = choose|k: int| 0 <= k < marks.len() && marks[k] == n[i];
        assert(k == 0 || k == 1 || k == 2 || k == 3 || k == 4);
        assert(n[i] == marks[k]);
    }
    if has_white(n) {
        let i = choose|i: int| 0 <= i < n.len() && is_white(#[trigger] n[i]);
        assert(is_white(n[i]));
    }
}

/// Which requests are taken: for a tunnel with a target that is fit, and for a plain page whose
/// target leads to one.
pub proof fn which_requests_are_taken(text: Seq<char>)
    requires
        words(first_line_of(text)).len() == 3,
        has_prefix(words(first_line_of(text))[2], "HTTP/1."@),
    ensures
        ({
            let ws = words(first_line_of(text));
            let tunnel = authority_of(ws[1], "CONNECT target requires host:port"@);
            &&& ws[0] == "CONNECT"@ ==> (request_in(text) is Ok <==> tunnel is Ok)
            &&& ws[0] == "CONNECT"@ && tunnel is Ok ==> request_in(text)->Ok_0.host == (
            tunnel->Ok_0).0 && request_in(text)->Ok_0.kind == RequestKind::Connect
            &&& ws[0] == "GET"@ || ws[0] == "HEAD"@ ==> (request_in(text) is Ok <==> plain_authority(
                ws[1],
            ) is Ok && authority_of(plain_authority(ws[1])->Ok_0, "invalid target"@) is Ok)
            &&& (ws[0] == "GET"@ || ws[0] == "HEAD"@) && request_in(text) is Ok
                ==> request_in(text)->Ok_0.kind == RequestKind::PlainHttp
                && request_in(text)->Ok_0.host == (authority_of(
                plain_authority(ws[1])->Ok_0,
                "invalid target"@,
            )->Ok_0).0
            &&& ws[0] != "CONNECT"@ && ws[0] != "GET"@ && ws[0] != "HEAD"@ ==> request_in(
                text,
            ) is Err
        }),
{
    reveal_strlit("CONNECT");
    reveal_strlit("GET");
    reveal_strlit("HEAD");
    assert("CONNECT"@.len() == 7);
    assert("GET"@.len() == 3);
    assert("HEAD"@.len() == 4);
}

} // verus!

//! Requests and responses of the read-only session service.
use vstd::prelude::*;
use crate::json::{
    json_text, lemma_member_at, member_of, no_members, object, with_member, Json, JsonView,
};
use crate::protocol::{error, error_json, ErrorCode, ErrorEnvelope, ErrorView};
use crate::scan::{equal_but_case, same_but_case, split_words, words};
use crate::text::{
    a_cut_is_at_the_first_place, byte_len, bytes_in, concat4, cut_once, decimal, decimal_of,
    first_index, has_prefix, lemma_first_place, same_text, split_once, starts_with, trim, trimmed,
    views,
};

verus! {

broadcast use vstd::string::group_string_axioms;

/// The longest line of a request, in bytes.
pub const MAX_LINE_BYTES: usize = 8192;

pub open spec fn cursor_error(message: Seq<char>) -> ErrorView {
    error(ErrorCode::CursorInvalid, message)
}

pub fn invalid(message: &str) -> (r: ErrorEnvelope)
    ensures
        r@ == cursor_error(message@),
{
    ErrorEnvelope::of(ErrorCode::CursorInvalid, message)
}

// ---------------------------------------------------------------------------
// Requests
// ---------------------------------------------------------------------------

#[derive(Debug, PartialEq, Eq)]
pub struct HttpRequest {
    pub method: String,
    pub target: String,
    pub last_event_id: Option<String>,
}

pub struct RequestView {
    pub method: Seq<char>,
    pub target: Seq<char>,
    pub last_event_id: Option<Seq<char>>,
}

impl View for HttpRequest {
    type V = RequestView;

    open spec fn view(&self) -> RequestView {
        RequestView {
            method: self.method@,
            target: self.target@,
            last_event_id: match self.last_event_id {
                Some(id) => Some(id@),
                None => None,
            },
        }
    }
}

/// The request of a first line.
pub open spec fn first_of(line: Seq<char>) -> Result<RequestView, ErrorView> {
    let ws = words(line);
    if byte_len(line) > MAX_LINE_BYTES {
        Err(cursor_error("HTTP request line is too large"@))
    } else if ws.len() == 3 && has_prefix(ws[2], "HTTP/1."@) {
        Ok(RequestView { method: ws[0], target: ws[1], last_event_id: None })
    } else {
        Err(cursor_error("malformed HTTP request line"@))
    }
}

/// A request with one more header line.
pub open spec fn with_header(request: RequestView, line: Seq<char>) -> Result<
    RequestView,
    ErrorView,
> {
    if byte_len(line) > MAX_LINE_BYTES {
        Err(cursor_error("HTTP header line is too large"@))
    } else {
        match cut_once(line, ':') {
            None => Ok(request),
            Some((name, value)) => if !same_but_case(name, "last-event-id"@) {
                Ok(request)
            } else if trimmed(value).len() == 0 || request.last_event_id is Some {
                Err(cursor_error("Last-Event-ID must be non-empty and unique"@))
            } else {
                Ok(RequestView { last_event_id: Some(trimmed(value)), ..request })
            },
        }
    }
}

/// Whether a line ends the headers: an empty line, or the end of the input.
pub open spec fn is_last_header(line: Seq<char>) -> bool {
    line.len() == 0 || line == "\r\n"@ || line == "\n"@
}

/// The request of a first line and the header lines that follow, up to the first
/// that ends the headers.
pub open spec fn request_of(first: Seq<char>, headers: Seq<Seq<char>>) -> Result<
    RequestView,
    ErrorView,
>
    decreases headers.len(),
{
    if headers.len() == 0 {
        first_of(first)
    } else {
        match request_of(first, headers.drop_last()) {
            Err(e) => Err(e),
            Ok(request) => if exists|i: int|
                0 <= i < headers.len() && is_last_header(#[trigger] headers[i]) {
                Ok(request)
            } else {
                with_header(request, headers.last())
            },
        }
    }
}

/// Reads the first line of a request.
pub fn request_line(line: &str) -> (r: Result<HttpRequest, ErrorEnvelope>)
    ensures
        match r {
            Ok(request) => first_of(line@) == Ok::<RequestView, ErrorView>(request@),
            Err(e) => first_of(line@) == Err::<RequestView, ErrorView>(e@),
        },
{
    if bytes_in(line) > MAX_LINE_BYTES {
        return Err(invalid("HTTP request line is too large"));
    }
    let ws = split_words(line);
    assert(views(ws@).len() == ws@.len());
    if ws.len() == 3 {
        assert(views(ws@)[0] == ws@[0]@ && views(ws@)[1] == ws@[1]@ && views(ws@)[2] == ws@[2]@);
        if starts_with(&ws[2], "HTTP/1.") {
            return Ok(
                HttpRequest {
                    method: ws[0].clone(),
                    target: ws[1].clone(),
                    last_event_id: None,
                },
            );
        }
    }
    Err(invalid("malformed HTTP request line"))
}

/// Whether the headers end with this line.
pub fn ends_headers(line: &str) -> (r: bool)
    ensures
        r == is_last_header(line@),
{
    line.is_empty() || same_text(line, "\r\n") || same_text(line, "\n")
}

/// Takes one header line into a request.
pub fn header_line(request: HttpRequest, line: &str) -> (r: Result<HttpRequest, ErrorEnvelope>)
    ensures
        match r {
            Ok(next) => with_header(request@, line@) == Ok::<RequestView, ErrorView>(next@),
            Err(e) => with_header(request@, line@) == Err::<RequestView, ErrorView>(e@),
        },
{
    if bytes_in(line) > MAX_LINE_BYTES {
        return Err(invalid("HTTP header line is too large"));
    }
    match split_once(line, ':') {
        None => Ok(request),
        Some((name, value)) => {
            if !equal_but_case(&name, "last-event-id") {
                return Ok(request);
            }
            let id = trim(&value);
            if id.as_str().is_empty() || request.last_event_id.is_some() {
                return Err(invalid("Last-Event-ID must be non-empty and unique"));
            }
            Ok(
                HttpRequest {
                    method: request.method,
                    target: request.target,
                    last_event_id: Some(id),
                },
            )
        },
    }
}

proof fn lemma_headers_end(first: Seq<char>, headers: Seq<Seq<char>>, k: int)
    requires
        0 <= k < headers.len(),
        is_last_header(headers[k]),
        request_of(first, headers.take(k)) is Ok,
    ensures
        request_of(first, headers) == request_of(first, headers.take(k)),
    decreases headers.len(),
{
    let head = headers.drop_last();
    if k < head.len() {
        assert(head[k] == headers[k]);
        assert(head.take(k) =~= headers.take(k));
        lemma_headers_end(first, head, k);
    } else {
        assert(head =~= headers.take(k));
    }
}

proof fn lemma_header_error(first: Seq<char>, headers: Seq<Seq<char>>, k: int)
    requires
        0 <= k <= headers.len(),
        request_of(first, headers.take(k)) is Err,
    ensures
        request_of(first, headers) == request_of(first, headers.take(k)),
    decreases headers.len(),
{
    if k < headers.len() {
        let head = headers.drop_last();
        assert(head.take(k) =~= headers.take(k));
        lemma_header_error(first, head, k);
    } else {
        assert(headers.take(k) =~= headers);
    }
}

/// Reads a request from its lines.
pub fn read_request(first: &str, headers: &Vec<String>) -> (r: Result<HttpRequest, ErrorEnvelope>)
    ensures
        match r {
            Ok(request) => request_of(first@, views(headers@)) == Ok::<RequestView, ErrorView>(
                request@,
            ),
            Err(e) => request_of(first@, views(headers@)) == Err::<RequestView, ErrorView>(e@),
        },
{
    let ghost all = views(headers@);
    let mut request = match request_line(first) {
        Ok(request) => request,
        Err(e) => {
            proof {
                assert(all.take(0) =~= Seq::empty());
                lemma_header_error(first@, all, 0);
            }
            return Err(e);
        },
    };
    assert(all.take(0) =~= Seq::empty());
    let mut i: usize = 0;
    while i < headers.len()
        invariant
            i <= headers@.len(),
            all == views(headers@),
            request_of(first@, all.take(i as int)) == Ok::<RequestView, ErrorView>(request@),
            forall|j: int| 0 <= j < i ==> !is_last_header(#[trigger] all[j]),
        decreases headers@.len() - i,
    {
        let ghost next = all.take(i + 1);
        assert(all[i as int] == headers@[i as int]@);
        assert(next.drop_last() =~= all.take(i as int));
        if ends_headers(&headers[i]) {
            proof {
                lemma_headers_end(first@, all, i as int);
            }
            return Ok(request);
        }
        assert forall|j: int| 0 <= j < next.len() implies !is_last_header(#[trigger] next[j]) by {
            assert(next[j] == all[j]);
        }
        match header_line(request, &headers[i]) {
            Ok(changed) => {
                request = changed;
            },
            Err(e) => {
                proof {
                    lemma_header_error(first@, all, i + 1);
                }
                return Err(e);
            },
        }
        i = i + 1;
    }
    assert(all.take(all.len() as int) =~= all);
    Ok(request)
}

// ---------------------------------------------------------------------------
// Responses
// ---------------------------------------------------------------------------

#[derive(Debug, PartialEq, Eq)]
pub struct HttpResponse {
    pub status: u16,
    pub content_type: String,
    pub body: String,
}

pub struct ResponseView {
    pub status: u16,
    pub content_type: Seq<char>,
    pub body: Seq<char>,
}

impl View for HttpResponse {
    type V = ResponseView;

    open spec fn view(&self) -> ResponseView {
        ResponseView {
            status: self.status,
            content_type: self.content_type@,
            body: self.body@,
        }
    }
}

pub open spec fn reason_of(status: u16) -> Seq<char> {
    if status == 200 {
        "OK"@
    } else if status == 400 {
        "Bad Request"@
    } else if status == 403 {
        "Forbidden"@
    } else if status == 404 {
        "Not Found"@
    } else if status == 405 {
        "Method Not Allowed"@
    } else {
        "Internal Server Error"@
    }
}

fn reason(status: u16) -> (r: &'static str)
    ensures
        r@ == reason_of(status),
{
    if status == 200 {
        "OK"
    } else if status == 400 {
        "Bad Request"
    } else if status == 403 {
        "Forbidden"
    } else if status == 404 {
        "Not Found"
    } else if status == 405 {
        "Method Not Allowed"
    } else {
        "Internal Server Error"
    }
}

/// A response as it goes over the wire. The length that it names is the number of
/// bytes of the body.
pub open spec fn wire_of(response: ResponseView) -> Seq<char> {
    "HTTP/1.1 "@ + decimal(response.status as nat) + " "@ + reason_of(response.status)
        + "\r\nContent-Type: "@ + response.content_type
        + "\r\nCache-Control: no-store\r\nConnection: close\r\nContent-Length: "@ + decimal(
        byte_len(response.body),
    ) + "\r\n\r\n"@ + response.body
}

pub fn render_response(response: &HttpResponse) -> (r: String)
    ensures
        r@ == wire_of(response@),
{
    let line = concat4(
        "HTTP/1.1 ",
        &decimal_of(response.status as u64),
        " ",
        reason(response.status),
    );
    let head = concat4(
        &line,
        "\r\nContent-Type: ",
        &response.content_type,
        "\r\nCache-Control: no-store\r\nConnection: close\r\nContent-Length: ",
    );
    let length: usize = bytes_in(&response.body);
    let r = concat4(&head, &decimal_of(length as u64), "\r\n\r\n", &response.body);
    assert(r@ =~= wire_of(response@));
    r
}

/// The body of every failed request. An error is never to be retried as it is.
pub open spec fn error_body(e: ErrorView) -> JsonView {
    JsonView::Object(seq![("error"@, error_json(e)), ("retryable"@, JsonView::Bool(false))])
}

pub open spec fn error_response_of(status: u16, e: ErrorView) -> ResponseView {
    ResponseView {
        status,
        content_type: "application/json"@,
        body: json_text(error_body(e)),
    }
}

pub fn error_response(status: u16, error: &ErrorEnvelope) -> (r: HttpResponse)
    ensures
        r@ == error_response_of(status, error@),
{
    let m = with_member(no_members(), "error", error.to_json());
    let body = object(with_member(m, "retryable", Json::Bool(false)));
    assert(body@->Object_0 =~= error_body(error@)->Object_0);
    HttpResponse {
        status,
        content_type: "application/json".to_string(),
        body: body.render(),
    }
}

/// The response to a request that cannot be read.
pub fn bad_request(error: &ErrorEnvelope) -> (r: HttpResponse)
    ensures
        r@ == error_response_of(400, error@),
{
    error_response(400, error)
}

/// The response with a JSON value.
pub fn json_response(value: &Json) -> (r: HttpResponse)
    ensures
        r@ == (ResponseView {
            status: 200,
            content_type: "application/json"@,
            body: json_text(value@),
        }),
{
    HttpResponse {
        status: 200,
        content_type: "application/json".to_string(),
        body: value.render(),
    }
}

// ---------------------------------------------------------------------------
// Laws
// ---------------------------------------------------------------------------

/// The first line of a request names the method and the target, with a version behind them.
pub proof fn a_request_names_its_target(line: Seq<char>, r: RequestView)
    ensures
        first_of(line) == Ok::<RequestView, ErrorView>(r) <==> {
            &&& byte_len(line) <= 8192
            &&& words(line).len() == 3
            &&& has_prefix(words(line)[2], "HTTP/1."@)
            &&& r.method == words(line)[0]
            &&& r.target == words(line)[1]
            &&& r.last_event_id is None
        },
        first_of(line) is Err ==> first_of(line)->Err_0.code == ErrorCode::CursorInvalid,
{
}

/// A header other than that of the last event changes nothing; that header, in whatever case,
/// gives its value without the white around it, and may come once.
pub proof fn one_header_counts(r: RequestView, name: Seq<char>, value: Seq<char>)
    requires
        !name.contains(':'),
        byte_len(name + seq![':'] + value) <= 8192,
    ensures
        !same_but_case(name, "last-event-id"@) ==> with_header(r, name + seq![':'] + value) == Ok::<
            RequestView,
            ErrorView,
        >(r),
        same_but_case(name, "last-event-id"@) && r.last_event_id is None && trimmed(value).len() > 0
            ==> (with_header(r, name + seq![':'] + value) matches Ok(new) && new.last_event_id
            == Some(trimmed(value)) && new.method == r.method && new.target == r.target),
        same_but_case(name, "last-event-id"@) && (r.last_event_id is Some || trimmed(value).len()
            == 0) ==> with_header(r, name + seq![':'] + value) is Err,
{
    let line = name + seq![':'] + value;
    let n = name.len() as int;
    assert(line[n] == ':');
    lemma_first_place(line, ':');
    let k = first_index(line, ':');
    if k < n {
        assert(line[k] == name[k]);
        assert(name.contains(':'));
    }
    assert(k == n);
    assert(line.subrange(0, n) =~= name);
    assert(line.subrange(n + 1, line.len() as int) =~= value);
}

/// A line without a colon is no header and changes nothing; one that is too long is refused.
pub proof fn other_lines_change_nothing(r: RequestView, line: Seq<char>)
    ensures
        byte_len(line) > 8192 ==> with_header(r, line) is Err,
        byte_len(line) <= 8192 && !line.contains(':') ==> with_header(r, line) == Ok::<
            RequestView,
            ErrorView,
        >(r),
{
    a_cut_is_at_the_first_place(line, ':');
    if let Some((a, b)) = cut_once(line, ':') {
        assert(line[a.len() as int] == ':');
    }
}

/// The headers are read in their order, up to the first blank line.
pub proof fn headers_end_at_a_blank_line(
    first: Seq<char>,
    headers: Seq<Seq<char>>,
    line: Seq<char>,
)
    requires
        request_of(first, headers) is Ok,
    ensures
        request_of(first, Seq::empty()) == first_of(first),
        (exists|i: int| 0 <= i < headers.len() && is_last_header(#[trigger] headers[i]))
            ==> request_of(first, headers.push(line)) == request_of(first, headers),
        is_last_header(line) ==> request_of(first, headers.push(line)) == request_of(first, headers),
        !is_last_header(line) && (forall|i: int|
            0 <= i < headers.len() ==> !is_last_header(#[trigger] headers[i])) ==> request_of(
            first,
            headers.push(line),
        ) == with_header(request_of(first, headers)->Ok_0, line),
        is_last_header(line) <==> line.len() == 0 || line == seq!['\n'] || line == seq!['\r', '\n'],
{
    let all = headers.push(line);
    assert(all.drop_last() =~= headers);
    assert(all[headers.len() as int] == line);
    if exists|i: int| 0 <= i < headers.len() && is_last_header(#[trigger] headers[i]) {
        let i = choose|i: int| 0 <= i < headers.len() && is_last_header(#[trigger] headers[i]);
        assert(is_last_header(all[i]));
    }
    if is_last_header(line) {
        assert(is_last_header(all[headers.len() as int]));
    }
    if exists|i: int| 0 <= i < all.len() && is_last_header(#[trigger] all[i]) {
        let i = choose|i: int| 0 <= i < all.len() && is_last_header(#[trigger] all[i]);
        if i < headers.len() {
            assert(is_last_header(headers[i]));
        }
    }
    reveal_strlit("\r\n");
    reveal_strlit("\n");
    assert("\r\n"@ =~= seq!['\r', '\n']);
    assert("\n"@ =~= seq!['\n']);
}

/// The words that stand for a status.
pub proof fn the_words_for_a_status(status: u16)
    ensures
        reason_of(200) == "OK"@,
        reason_of(400) == "Bad Request"@,
        reason_of(403) == "Forbidden"@,
        reason_of(404) == "Not Found"@,
        reason_of(405) == "Method Not Allowed"@,
        status != 200 && status != 400 && status != 403 && status != 404 && status != 405
            ==> reason_of(status) == "Internal Server Error"@,
{
}

/// A response is sent as its status line, its type, the length of its body in bytes, a blank
/// line and the whole body.
pub proof fn a_response_is_sent_in_full(r: ResponseView)
    ensures
        ({
            let sent = wire_of(r);
            let head = "HTTP/1.1 "@ + decimal(r.status as nat) + " "@ + reason_of(r.status);
            let n = r.body.len() as int;
            &&& sent.len() >= n
            &&& sent.subrange(sent.len() - n, sent.len() as int) == r.body
            &&& sent.subrange(0, head.len() as int) == head
            &&& exists|rest: Seq<char>|
                sent == #[trigger] (head + "\r\nContent-Type: "@ + r.content_type
                    + "\r\nCache-Control: no-store\r\nConnection: close\r\nContent-Length: "@
                    + decimal(byte_len(r.body)) + "\r\n\r\n"@ + rest)
        }),
{
    let sent = wire_of(r);
    let head = "HTTP/1.1 "@ + decimal(r.status as nat) + " "@ + reason_of(r.status);
    let n = r.body.len() as int;
    assert(sent.subrange(sent.len() - n, sent.len() as int) =~= r.body);
    assert(sent.subrange(0, head.len() as int) =~= head);
    assert(sent =~= head + "\r\nContent-Type: "@ + r.content_type
        + "\r\nCache-Control: no-store\r\nConnection: close\r\nContent-Length: "@ + decimal(
        byte_len(r.body),
    ) + "\r\n\r\n"@ + r.body);
}

/// A refusal is sent as JSON with its status, its error in full, and that trying again does
/// not help.
pub proof fn a_refusal_is_sent_in_full(status: u16, e: ErrorView)
    ensures
        error_response_of(status, e).status == status,
        error_response_of(status, e).content_type == "application/json"@,
        error_response_of(status, e).body == json_text(error_body(e)),
        member_of(error_body(e), "error"@) == Some(error_json(e)),
        member_of(error_body(e), "retryable"@) == Some(JsonView::Bool(false)),
{
    reveal_strlit("error");
    reveal_strlit("retryable");
    assert("error"@.len() == 5);
    assert("retryable"@.len() == 9);
    lemma_member_at(error_body(e)->Object_0, 0);
    lemma_member_at(error_body(e)->Object_0, 1);
}

} // verus!

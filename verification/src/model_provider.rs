//! Chat models: messages, replies, and reading a streamed reply.
use vstd::prelude::*;
use crate::json::{
    a_member_is_the_first_of_its_name, a_written_number_is_read_back, items_view, json_document,
    lemma_array_view, lemma_member_at, member_of, no_members, object, text_value, uint_of,
    with_member, Json, JsonView,
};
use crate::protocol::{
    error, ErrorCode, ErrorEnvelope, ErrorView, ModelCallSpec, ModelTokenUsage,
};
use crate::text::{
    blank, concat2, concat4, decimal, decimal_of, first_chars, has_prefix, is_blank, is_white,
    same_text, strip_prefix, take_chars, trim_start, trim_trailing, trimmed_start,
    without_trailing,
};

verus! {

broadcast use vstd::string::group_string_axioms;

/// The environment variable that holds the API key.
pub const API_KEY_ENV: &'static str = "IDEAL_HARNESS_API_KEY";

// ---------------------------------------------------------------------------
// Messages
// ---------------------------------------------------------------------------

/// A tool call that a model asked for.
#[derive(Debug, PartialEq, Eq)]
pub struct ToolCallRequest {
    /// The id that the provider gave; the result carries it back.
    pub id: String,
    pub name: String,
    /// The arguments as JSON text.
    pub arguments: String,
}

pub struct CallView {
    pub id: Seq<char>,
    pub name: Seq<char>,
    pub arguments: Seq<char>,
}

impl View for ToolCallRequest {
    type V = CallView;

    open spec fn view(&self) -> CallView {
        CallView { id: self.id@, name: self.name@, arguments: self.arguments@ }
    }
}

impl Clone for ToolCallRequest {
    fn clone(&self) -> (r: ToolCallRequest)
        ensures
            r == *self,
    {
        ToolCallRequest {
            id: self.id.clone(),
            name: self.name.clone(),
            arguments: self.arguments.clone(),
        }
    }
}

pub open spec fn calls_view(calls: Seq<ToolCallRequest>) -> Seq<CallView> {
    calls.map_values(|c: ToolCallRequest| c@)
}

pub fn copy_calls(calls: &Vec<ToolCallRequest>) -> (r: Vec<ToolCallRequest>)
    ensures
        r@ == calls@,
{
    let mut r: Vec<ToolCallRequest> = Vec::new();
    let mut i: usize = 0;
    while i < calls.len()
        invariant
            i <= calls@.len(),
            r@ == calls@.take(i as int),
        decreases calls@.len() - i,
    {
        r.push(calls[i].clone());
        i = i + 1;
        assert(r@ =~= calls@.take(i as int));
    }
    assert(r@ =~= calls@);
    r
}

/// One message of a conversation.
#[derive(Debug, PartialEq, Eq)]
pub struct ChatMessage {
    pub role: String,
    pub content: String,
    /// The calls of an assistant's message that asks for tools.
    pub tool_calls: Option<Vec<ToolCallRequest>>,
    /// The call that a tool's message answers.
    pub tool_call_id: Option<String>,
}

#[verifier::ext_equal]
pub struct MessageView {
    pub role: Seq<char>,
    pub content: Seq<char>,
    pub tool_calls: Option<Seq<CallView>>,
    pub tool_call_id: Option<Seq<char>>,
}

impl View for ChatMessage {
    type V = MessageView;

    open spec fn view(&self) -> MessageView {
        MessageView {
            role: self.role@,
            content: self.content@,
            tool_calls: match self.tool_calls {
                Some(calls) => Some(calls_view(calls@)),
                None => None,
            },
            tool_call_id: match self.tool_call_id {
                Some(id) => Some(id@),
                None => None,
            },
        }
    }
}

impl Clone for ChatMessage {
    fn clone(&self) -> (r: ChatMessage)
        ensures
            r@ == self@,
    {
        ChatMessage {
            role: self.role.clone(),
            content: self.content.clone(),
            tool_calls: match &self.tool_calls {
                Some(calls) => Some(copy_calls(calls)),
                None => None,
            },
            tool_call_id: match &self.tool_call_id {
                Some(id) => Some(id.clone()),
                None => None,
            },
        }
    }
}

pub open spec fn messages_view(messages: Seq<ChatMessage>) -> Seq<MessageView> {
    messages.map_values(|m: ChatMessage| m@)
}

pub open spec fn plain_message(role: Seq<char>, content: Seq<char>) -> MessageView {
    MessageView { role, content, tool_calls: None, tool_call_id: None }
}

pub open spec fn calls_message(calls: Seq<CallView>) -> MessageView {
    MessageView {
        role: "assistant"@,
        content: Seq::empty(),
        tool_calls: Some(calls),
        tool_call_id: None,
    }
}

pub open spec fn result_message(call_id: Seq<char>, content: Seq<char>) -> MessageView {
    MessageView { role: "tool"@, content, tool_calls: None, tool_call_id: Some(call_id) }
}

impl ChatMessage {
    pub fn system(content: String) -> (r: ChatMessage)
        ensures
            r@ == plain_message("system"@, content@),
    {
        ChatMessage { role: "system".to_string(), content, tool_calls: None, tool_call_id: None }
    }

    pub fn user(content: String) -> (r: ChatMessage)
        ensures
            r@ == plain_message("user"@, content@),
    {
        ChatMessage { role: "user".to_string(), content, tool_calls: None, tool_call_id: None }
    }

    pub fn assistant(content: String) -> (r: ChatMessage)
        ensures
            r@ == plain_message("assistant"@, content@),
    {
        ChatMessage { role: "assistant".to_string(), content, tool_calls: None, tool_call_id: None }
    }

    /// The message of an assistant that asks for tools.
    pub fn assistant_with_tool_calls(tool_calls: Vec<ToolCallRequest>) -> (r: ChatMessage)
        ensures
            r@ == calls_message(calls_view(tool_calls@)),
    {
        ChatMessage {
            role: "assistant".to_string(),
            content: String::new(),
            tool_calls: Some(tool_calls),
            tool_call_id: None,
        }
    }

    /// The message with the result of a tool.
    pub fn tool_result(call_id: String, content: String) -> (r: ChatMessage)
        ensures
            r@ == result_message(call_id@, content@),
    {
        ChatMessage {
            role: "tool".to_string(),
            content,
            tool_calls: None,
            tool_call_id: Some(call_id),
        }
    }
}

/// What one sample of a model came to.
#[derive(Debug, PartialEq, Eq, Clone)]
pub struct ChatReply {
    /// All text, in the order in which it came.
    pub text: String,
    /// The last finish reason that was not empty.
    pub finish_reason: Option<String>,
    /// The tool calls, in the order of their indices in the stream.
    pub tool_calls: Vec<ToolCallRequest>,
    /// The provider's token count.
    pub usage: Option<ModelTokenUsage>,
}

impl Default for ChatReply {
    fn default() -> (r: ChatReply)
        ensures
            r.text@.len() == 0,
            r.finish_reason is None,
            r.tool_calls@.len() == 0,
            r.usage is None,
    {
        ChatReply {
            text: String::new(),
            finish_reason: None,
            tool_calls: Vec::new(),
            usage: None,
        }
    }
}

/// A chat model. `tools` is the list of tools that it is offered.
pub trait ChatModel {
    fn stream_chat(
        &self,
        spec: &ModelCallSpec,
        messages: &Vec<ChatMessage>,
        tools: Option<&Json>,
    ) -> Result<ChatReply, ErrorEnvelope>;
}

// ---------------------------------------------------------------------------
// Lines of a stream
// ---------------------------------------------------------------------------

/// What a line of a server-sent event stream is.
#[derive(Debug, PartialEq, Eq, Clone)]
pub enum SseLine {
    /// A comment, an empty line or a field that carries no data.
    Ignore,
    /// The mark at the end of a reply.
    Done,
    /// A payload.
    Data(String),
}

pub enum SseView {
    Ignore,
    Done,
    Data(Seq<char>),
}

impl View for SseLine {
    type V = SseView;

    open spec fn view(&self) -> SseView {
        match self {
            SseLine::Ignore => SseView::Ignore,
            SseLine::Done => SseView::Done,
            SseLine::Data(payload) => SseView::Data(payload@),
        }
    }
}

pub open spec fn sse_line(line: Seq<char>) -> SseView {
    if has_prefix(line, "data:"@) {
        let payload = trimmed_start(line.subrange("data:"@.len() as int, line.len() as int));
        if payload == "[DONE]"@ {
            SseView::Done
        } else {
            SseView::Data(payload)
        }
    } else {
        SseView::Ignore
    }
}

/// Reads one line: the payload of a `data:` field, the end mark `[DONE]`, or
/// nothing.
pub fn parse_sse_line(line: &str) -> (r: SseLine)
    ensures
        r@ == sse_line(line@),
{
    match strip_prefix(line, "data:") {
        None => SseLine::Ignore,
        Some(rest) => {
            let payload = trim_start(&rest);
            if same_text(&payload, "[DONE]") {
                SseLine::Done
            } else {
                SseLine::Data(payload)
            }
        },
    }
}

// ---------------------------------------------------------------------------
// Chunks of a reply
// ---------------------------------------------------------------------------

/// The function part of a piece of a tool call.
#[derive(Debug, PartialEq, Eq, Clone)]
pub struct FunctionFragment {
    pub name: Option<String>,
    pub arguments: Option<String>,
}

/// A piece of a tool call; pieces with one index belong to one call.
#[derive(Debug, PartialEq, Eq, Clone)]
pub struct ToolCallFragment {
    pub index: u64,
    pub id: Option<String>,
    pub function: Option<FunctionFragment>,
}

/// What one chunk adds to a reply.
#[derive(Debug, PartialEq, Eq, Clone)]
pub struct StreamDelta {
    pub content: Option<String>,
    pub finish_reason: Option<String>,
    pub tool_calls: Vec<ToolCallFragment>,
    pub usage: Option<ModelTokenUsage>,
}

impl Default for FunctionFragment {
    fn default() -> (r: FunctionFragment)
        ensures
            r.name is None,
            r.arguments is None,
    {
        FunctionFragment { name: None, arguments: None }
    }
}

impl Default for ToolCallFragment {
    fn default() -> (r: ToolCallFragment)
        ensures
            r.index == 0,
            r.id is None,
            r.function is None,
    {
        ToolCallFragment { index: 0, id: None, function: None }
    }
}

impl Default for StreamDelta {
    fn default() -> (r: StreamDelta)
        ensures
            r.content is None,
            r.finish_reason is None,
            r.tool_calls@.len() == 0,
            r.usage is None,
    {
        StreamDelta { content: None, finish_reason: None, tool_calls: Vec::new(), usage: None }
    }
}

pub struct FragmentView {
    pub index: nat,
    pub id: Option<Seq<char>>,
    /// Whether the piece holds anything of a function.
    pub has_function: bool,
    pub name: Option<Seq<char>>,
    pub arguments: Option<Seq<char>>,
}

#[verifier::ext_equal]
pub struct DeltaView {
    pub content: Option<Seq<char>>,
    pub finish_reason: Option<Seq<char>>,
    pub tool_calls: Seq<FragmentView>,
    pub usage: Option<nat>,
}

pub open spec fn text_of(t: Option<String>) -> Option<Seq<char>> {
    match t {
        Some(s) => Some(s@),
        None => None,
    }
}

impl View for ToolCallFragment {
    type V = FragmentView;

    open spec fn view(&self) -> FragmentView {
        FragmentView {
            index: self.index as nat,
            id: text_of(self.id),
            has_function: self.function is Some,
            name: match self.function {
                Some(f) => text_of(f.name),
                None => None,
            },
            arguments: match self.function {
                Some(f) => text_of(f.arguments),
                None => None,
            },
        }
    }
}

pub open spec fn fragments_view(s: Seq<ToolCallFragment>) -> Seq<FragmentView> {
    s.map_values(|f: ToolCallFragment| f@)
}

impl View for StreamDelta {
    type V = DeltaView;

    open spec fn view(&self) -> DeltaView {
        DeltaView {
            content: text_of(self.content),
            finish_reason: text_of(self.finish_reason),
            tool_calls: fragments_view(self.tool_calls@),
            usage: match self.usage {
                Some(u) => Some(u.total_tokens as nat),
                None => None,
            },
        }
    }
}

/// A chunk does not have the shape of a chat completion chunk.
pub open spec fn shape_error(detail: Seq<char>) -> ErrorView {
    error(
        ErrorCode::ModelStreamBroken,
        "SSE data 行不符合 chat.completion.chunk 结构: "@ + detail,
    )
}

fn bad_shape(detail: &str) -> (r: ErrorEnvelope)
    ensures
        r@ == shape_error(detail@),
{
    ErrorEnvelope::new(
        ErrorCode::ModelStreamBroken,
        concat2("SSE data 行不符合 chat.completion.chunk 结构: ", detail),
    )
}

/// Whether a value can be read as a record: an object, or an array that gives the parts in
/// their order, at least the first `least` of them and at most `most`.
pub open spec fn is_record(j: JsonView, least: int, most: int) -> bool {
    match j {
        JsonView::Object(_) => true,
        JsonView::Array(items) => least <= items.len() <= most,
        _ => false,
    }
}

/// A part of a record: a member of an object by its name, or an item of an array by its
/// position.
pub open spec fn part_of(j: JsonView, name: Seq<char>, at: int) -> Option<JsonView> {
    match j {
        JsonView::Array(items) => if at < items.len() {
            Some(items[at])
        } else {
            None
        },
        _ => member_of(j, name),
    }
}

fn record_shape(j: &Json, least: usize, most: usize) -> (r: bool)
    ensures
        r == is_record(j@, least as int, most as int),
{
    match j {
        Json::Object(members) => {
            proof {
                crate::json::lemma_object_view(*members);
            }
            true
        },
        Json::Array(items) => {
            proof {
                crate::json::lemma_array_view(*items);
            }
            least <= items.len() && items.len() <= most
        },
        _ => false,
    }
}

fn part<'a>(j: &'a Json, name: &str, at: usize) -> (r: Option<&'a Json>)
    ensures
        match r {
            Some(v) => part_of(j@, name@, at as int) == Some(v@),
            None => part_of(j@, name@, at as int) is None,
        },
{
    match j {
        Json::Array(items) => {
            proof {
                crate::json::lemma_array_view(*items);
            }
            if at < items.len() {
                Some(&items[at])
            } else {
                None
            }
        },
        _ => j.get(name),
    }
}

/// A part that may be missing or null, and otherwise is a text.
pub open spec fn optional_text(j: JsonView, name: Seq<char>, at: int) -> Result<
    Option<Seq<char>>,
    ErrorView,
> {
    match part_of(j, name, at) {
        None => Ok(None),
        Some(JsonView::Null) => Ok(None),
        Some(JsonView::Text(t)) => Ok(Some(t)),
        Some(_) => Err(shape_error(name + " must be a string"@)),
    }
}

fn read_optional_text(j: &Json, name: &str, at: usize) -> (r: Result<
    Option<String>,
    ErrorEnvelope,
>)
    ensures
        match r {
            Ok(t) => optional_text(j@, name@, at as int) == Ok::<Option<Seq<char>>, ErrorView>(
                text_of(t),
            ),
            Err(e) => optional_text(j@, name@, at as int) == Err::<Option<Seq<char>>, ErrorView>(
                e@,
            ),
        },
{
    match part(j, name, at) {
        None => Ok(None),
        Some(Json::Null) => Ok(None),
        Some(Json::Text(t)) => Ok(Some(t.clone())),
        Some(_) => Err(bad_shape(&concat2(name, " must be a string"))),
    }
}

/// A piece that holds nothing of a function.
pub open spec fn no_function(index: nat, id: Option<Seq<char>>) -> FragmentView {
    FragmentView { index, id, has_function: false, name: None, arguments: None }
}

/// One piece of a tool call in a chunk.
pub open spec fn fragment_of(j: JsonView) -> Result<FragmentView, ErrorView> {
    if !is_record(j, 0, 3) {
        Err(shape_error("tool call has the wrong shape"@))
    } else {
        let index: Option<nat> = match part_of(j, "index"@, 0) {
            None => Some(0nat),
            Some(v) => uint_of(v),
        };
        match (index, optional_text(j, "id"@, 1)) {
            (None, _) => Err(shape_error("index must be an unsigned integer"@)),
            (_, Err(e)) => Err(e),
            (Some(index), Ok(id)) => match part_of(j, "function"@, 2) {
                None => Ok(no_function(index, id)),
                Some(JsonView::Null) => Ok(no_function(index, id)),
                Some(f) => if !is_record(f, 0, 2) {
                    Err(shape_error("function has the wrong shape"@))
                } else {
                    match (optional_text(f, "name"@, 0), optional_text(f, "arguments"@, 1)) {
                        (Err(e), _) => Err(e),
                        (_, Err(e)) => Err(e),
                        (Ok(name), Ok(arguments)) => Ok(
                            FragmentView { index, id, has_function: true, name, arguments },
                        ),
                    }
                },
            },
        }
    }
}

fn read_fragment(j: &Json) -> (r: Result<ToolCallFragment, ErrorEnvelope>)
    ensures
        match r {
            Ok(f) => fragment_of(j@) == Ok::<FragmentView, ErrorView>(f@),
            Err(e) => fragment_of(j@) == Err::<FragmentView, ErrorView>(e@),
        },
{
    if !record_shape(j, 0, 3) {
        return Err(bad_shape("tool call has the wrong shape"));
    }
    let index: u64 = match part(j, "index", 0) {
        None => 0,
        Some(v) => match v.as_u64() {
            Some(n) => n,
            None => {
                return Err(bad_shape("index must be an unsigned integer"));
            },
        },
    };
    let id = match read_optional_text(j, "id", 1) {
        Ok(id) => id,
        Err(e) => {
            return Err(e);
        },
    };
    match part(j, "function", 2) {
        None => Ok(ToolCallFragment { index, id, function: None }),
        Some(Json::Null) => Ok(ToolCallFragment { index, id, function: None }),
        Some(f) => {
            if !record_shape(f, 0, 2) {
                return Err(bad_shape("function has the wrong shape"));
            }
            let name = match read_optional_text(f, "name", 0) {
                Ok(name) => name,
                Err(e) => {
                    return Err(e);
                },
            };
            let arguments = match read_optional_text(f, "arguments", 1) {
                Ok(arguments) => arguments,
                Err(e) => {
                    return Err(e);
                },
            };
            Ok(ToolCallFragment { index, id, function: Some(FunctionFragment { name, arguments }) })
        },
    }
}

/// The pieces of a list, or the first error in it.
pub open spec fn fragments_of(items: Seq<JsonView>) -> Result<Seq<FragmentView>, ErrorView>
    decreases items.len(),
{
    if items.len() == 0 {
        Ok(Seq::empty())
    } else {
        match fragments_of(items.drop_last()) {
            Err(e) => Err(e),
            Ok(fs) => match fragment_of(items.last()) {
                Err(e) => Err(e),
                Ok(f) => Ok(fs.push(f)),
            },
        }
    }
}

proof fn lemma_fragments_error(items: Seq<JsonView>, k: int)
    requires
        0 <= k <= items.len(),
        fragments_of(items.take(k)) is Err,
    ensures
        fragments_of(items) == fragments_of(items.take(k)),
    decreases items.len() - k,
{
    if k < items.len() {
        assert(items.drop_last().take(k) =~= items.take(k));
        lemma_fragments_error(items.drop_last(), k);
    } else {
        assert(items.take(k) =~= items);
    }
}

fn read_fragments(items: &Vec<Json>) -> (r: Result<Vec<ToolCallFragment>, ErrorEnvelope>)
    ensures
        match r {
            Ok(fs) => fragments_of(crate::json::items_view(items@)) == Ok::<
                Seq<FragmentView>,
                ErrorView,
            >(fragments_view(fs@)),
            Err(e) => fragments_of(crate::json::items_view(items@)) == Err::<
                Seq<FragmentView>,
                ErrorView,
            >(e@),
        },
{
    let ghost all = crate::json::items_view(items@);
    let mut fs: Vec<ToolCallFragment> = Vec::new();
    let mut i: usize = 0;
    assert(all.take(0) =~= Seq::<JsonView>::empty());
    assert(fragments_view(fs@) =~= Seq::<FragmentView>::empty());
    while i < items.len()
        invariant
            i <= items@.len(),
            all == crate::json::items_view(items@),
            fragments_of(all.take(i as int)) == Ok::<Seq<FragmentView>, ErrorView>(
                fragments_view(fs@),
            ),
        decreases items@.len() - i,
    {
        let ghost before = fs@;
        proof {
            assert(all.take(i + 1).drop_last() =~= all.take(i as int));
            assert(all.take(i + 1).last() == items@[i as int]@);
        }
        match read_fragment(&items[i]) {
            Err(e) => {
                proof {
                    lemma_fragments_error(all, i + 1);
                }
                return Err(e);
            },
            Ok(f) => {
                fs.push(f);
                assert(fragments_view(fs@) =~= fragments_view(before).push(f@));
            },
        }
        i = i + 1;
    }
    assert(all.take(i as int) =~= all);
    Ok(fs)
}

/// The first choice of a chunk: its text, its finish reason and its tool calls.
pub open spec fn choice_of(j: JsonView) -> Result<
    (Option<Seq<char>>, Option<Seq<char>>, Seq<FragmentView>),
    ErrorView,
> {
    if !is_record(j, 2, 2) {
        Err(shape_error("choice has the wrong shape"@))
    } else {
        match optional_text(j, "finish_reason"@, 1) {
            Err(e) => Err(e),
            Ok(finish) => match part_of(j, "delta"@, 0) {
                None => Ok((None, finish, Seq::empty())),
                Some(delta) => if !is_record(delta, 1, 2) {
                    Err(shape_error("delta has the wrong shape"@))
                } else {
                    match optional_text(delta, "content"@, 0) {
                        Err(e) => Err(e),
                        Ok(content) => match part_of(delta, "tool_calls"@, 1) {
                            None => Ok((content, finish, Seq::empty())),
                            Some(JsonView::Array(items)) => match fragments_of(items) {
                                Err(e) => Err(e),
                                Ok(fs) => Ok((content, finish, fs)),
                            },
                            Some(_) => Err(shape_error("tool_calls must be an array"@)),
                        },
                    }
                },
            },
        }
    }
}

fn read_choice(j: &Json) -> (r: Result<
    (Option<String>, Option<String>, Vec<ToolCallFragment>),
    ErrorEnvelope,
>)
    ensures
        match r {
            Ok(c) => choice_of(j@) == Ok::<
                (Option<Seq<char>>, Option<Seq<char>>, Seq<FragmentView>),
                ErrorView,
            >((text_of(c.0), text_of(c.1), fragments_view(c.2@))),
            Err(e) => choice_of(j@) == Err::<
                (Option<Seq<char>>, Option<Seq<char>>, Seq<FragmentView>),
                ErrorView,
            >(e@),
        },
{
    if !record_shape(j, 2, 2) {
        return Err(bad_shape("choice has the wrong shape"));
    }
    let finish = match read_optional_text(j, "finish_reason", 1) {
        Ok(finish) => finish,
        Err(e) => {
            return Err(e);
        },
    };
    match part(j, "delta", 0) {
        None => {
            let none: Vec<ToolCallFragment> = Vec::new();
            assert(fragments_view(none@) =~= Seq::<FragmentView>::empty());
            Ok((None, finish, none))
        },
        Some(delta) => {
            if !record_shape(delta, 1, 2) {
                return Err(bad_shape("delta has the wrong shape"));
            }
            let content = match read_optional_text(delta, "content", 0) {
                Ok(content) => content,
                Err(e) => {
                    return Err(e);
                },
            };
            match part(delta, "tool_calls", 1) {
                None => {
                    let none: Vec<ToolCallFragment> = Vec::new();
                    assert(fragments_view(none@) =~= Seq::<FragmentView>::empty());
                    Ok((content, finish, none))
                },
                Some(Json::Array(items)) => {
                    proof {
                        crate::json::lemma_array_view(*items);
                    }
                    match read_fragments(items) {
                        Ok(fs) => Ok((content, finish, fs)),
                        Err(e) => Err(e),
                    }
                },
                Some(_) => Err(bad_shape("tool_calls must be an array")),
            }
        },
    }
}

/// A choice as it is read: its text, its finish reason and its tool calls.
pub type ChoiceView = (Option<Seq<char>>, Option<Seq<char>>, Seq<FragmentView>);

/// The first of the choices; nothing where there are none. All of them have to be readable,
/// and the first that is not is the error.
pub open spec fn first_choice(items: Seq<JsonView>) -> Result<Option<ChoiceView>, ErrorView>
    decreases items.len(),
{
    if items.len() == 0 {
        Ok(None)
    } else {
        match first_choice(items.drop_last()) {
            Err(e) => Err(e),
            Ok(first) => match choice_of(items.last()) {
                Err(e) => Err(e),
                Ok(choice) => Ok(
                    Some(
                        match first {
                            Some(first) => first,
                            None => choice,
                        },
                    ),
                ),
            },
        }
    }
}

proof fn lemma_choice_error(items: Seq<JsonView>, k: int)
    requires
        0 <= k <= items.len(),
        first_choice(items.take(k)) is Err,
    ensures
        first_choice(items) == first_choice(items.take(k)),
    decreases items.len() - k,
{
    if k < items.len() {
        assert(items.take(k + 1).drop_last() =~= items.take(k));
        lemma_choice_error(items, k + 1);
    } else {
        assert(items.take(k) =~= items);
    }
}

/// A choice that was read.
#[derive(Debug)]
struct Choice {
    content: Option<String>,
    finish_reason: Option<String>,
    tool_calls: Vec<ToolCallFragment>,
}

impl View for Choice {
    type V = ChoiceView;

    closed spec fn view(&self) -> ChoiceView {
        (text_of(self.content), text_of(self.finish_reason), fragments_view(self.tool_calls@))
    }
}

fn read_choices(items: &Vec<Json>) -> (r: Result<Option<Choice>, ErrorEnvelope>)
    ensures
        match r {
            Ok(None) => first_choice(crate::json::items_view(items@)) == Ok::<
                Option<ChoiceView>,
                ErrorView,
            >(None),
            Ok(Some(c)) => first_choice(crate::json::items_view(items@)) == Ok::<
                Option<ChoiceView>,
                ErrorView,
            >(Some(c@)),
            Err(e) => first_choice(crate::json::items_view(items@)) == Err::<
                Option<ChoiceView>,
                ErrorView,
            >(e@),
        },
{
    let ghost all = crate::json::items_view(items@);
    let mut first: Option<Choice> = None;
    let mut i: usize = 0;
    assert(all.take(0) =~= Seq::<JsonView>::empty());
    while i < items.len()
        invariant
            i <= items@.len(),
            all == crate::json::items_view(items@),
            first_choice(all.take(i as int)) == Ok::<Option<ChoiceView>, ErrorView>(
                match first {
                    Some(c) => Some(c@),
                    None => None,
                },
            ),
        decreases items@.len() - i,
    {
        proof {
            assert(all.take(i + 1).drop_last() =~= all.take(i as int));
            assert(all.take(i + 1).last() == items@[i as int]@);
        }
        match read_choice(&items[i]) {
            Err(e) => {
                proof {
                    lemma_choice_error(all, i + 1);
                }
                return Err(e);
            },
            Ok((content, finish_reason, tool_calls)) => {
                if first.is_none() {
                    first = Some(Choice { content, finish_reason, tool_calls });
                }
            },
        }
        i = i + 1;
    }
    assert(all.take(i as int) =~= all);
    Ok(first)
}

/// The token count of a chunk, where it carries one.
pub open spec fn usage_in(j: JsonView) -> Option<nat> {
    match member_of(j, "usage"@) {
        None => None,
        Some(usage) => match member_of(usage, "total_tokens"@) {
            None => None,
            Some(total) => uint_of(total),
        },
    }
}

/// What a chunk adds to a reply: the first choice counts, and the others are readable.
pub open spec fn delta_of(j: JsonView) -> Result<DeltaView, ErrorView> {
    let usage = usage_in(j);
    if !is_record(j, 0, 1) {
        Err(shape_error("chunk has the wrong shape"@))
    } else {
        match part_of(j, "choices"@, 0) {
            None => Ok(
                DeltaView { content: None, finish_reason: None, tool_calls: Seq::empty(), usage },
            ),
            Some(JsonView::Array(items)) => match first_choice(items) {
                Err(e) => Err(e),
                Ok(None) => Ok(
                    DeltaView {
                        content: None,
                        finish_reason: None,
                        tool_calls: Seq::empty(),
                        usage,
                    },
                ),
                Ok(Some((content, finish_reason, tool_calls))) => Ok(
                    DeltaView { content, finish_reason, tool_calls, usage },
                ),
            },
            Some(_) => Err(shape_error("choices must be an array"@)),
        }
    }
}

fn read_usage(j: &Json) -> (r: Option<ModelTokenUsage>)
    ensures
        usage_in(j@) == (match r {
            Some(u) => Some(u.total_tokens as nat),
            None => None,
        }),
{
    match j.get("usage") {
        None => None,
        Some(usage) => match usage.get("total_tokens") {
            None => None,
            Some(total) => match total.as_u64() {
                Some(total_tokens) => Some(ModelTokenUsage { total_tokens }),
                None => None,
            },
        },
    }
}

/// What a chunk, read as JSON, adds to a reply.
pub fn delta_from_json(j: &Json) -> (r: Result<StreamDelta, ErrorEnvelope>)
    ensures
        match r {
            Ok(d) => delta_of(j@) == Ok::<DeltaView, ErrorView>(d@),
            Err(e) => delta_of(j@) == Err::<DeltaView, ErrorView>(e@),
        },
{
    if !record_shape(j, 0, 1) {
        return Err(bad_shape("chunk has the wrong shape"));
    }
    let usage = read_usage(j);
    match part(j, "choices", 0) {
        None => {
            let d = StreamDelta {
                content: None,
                finish_reason: None,
                tool_calls: Vec::new(),
                usage,
            };
            assert(d@.tool_calls =~= Seq::<FragmentView>::empty());
            Ok(d)
        },
        Some(Json::Array(items)) => {
            proof {
                crate::json::lemma_array_view(*items);
            }
            match read_choices(items) {
                Err(e) => Err(e),
                Ok(None) => {
                    let d = StreamDelta {
                        content: None,
                        finish_reason: None,
                        tool_calls: Vec::new(),
                        usage,
                    };
                    assert(d@.tool_calls =~= Seq::<FragmentView>::empty());
                    Ok(d)
                },
                Ok(Some(Choice { content, finish_reason, tool_calls })) => Ok(
                    StreamDelta { content, finish_reason, tool_calls, usage },
                ),
            }
        },
        Some(_) => Err(bad_shape("choices must be an array")),
    }
}

/// What a payload adds to a reply; text that is no JSON breaks the stream.
pub open spec fn payload_delta(payload: Seq<char>) -> Result<DeltaView, ErrorView> {
    match json_document(payload) {
        Err(e) => Err(shape_error(e)),
        Ok(j) => delta_of(j),
    }
}

/// Reads the payload of one chunk. It is read as JSON first: of a member that occurs twice
/// the last one counts, and a member that nothing looks at has to be JSON all the same.
pub fn extract_delta(data_line: &str) -> (r: Result<StreamDelta, ErrorEnvelope>)
    ensures
        match r {
            Ok(d) => payload_delta(data_line@) == Ok::<DeltaView, ErrorView>(d@),
            Err(e) => payload_delta(data_line@) == Err::<DeltaView, ErrorView>(e@),
        },
{
    match Json::parse(data_line) {
        Err(e) => Err(bad_shape(&e)),
        Ok(j) => delta_from_json(&j),
    }
}

// ---------------------------------------------------------------------------
// Putting a reply together
// ---------------------------------------------------------------------------

/// A reply while its stream is read.
#[verifier::ext_equal]
pub struct StreamView {
    pub text: Seq<char>,
    pub finish_reason: Option<Seq<char>>,
    pub usage: Option<nat>,
    /// The tool calls by their index.
    pub calls: Map<nat, CallView>,
}

pub open spec fn empty_stream() -> StreamView {
    StreamView { text: Seq::empty(), finish_reason: None, usage: None, calls: Map::empty() }
}

pub open spec fn or_text(t: Option<Seq<char>>, otherwise: Seq<char>) -> Seq<char> {
    match t {
        Some(s) => s,
        None => otherwise,
    }
}

/// The first text that is not empty stays.
pub open spec fn first_text(held: Seq<char>, t: Option<Seq<char>>) -> Seq<char> {
    if held.len() > 0 {
        held
    } else {
        or_text(t, held)
    }
}

/// A tool call with one more piece: the first id and the first name stay, arguments
/// are added at the end.
pub open spec fn call_with(call: CallView, f: FragmentView) -> CallView {
    CallView {
        id: first_text(call.id, f.id),
        name: first_text(call.name, f.name),
        arguments: call.arguments + or_text(f.arguments, Seq::empty()),
    }
}

pub open spec fn empty_call() -> CallView {
    CallView { id: Seq::empty(), name: Seq::empty(), arguments: Seq::empty() }
}

pub open spec fn call_at(calls: Map<nat, CallView>, index: nat) -> CallView {
    if calls.dom().contains(index) {
        calls[index]
    } else {
        empty_call()
    }
}

pub open spec fn calls_with(calls: Map<nat, CallView>, fs: Seq<FragmentView>) -> Map<nat, CallView>
    decreases fs.len(),
{
    if fs.len() == 0 {
        calls
    } else {
        let before = calls_with(calls, fs.drop_last());
        before.insert(fs.last().index, call_with(call_at(before, fs.last().index), fs.last()))
    }
}

/// A reply with one more chunk.
pub open spec fn stream_with(s: StreamView, d: DeltaView) -> StreamView {
    StreamView {
        text: s.text + or_text(d.content, Seq::empty()),
        finish_reason: match d.finish_reason {
            Some(f) => if f.len() > 0 {
                Some(f)
            } else {
                s.finish_reason
            },
            None => s.finish_reason,
        },
        usage: match d.usage {
            Some(u) => Some(u),
            None => s.usage,
        },
        calls: calls_with(s.calls, d.tool_calls),
    }
}

/// Where the reading of a stream stands.
pub enum StreamState {
    Open(StreamView),
    Done(StreamView),
    Failed(ErrorView),
}

/// The state after one more line. Nothing counts after the end mark.
pub open spec fn stream_line(state: StreamState, line: Seq<char>) -> StreamState {
    match state {
        StreamState::Open(s) => match sse_line(line) {
            SseView::Ignore => state,
            SseView::Done => StreamState::Done(s),
            SseView::Data(payload) => match payload_delta(payload) {
                Ok(d) => StreamState::Open(stream_with(s, d)),
                Err(e) => StreamState::Failed(e),
            },
        },
        _ => state,
    }
}

pub open spec fn stream_lines(lines: Seq<Seq<char>>) -> StreamState
    decreases lines.len(),
{
    if lines.len() == 0 {
        StreamState::Open(empty_stream())
    } else {
        stream_line(stream_lines(lines.drop_last()), lines.last())
    }
}

/// `calls` are the tool calls of `slots` in the order of their indices.
pub open spec fn in_index_order(
    slots: Map<nat, CallView>,
    indices: Seq<nat>,
    calls: Seq<CallView>,
) -> bool {
    &&& indices.len() == calls.len()
    &&& forall|i: int, j: int| 0 <= i < j < indices.len() ==> indices[i] < indices[j]
    &&& forall|k: nat| slots.dom().contains(k) <==> indices.contains(k)
    &&& forall|i: int| 0 <= i < indices.len() ==> slots[#[trigger] indices[i]] == calls[i]
}

/// The reply that a stream stands for.
pub open spec fn reply_for(s: StreamView, r: ChatReply) -> bool {
    &&& r.text@ == s.text
    &&& text_of(r.finish_reason) == s.finish_reason
    &&& s.usage == (match r.usage {
        Some(u) => Some(u.total_tokens as nat),
        None => None,
    })
    &&& exists|indices: Seq<nat>| in_index_order(s.calls, indices, calls_view(r.tool_calls@))
}

/// A stream that ended before its end mark.
pub open spec fn truncated_error() -> ErrorView {
    error(ErrorCode::ModelStreamBroken, "SSE 流在 [DONE] 哨兵前结束（疑似截断）"@)
}

/// Reads a streamed reply chunk by chunk.
#[derive(Debug)]
pub struct StreamReader {
    text: String,
    finish_reason: Option<String>,
    usage: Option<ModelTokenUsage>,
    indices: Vec<u64>,
    calls: Vec<ToolCallRequest>,
}

spec fn nats(s: Seq<u64>) -> Seq<nat> {
    s.map_values(|n: u64| n as nat)
}

spec fn slots_of(indices: Seq<u64>, calls: Seq<ToolCallRequest>) -> Map<nat, CallView> {
    Map::new(
        |k: nat| nats(indices).contains(k),
        |k: nat| calls_view(calls)[nats(indices).index_of(k)],
    )
}

spec fn rising(s: Seq<u64>) -> bool {
    forall|i: int, j: int| 0 <= i < j < s.len() ==> s[i] < s[j]
}

proof fn lemma_slot(indices: Seq<u64>, calls: Seq<ToolCallRequest>, i: int)
    requires
        rising(indices),
        indices.len() == calls.len(),
        0 <= i < indices.len(),
    ensures
        slots_of(indices, calls).dom().contains(indices[i] as nat),
        slots_of(indices, calls)[indices[i] as nat] == calls[i]@,
{
    let ns = nats(indices);
    assert(ns[i] == indices[i] as nat);
    assert(ns.contains(indices[i] as nat));
    let k = ns.index_of(indices[i] as nat);
    assert(ns[k] == indices[i] as nat);
    assert(indices[k] == indices[i]);
    if k < i {
        assert(indices[k] < indices[i]);
    } else if i < k {
        assert(indices[i] < indices[k]);
    }
}

impl View for StreamReader {
    type V = StreamView;

    closed spec fn view(&self) -> StreamView {
        StreamView {
            text: self.text@,
            finish_reason: text_of(self.finish_reason),
            usage: match self.usage {
                Some(u) => Some(u.total_tokens as nat),
                None => None,
            },
            calls: slots_of(self.indices@, self.calls@),
        }
    }
}

impl StreamReader {
    #[verifier::type_invariant]
    spec fn well_formed(&self) -> bool {
        rising(self.indices@) && self.indices@.len() == self.calls@.len()
    }

    pub fn new() -> (r: StreamReader)
        ensures
            r@ == empty_stream(),
    {
        let r = StreamReader {
            text: String::new(),
            finish_reason: None,
            usage: None,
            indices: Vec::new(),
            calls: Vec::new(),
        };
        assert(r@.calls =~= Map::<nat, CallView>::empty());
        r
    }

    /// Adds one chunk.
    pub fn add_delta(self, delta: StreamDelta) -> (r: StreamReader)
        ensures
            r@ == stream_with(self@, delta@),
    {
        proof {
            use_type_invariant(&self);
        }
        let ghost start = self@;
        let ghost added = delta@;
        let StreamReader { mut text, mut finish_reason, mut usage, mut indices, mut calls } = self;
        match &delta.content {
            Some(content) => {
                text.push_str(content);
            },
            None => {},
        }
        assert(text@ =~= start.text + or_text(added.content, Seq::empty()));
        match &delta.finish_reason {
            Some(f) => {
                if !f.as_str().is_empty() {
                    finish_reason = Some(f.clone());
                }
            },
            None => {},
        }
        if delta.usage.is_some() {
            usage = delta.usage;
        }
        let ghost fs = fragments_view(delta.tool_calls@);
        let mut i: usize = 0;
        assert(fs.take(0) =~= Seq::<FragmentView>::empty());
        while i < delta.tool_calls.len()
            invariant
                i <= delta.tool_calls@.len(),
                fs == fragments_view(delta.tool_calls@),
                rising(indices@),
                indices@.len() == calls@.len(),
                slots_of(indices@, calls@) == calls_with(start.calls, fs.take(i as int)),
            decreases delta.tool_calls@.len() - i,
        {
            proof {
                assert(fs.take(i + 1).drop_last() =~= fs.take(i as int));
                assert(fs.take(i + 1).last() == delta.tool_calls@[i as int]@);
            }
            add_fragment(&mut indices, &mut calls, &delta.tool_calls[i]);
            i = i + 1;
        }
        assert(fs.take(i as int) =~= fs);
        StreamReader { text, finish_reason, usage, indices, calls }
    }

    /// The finished reply.
    pub fn finish(self) -> (r: ChatReply)
        ensures
            reply_for(self@, r),
    {
        proof {
            use_type_invariant(&self);
            let ns = nats(self.indices@);
            assert forall|i: int| 0 <= i < ns.len() implies self@.calls[#[trigger] ns[i]]
                == calls_view(self.calls@)[i] by {
                lemma_slot(self.indices@, self.calls@, i);
            }
            assert(in_index_order(self@.calls, ns, calls_view(self.calls@)));
        }
        let ghost s = self@;
        let ghost ns = nats(self.indices@);
        let r = ChatReply {
            text: self.text,
            finish_reason: self.finish_reason,
            tool_calls: self.calls,
            usage: self.usage,
        };
        assert(in_index_order(s.calls, ns, calls_view(r.tool_calls@)));
        assert(s.usage == (match r.usage {
            Some(u) => Some(u.total_tokens as nat),
            None => None,
        }));
        assert(text_of(r.finish_reason) == s.finish_reason);
        r
    }
}

fn add_fragment(indices: &mut Vec<u64>, calls: &mut Vec<ToolCallRequest>, f: &ToolCallFragment)
    requires
        rising(old(indices)@),
        old(indices)@.len() == old(calls)@.len(),
    ensures
        rising(final(indices)@),
        final(indices)@.len() == final(calls)@.len(),
        slots_of(final(indices)@, final(calls)@) == slots_of(old(indices)@, old(calls)@).insert(
            f@.index,
            call_with(call_at(slots_of(old(indices)@, old(calls)@), f@.index), f@),
        ),
{
    let ghost is0 = indices@;
    let ghost cs0 = calls@;
    let ghost before = slots_of(is0, cs0);
    let mut at: usize = 0;
    while at < indices.len() && indices[at] < f.index
        invariant
            at <= indices@.len(),
            indices@ == is0,
            forall|j: int| 0 <= j < at ==> is0[j] < f.index,
        decreases indices@.len() - at,
    {
        at = at + 1;
    }
    let present = at < indices.len() && indices[at] == f.index;
    let mut call = if present {
        calls[at].clone()
    } else {
        ToolCallRequest { id: String::new(), name: String::new(), arguments: String::new() }
    };
    proof {
        if present {
            lemma_slot(is0, cs0, at as int);
        } else {
            if before.dom().contains(f@.index) {
                let k = choose|k: int| 0 <= k < nats(is0).len() && nats(is0)[k] == f@.index;
                assert(is0[k] == f.index);
                if k >= at {
                    if k > at {
                        assert(is0[at as int] < is0[k]);
                    }
                }
            }
        }
        assert(call@ == call_at(before, f@.index));
    }
    let ghost started = call@;
    match &f.id {
        Some(id) => {
            if call.id.as_str().is_empty() {
                call.id = id.clone();
            }
        },
        None => {},
    }
    match &f.function {
        Some(function) => {
            match &function.name {
                Some(name) => {
                    if call.name.as_str().is_empty() {
                        call.name = name.clone();
                    }
                },
                None => {},
            }
            match &function.arguments {
                Some(arguments) => {
                    call.arguments.push_str(arguments);
                },
                None => {},
            }
        },
        None => {},
    }
    assert(call@.arguments =~= call_with(started, f@).arguments);
    assert(call@ == call_with(started, f@));
    let ghost updated = call@;
    if present {
        calls.set(at, call);
        proof {
            let after = slots_of(indices@, calls@);
            assert forall|k: nat| after.dom().contains(k) implies #[trigger] after[k]
                == before.insert(f@.index, updated)[k] by {
                let i = choose|i: int| 0 <= i < nats(is0).len() && nats(is0)[i] == k;
                lemma_slot(is0, cs0, i);
                lemma_slot(is0, calls@, i);
                if i < at {
                    assert(is0[i] < is0[at as int]);
                } else if i > at {
                    assert(is0[at as int] < is0[i]);
                }
            }
            assert(nats(is0)[at as int] == f@.index);
            assert(after =~= before.insert(f@.index, updated));
        }
    } else {
        indices.insert(at, f.index);
        calls.insert(at, call);
        proof {
            let is1 = indices@;
            assert(is1 == is0.insert(at as int, f.index));
            assert forall|i: int, j: int| 0 <= i < j < is1.len() implies is1[i] < is1[j] by {
                let i0 = if i < at { i } else { i - 1 };
                let j0 = if j < at { j } else { j - 1 };
                if i != at && j != at {
                    assert(is1[i] == is0[i0] && is1[j] == is0[j0]);
                } else if i == at {
                    assert(is1[j] == is0[j - 1]);
                    if j - 1 > at {
                        assert(is0[at as int] < is0[j - 1]);
                    }
                }
            }
            let after = slots_of(is1, calls@);
            assert forall|k: nat| after.dom().contains(k) <==> #[trigger] before.insert(
                f@.index,
                updated,
            ).dom().contains(k) by {
                if after.dom().contains(k) {
                    let i = choose|i: int| 0 <= i < nats(is1).len() && nats(is1)[i] == k;
                    if i < at {
                        assert(nats(is0)[i] == k);
                    } else if i > at {
                        assert(nats(is0)[i - 1] == k);
                    }
                }
                if before.dom().contains(k) {
                    let i = choose|i: int| 0 <= i < nats(is0).len() && nats(is0)[i] == k;
                    if i < at {
                        assert(nats(is1)[i] == k);
                    } else {
                        assert(nats(is1)[i + 1] == k);
                    }
                }
                assert(nats(is1)[at as int] == f@.index);
            }
            assert forall|k: nat| after.dom().contains(k) implies #[trigger] after[k]
                == before.insert(f@.index, updated)[k] by {
                let i = choose|i: int| 0 <= i < nats(is1).len() && nats(is1)[i] == k;
                lemma_slot(is1, calls@, i);
                if i < at {
                    assert(is0[i] == is1[i] && calls@[i] == cs0[i]);
                    lemma_slot(is0, cs0, i);
                } else if i > at {
                    assert(is0[i - 1] == is1[i] && calls@[i] == cs0[i - 1]);
                    lemma_slot(is0, cs0, i - 1);
                }
            }
            assert(after =~= before.insert(f@.index, updated));
        }
    }
}

/// Reads the lines of a whole reply, up to its end mark. A stream that ends
/// before the mark is refused rather than taken for a short reply.
pub fn consume_sse_lines(lines: &Vec<String>) -> (r: Result<ChatReply, ErrorEnvelope>)
    ensures
        match stream_lines(crate::text::views(lines@)) {
            StreamState::Done(s) => r is Ok && reply_for(s, r->Ok_0),
            StreamState::Open(_) => r is Err && r->Err_0@ == truncated_error(),
            StreamState::Failed(e) => r is Err && r->Err_0@ == e,
        },
{
    let ghost all = crate::text::views(lines@);
    let mut reader = StreamReader::new();
    let mut i: usize = 0;
    assert(all.take(0) =~= Seq::<Seq<char>>::empty());
    while i < lines.len()
        invariant
            i <= lines@.len(),
            all == crate::text::views(lines@),
            stream_lines(all.take(i as int)) == StreamState::Open(reader@),
        decreases lines@.len() - i,
    {
        proof {
            assert(all.take(i + 1).drop_last() =~= all.take(i as int));
            assert(all.take(i + 1).last() == lines@[i as int]@);
        }
        match parse_sse_line(&lines[i]) {
            SseLine::Ignore => {},
            SseLine::Done => {
                proof {
                    lemma_stream_settled(all, i + 1);
                }
                return Ok(reader.finish());
            },
            SseLine::Data(payload) => match extract_delta(&payload) {
                Ok(delta) => {
                    reader = reader.add_delta(delta);
                },
                Err(e) => {
                    proof {
                        lemma_stream_settled(all, i + 1);
                    }
                    return Err(e);
                },
            },
        }
        i = i + 1;
    }
    assert(all.take(i as int) =~= all);
    Err(
        ErrorEnvelope::of(
            ErrorCode::ModelStreamBroken,
            "SSE 流在 [DONE] 哨兵前结束（疑似截断）",
        ),
    )
}

proof fn lemma_stream_settled(lines: Seq<Seq<char>>, k: int)
    requires
        0 <= k <= lines.len(),
        !(stream_lines(lines.take(k)) is Open),
    ensures
        stream_lines(lines) == stream_lines(lines.take(k)),
    decreases lines.len() - k,
{
    if k < lines.len() {
        assert(lines.drop_last().take(k) =~= lines.take(k));
        lemma_stream_settled(lines.drop_last(), k);
    } else {
        assert(lines.take(k) =~= lines);
    }
}

/// An id or a name that a streamed call has stays, whatever pieces follow.
pub proof fn first_id_and_name_stay(
    calls: Map<nat, CallView>,
    fs: Seq<FragmentView>,
    index: nat,
)
    ensures
        call_at(calls, index).id.len() > 0 ==> call_at(calls_with(calls, fs), index).id == call_at(
            calls,
            index,
        ).id,
        call_at(calls, index).name.len() > 0 ==> call_at(calls_with(calls, fs), index).name
            == call_at(calls, index).name,
    decreases fs.len(),
{
    if fs.len() > 0 {
        first_id_and_name_stay(calls, fs.drop_last(), index);
    }
}

/// Nothing after the end mark, or after a broken chunk, changes what a stream
/// comes to.
pub proof fn lines_after_the_end_do_not_count(lines: Seq<Seq<char>>, more: Seq<Seq<char>>)
    requires
        !(stream_lines(lines) is Open),
    ensures
        stream_lines(lines + more) == stream_lines(lines),
{
    assert((lines + more).take(lines.len() as int) =~= lines);
    lemma_stream_settled(lines + more, lines.len() as int);
}

// ---------------------------------------------------------------------------
// Requests and failures
// ---------------------------------------------------------------------------

/// The address that a chat request goes to.
pub fn chat_url(base_url: &str) -> (r: String)
    ensures
        r@ == without_trailing(base_url@, '/') + "/chat/completions"@,
{
    concat2(&trim_trailing(base_url, '/'), "/chat/completions")
}

pub open spec fn call_value(call: CallView) -> JsonView {
    JsonView::Object(
        seq![
            ("id"@, JsonView::Text(call.id)),
            ("name"@, JsonView::Text(call.name)),
            ("arguments"@, JsonView::Text(call.arguments)),
        ],
    )
}

/// A message as a request carries it. What a message does not have is left out.
pub open spec fn message_value(m: MessageView) -> JsonView {
    let plain = seq![("role"@, JsonView::Text(m.role)), ("content"@, JsonView::Text(m.content))];
    let called = match m.tool_calls {
        Some(calls) => plain.push(
            (
                "tool_calls"@,
                JsonView::Array(calls.map_values(|call: CallView| call_value(call))),
            ),
        ),
        None => plain,
    };
    JsonView::Object(
        match m.tool_call_id {
            Some(id) => called.push(("tool_call_id"@, JsonView::Text(id))),
            None => called,
        },
    )
}

/// The body of a request for a streamed reply.
pub open spec fn request_value(
    model: Seq<char>,
    temperature: Option<Seq<char>>,
    messages: Seq<MessageView>,
    tools: Option<JsonView>,
) -> JsonView {
    let plain = seq![
        ("model"@, JsonView::Text(model)),
        (
            "messages"@,
            JsonView::Array(messages.map_values(|m: MessageView| message_value(m))),
        ),
        ("stream"@, JsonView::Bool(true)),
    ];
    let warmed = match temperature {
        Some(t) => plain.push(("temperature"@, JsonView::Number(t))),
        None => plain,
    };
    JsonView::Object(
        match tools {
            Some(tools) => warmed.push(("tools"@, tools)),
            None => warmed,
        },
    )
}

fn call_json(call: &ToolCallRequest) -> (r: Json)
    ensures
        r@ == call_value(call@),
{
    let m = with_member(no_members(), "id", text_value(&call.id));
    let m = with_member(m, "name", text_value(&call.name));
    let r = object(with_member(m, "arguments", text_value(&call.arguments)));
    assert(r@->Object_0 =~= call_value(call@)->Object_0);
    r
}

fn calls_json(calls: &Vec<ToolCallRequest>) -> (r: Json)
    ensures
        r@ == JsonView::Array(calls_view(calls@).map_values(|call: CallView| call_value(call))),
{
    let mut items: Vec<Json> = Vec::new();
    let mut i: usize = 0;
    while i < calls.len()
        invariant
            i <= calls@.len(),
            items@.len() == i,
            forall|j: int| 0 <= j < i ==> (#[trigger] items@[j])@ == call_value(calls@[j]@),
        decreases calls@.len() - i,
    {
        items.push(call_json(&calls[i]));
        i = i + 1;
    }
    proof {
        lemma_array_view(items);
        assert(items_view(items@) =~= calls_view(calls@).map_values(
            |call: CallView| call_value(call),
        ));
    }
    Json::Array(items)
}

fn message_json(message: &ChatMessage) -> (r: Json)
    ensures
        r@ == message_value(message@),
{
    let m = with_member(no_members(), "role", text_value(&message.role));
    let m = with_member(m, "content", text_value(&message.content));
    let m = match &message.tool_calls {
        Some(calls) => with_member(m, "tool_calls", calls_json(calls)),
        None => m,
    };
    let m = match &message.tool_call_id {
        Some(id) => with_member(m, "tool_call_id", text_value(id)),
        None => m,
    };
    let r = object(m);
    assert(r@->Object_0 =~= message_value(message@)->Object_0);
    r
}

/// The body of a request for a streamed reply.
pub fn chat_request(
    call: &ModelCallSpec,
    messages: &Vec<ChatMessage>,
    tools: Option<&Json>,
) -> (r: Json)
    ensures
        r@ == request_value(
            call.model@,
            match call.temperature {
                Some(t) => Some(t@),
                None => None,
            },
            messages_view(messages@),
            match tools {
                Some(tools) => Some(tools@),
                None => None,
            },
        ),
{
    let mut items: Vec<Json> = Vec::new();
    let mut i: usize = 0;
    while i < messages.len()
        invariant
            i <= messages@.len(),
            items@.len() == i,
            forall|j: int|
                0 <= j < i ==> (#[trigger] items@[j])@ == message_value(messages@[j]@),
        decreases messages@.len() - i,
    {
        items.push(message_json(&messages[i]));
        i = i + 1;
    }
    proof {
        lemma_array_view(items);
        assert(items_view(items@) =~= messages_view(messages@).map_values(
            |m: MessageView| message_value(m),
        ));
    }
    let m = with_member(no_members(), "model", text_value(&call.model));
    let m = with_member(m, "messages", Json::Array(items));
    let m = with_member(m, "stream", Json::Bool(true));
    let m = match &call.temperature {
        Some(t) => with_member(m, "temperature", Json::Number(t.clone())),
        None => m,
    };
    let m = match tools {
        Some(tools) => with_member(m, "tools", tools.clone()),
        None => m,
    };
    let r = object(m);
    assert(r@->Object_0 =~= request_value(
        call.model@,
        match call.temperature {
            Some(t) => Some(t@),
            None => None,
        },
        messages_view(messages@),
        match tools {
            Some(tools) => Some(tools@),
            None => None,
        },
    )->Object_0);
    r
}

/// Refuses a blank API key: no request goes out without authentication.
pub fn check_api_key(api_key: &str) -> (r: Result<(), ErrorEnvelope>)
    ensures
        r is Ok <==> !blank(api_key@),
        r matches Err(e) ==> e@ == error(
            ErrorCode::Internal,
            "API key 为空；拒绝发起无认证请求"@,
        ),
{
    if is_blank(api_key) {
        Err(ErrorEnvelope::of(ErrorCode::Internal, "API key 为空；拒绝发起无认证请求"))
    } else {
        Ok(())
    }
}

/// The start of a text that goes into a message.
pub fn truncate_for_log(text: &str) -> (r: String)
    ensures
        r@ == first_chars(text@, 200),
{
    take_chars(text, 200)
}

/// The body of an error response names the error code for a full context window.
pub open spec fn says_context_exceeded(body: Seq<char>) -> bool {
    match json_document(body) {
        Err(_) => false,
        Ok(j) => names_context_exceeded(j),
    }
}

pub open spec fn names_context_exceeded(j: JsonView) -> bool {
    match member_of(j, "error"@) {
        None => false,
        Some(e) => member_of(e, "code"@) == Some(JsonView::Text("context_length_exceeded"@)),
    }
}

/// The error for a response with a failing status.
pub open spec fn http_error(status: u16, exceeded: bool, body: Seq<char>) -> ErrorView {
    if exceeded {
        error(
            ErrorCode::ContextWindowExceeded,
            "上游拒绝：上下文超限（HTTP "@ + decimal(status as nat) + "）"@,
        )
    } else {
        error(
            ErrorCode::Internal,
            "上游 API 返回 HTTP "@ + decimal(status as nat) + ": "@ + first_chars(body, 200),
        )
    }
}

/// Whether an error body, read as JSON, names the code for a full context window.
pub fn body_names_context_exceeded(j: &Json) -> (r: bool)
    ensures
        r == names_context_exceeded(j@),
{
    match j.get("error") {
        None => false,
        Some(e) => match e.get("code") {
            Some(Json::Text(code)) => same_text(code, "context_length_exceeded"),
            _ => false,
        },
    }
}

/// Maps a response with a failing status to an error, by the code in its body and
/// never by the text of a message.
pub fn classify_http_error(status: u16, body: &str) -> (r: ErrorEnvelope)
    ensures
        r@ == http_error(status, says_context_exceeded(body@), body@),
{
    let exceeded = match Json::parse(body) {
        Ok(j) => body_names_context_exceeded(&j),
        Err(_) => false,
    };
    let number = decimal_of(status as u64);
    if exceeded {
        ErrorEnvelope::new(
            ErrorCode::ContextWindowExceeded,
            crate::text::concat3("上游拒绝：上下文超限（HTTP ", &number, "）"),
        )
    } else {
        let start = truncate_for_log(body);
        ErrorEnvelope::new(
            ErrorCode::Internal,
            concat4("上游 API 返回 HTTP ", &number, ": ", &start),
        )
    }
}

/// Maps a failed transfer to an error: one that broke off while the reply came is
/// a broken stream, one that never reached the provider is internal.
pub fn transport_error(interrupted: bool, detail: &str) -> (r: ErrorEnvelope)
    ensures
        r@ == (if interrupted {
            error(ErrorCode::ModelStreamBroken, "模型流传输中断: "@ + detail@)
        } else {
            error(ErrorCode::Internal, "请求未送达上游: "@ + detail@)
        }),
{
    if interrupted {
        ErrorEnvelope::new(ErrorCode::ModelStreamBroken, concat2("模型流传输中断: ", detail))
    } else {
        ErrorEnvelope::new(ErrorCode::Internal, concat2("请求未送达上游: ", detail))
    }
}

/// The argument texts of the pieces with an index, joined in the order in which they came.
pub open spec fn joined_arguments(fs: Seq<FragmentView>, index: nat) -> Seq<char>
    decreases fs.len(),
{
    if fs.len() == 0 {
        Seq::empty()
    } else {
        let before = joined_arguments(fs.drop_last(), index);
        if fs.last().index == index && fs.last().arguments is Some {
            before + fs.last().arguments->0
        } else {
            before
        }
    }
}

/// The arguments of a call are those it had and the argument texts of all pieces with its
/// index, in the order in which they came.
pub proof fn arguments_are_joined_by_index(
    calls: Map<nat, CallView>,
    fs: Seq<FragmentView>,
    index: nat,
)
    ensures
        call_at(calls_with(calls, fs), index).arguments == call_at(calls, index).arguments
            + joined_arguments(fs, index),
        calls_with(calls, fs).dom().contains(index) <==> calls.dom().contains(index) || exists|
            i: int,
        |
            0 <= i < fs.len() && (#[trigger] fs[i]).index == index,
    decreases fs.len(),
{
    if fs.len() == 0 {
        assert(call_at(calls, index).arguments + joined_arguments(fs, index) =~= call_at(
            calls,
            index,
        ).arguments);
    } else {
        let before = fs.drop_last();
        arguments_are_joined_by_index(calls, before, index);
        assert(call_at(calls_with(calls, fs), index).arguments =~= call_at(calls, index).arguments
            + joined_arguments(fs, index));
        if fs.last().index == index {
            assert(fs[fs.len() - 1].index == index);
        }
        if exists|i: int| 0 <= i < before.len() && (#[trigger] before[i]).index == index {
            let i = choose|i: int| 0 <= i < before.len() && (#[trigger] before[i]).index == index;
            assert(fs[i].index == index);
        }
        if exists|i: int| 0 <= i < fs.len() && (#[trigger] fs[i]).index == index {
            let i = choose|i: int| 0 <= i < fs.len() && (#[trigger] fs[i]).index == index;
            if i < before.len() {
                assert(before[i].index == index);
            }
        }
    }
}

/// The first id of the pieces with an index that is not empty, and the first such name.
pub open spec fn first_given(held: Seq<char>, fs: Seq<FragmentView>, index: nat, name: bool) -> Seq<
    char,
>
    decreases fs.len(),
{
    if fs.len() == 0 {
        held
    } else {
        let before = first_given(held, fs.drop_last(), index, name);
        let given = if name {
            fs.last().name
        } else {
            fs.last().id
        };
        if before.len() == 0 && fs.last().index == index && given is Some {
            given->0
        } else {
            before
        }
    }
}

/// The id and the name of a call are the first ones that its pieces give.
pub proof fn ids_and_names_are_the_first_given(
    calls: Map<nat, CallView>,
    fs: Seq<FragmentView>,
    index: nat,
)
    ensures
        call_at(calls_with(calls, fs), index).id == first_given(
            call_at(calls, index).id,
            fs,
            index,
            false,
        ),
        call_at(calls_with(calls, fs), index).name == first_given(
            call_at(calls, index).name,
            fs,
            index,
            true,
        ),
    decreases fs.len(),
{
    if fs.len() > 0 {
        ids_and_names_are_the_first_given(calls, fs.drop_last(), index);
        let before = call_at(calls_with(calls, fs.drop_last()), index);
        if before.id.len() == 0 {
            assert(before.id =~= Seq::<char>::empty());
        }
        if before.name.len() == 0 {
            assert(before.name =~= Seq::<char>::empty());
        }
    }
}

/// A stream begins with nothing in it. What a chunk adds to it: its text at the end, a finish
/// reason where it is not empty and a token count in place of the earlier one, and its pieces
/// of tool calls.
pub proof fn a_chunk_adds_to_its_stream(s: StreamView, d: DeltaView, index: nat)
    ensures
        d.content is Some ==> stream_with(s, d).text == s.text + d.content->0,
        d.content is None ==> stream_with(s, d).text == s.text,
        d.finish_reason is Some && d.finish_reason->0.len() > 0 ==> stream_with(s, d).finish_reason
            == d.finish_reason,
        d.finish_reason is None || d.finish_reason->0.len() == 0 ==> stream_with(
            s,
            d,
        ).finish_reason == s.finish_reason,
        d.usage is Some ==> stream_with(s, d).usage == d.usage,
        d.usage is None ==> stream_with(s, d).usage == s.usage,
        call_at(stream_with(s, d).calls, index).arguments == call_at(s.calls, index).arguments
            + joined_arguments(d.tool_calls, index),
{
    if d.content is None {
        assert(stream_with(s, d).text =~= s.text);
    }
    arguments_are_joined_by_index(s.calls, d.tool_calls, index);
}

/// A stream is read line by line: `data:` and `[DONE]` end it, `data:` and anything else is a
/// chunk, and other lines do not count.
pub proof fn lines_of_a_stream(lines: Seq<Seq<char>>, line: Seq<char>, payload: Seq<char>)
    requires
        stream_lines(lines) is Open,
        payload.len() > 0 && !is_white(payload[0]),
    ensures
        stream_lines(Seq::empty()) matches StreamState::Open(s) && s.text.len() == 0
            && s.finish_reason is None && s.usage is None && s.calls == Map::<nat, CallView>::empty(),
        !has_prefix(line, "data:"@) ==> stream_lines(lines.push(line)) == stream_lines(lines),
        stream_lines(lines.push("data: [DONE]"@)) == StreamState::Done(stream_lines(lines)->Open_0),
        payload != "[DONE]"@ ==> stream_lines(lines.push("data: "@ + payload)) == (
        match payload_delta(payload) {
            Ok(d) => StreamState::Open(stream_with(stream_lines(lines)->Open_0, d)),
            Err(e) => StreamState::Failed(e),
        }),
{
    reveal_strlit("data:");
    reveal_strlit("data: ");
    reveal_strlit("data: [DONE]");
    reveal_strlit("[DONE]");
    assert(lines.push(line).drop_last() =~= lines);
    let done = "data: [DONE]"@;
    assert(lines.push(done).drop_last() =~= lines);
    assert(done.subrange(0, 5) =~= "data:"@);
    let tail = done.subrange(5, done.len() as int);
    assert(tail[0] == ' ');
    assert(tail.subrange(1, tail.len() as int) =~= "[DONE]"@);
    reveal_with_fuel(trimmed_start, 3);
    assert(!is_white("[DONE]"@[0]));
    assert(trimmed_start(tail) == "[DONE]"@);
    let chunk = "data: "@ + payload;
    assert(lines.push(chunk).drop_last() =~= lines);
    assert(chunk.subrange(0, 5) =~= "data:"@);
    let rest = chunk.subrange(5, chunk.len() as int);
    assert(rest[0] == ' ');
    assert(rest.subrange(1, rest.len() as int) =~= payload);
    assert(trimmed_start(rest) == payload);
}

/// The members of a chunk, by their names: of its first choice the text and the calls of the
/// delta, and the finish reason; of the usage the total.
pub proof fn a_chunk_is_read_by_its_names(
    j: JsonView,
    items: Seq<JsonView>,
    delta: JsonView,
    d: DeltaView,
)
    requires
        j is Object,
        delta_of(j) == Ok::<DeltaView, ErrorView>(d),
        member_of(j, "choices"@) == Some(JsonView::Array(items)),
        items.len() > 0,
        items[0] is Object,
        member_of(items[0], "delta"@) == Some(delta),
        delta is Object,
    ensures
        d.content == (match member_of(delta, "content"@) {
            Some(JsonView::Text(t)) => Some(t),
            _ => None,
        }),
        d.finish_reason == (match member_of(items[0], "finish_reason"@) {
            Some(JsonView::Text(t)) => Some(t),
            _ => None,
        }),
        match member_of(delta, "tool_calls"@) {
            None => d.tool_calls.len() == 0,
            Some(list) => list matches JsonView::Array(pieces) && d.tool_calls.len() == pieces.len()
                && forall|i: int|
                0 <= i < pieces.len() ==> fragment_of(#[trigger] pieces[i]) == Ok::<
                    FragmentView,
                    ErrorView,
                >(d.tool_calls[i]),
        },
        d.usage == (match member_of(j, "usage"@) {
            None => None,
            Some(usage) => match member_of(usage, "total_tokens"@) {
                None => None,
                Some(total) => uint_of(total),
            },
        }),
{
    lemma_first_choice(items);
    if let Some(JsonView::Array(pieces)) = member_of(delta, "tool_calls"@) {
        lemma_fragments_each(pieces);
    }
}

proof fn lemma_first_choice(items: Seq<JsonView>)
    requires
        items.len() > 0,
        first_choice(items) is Ok,
    ensures
        choice_of(items[0]) is Ok,
        first_choice(items)->Ok_0 == Some(choice_of(items[0])->Ok_0),
    decreases items.len(),
{
    if items.len() > 1 {
        lemma_first_choice(items.drop_last());
    } else {
        assert(items.drop_last().len() == 0);
        reveal_with_fuel(first_choice, 2);
        assert(items.last() == items[0]);
    }
}

proof fn lemma_fragments_each(items: Seq<JsonView>)
    requires
        fragments_of(items) is Ok,
    ensures
        fragments_of(items)->Ok_0.len() == items.len(),
        forall|i: int|
            0 <= i < items.len() ==> fragment_of(#[trigger] items[i]) == Ok::<
                FragmentView,
                ErrorView,
            >(fragments_of(items)->Ok_0[i]),
    decreases items.len(),
{
    if items.len() > 0 {
        let before = items.drop_last();
        lemma_fragments_each(before);
        assert forall|i: int| 0 <= i < items.len() implies fragment_of(#[trigger] items[i]) == Ok::<
            FragmentView,
            ErrorView,
        >(fragments_of(items)->Ok_0[i]) by {
            if i < before.len() {
                assert(before[i] == items[i]);
            }
        }
    }
}

/// The members of a piece of a tool call, by their names: its index, which is nought where it
/// has none, its id, and the name and the arguments of its function.
pub proof fn a_piece_is_read_by_its_names(j: JsonView, f: FragmentView)
    requires
        j is Object,
        fragment_of(j) == Ok::<FragmentView, ErrorView>(f),
    ensures
        match member_of(j, "index"@) {
            None => f.index == 0,
            Some(n) => uint_of(n) == Some(f.index),
        },
        f.id == (match member_of(j, "id"@) {
            Some(JsonView::Text(t)) => Some(t),
            _ => None,
        }),
        match member_of(j, "function"@) {
            Some(function) => function is Object ==> f.name == (match member_of(
                function,
                "name"@,
            ) {
                Some(JsonView::Text(t)) => Some(t),
                _ => None,
            }) && f.arguments == (match member_of(function, "arguments"@) {
                Some(JsonView::Text(t)) => Some(t),
                _ => None,
            }),
            None => f.name is None && f.arguments is None,
        },
{
}

/// The calls of a reply come in the order of their indices, and none is left out.
pub proof fn a_reply_holds_every_call(s: StreamView, r: ChatReply, low: nat, high: nat)
    requires
        reply_for(s, r),
        s.calls.dom().contains(low),
        s.calls.dom().contains(high),
        low < high,
    ensures
        r.text@ == s.text,
        exists|i: int, j: int|
            #![trigger r.tool_calls@[i], r.tool_calls@[j]]
            0 <= i < j < r.tool_calls@.len() && r.tool_calls@[i]@ == s.calls[low]
                && r.tool_calls@[j]@ == s.calls[high],
{
    let calls = calls_view(r.tool_calls@);
    let indices = choose|indices: Seq<nat>| in_index_order(s.calls, indices, calls);
    assert(indices.contains(low) && indices.contains(high));
    let i = indices.index_of(low);
    let j = indices.index_of(high);
    assert(indices[i] == low && indices[j] == high);
    if j < i {
        assert(indices[j] < indices[i]);
    }
    assert(calls[i] == r.tool_calls@[i]@);
    assert(calls[j] == r.tool_calls@[j]@);
}

/// A message as a request carries it: its role, its text, the id that it answers, and its
/// calls with their ids, names and arguments.
pub proof fn a_request_carries_the_message(m: MessageView, k: int)
    ensures
        member_of(message_value(m), "role"@) == Some(JsonView::Text(m.role)),
        member_of(message_value(m), "content"@) == Some(JsonView::Text(m.content)),
        member_of(message_value(m), "tool_call_id"@) == (match m.tool_call_id {
            Some(id) => Some(JsonView::Text(id)),
            None => None,
        }),
        match m.tool_calls {
            None => member_of(message_value(m), "tool_calls"@) is None,
            Some(calls) => member_of(message_value(m), "tool_calls"@) matches Some(
                JsonView::Array(values),
            ) && values.len() == calls.len() && (0 <= k < calls.len() ==> member_of(
                values[k],
                "id"@,
            ) == Some(JsonView::Text(calls[k].id)) && member_of(values[k], "name"@) == Some(
                JsonView::Text(calls[k].name),
            ) && member_of(values[k], "arguments"@) == Some(JsonView::Text(calls[k].arguments))),
        },
{
    reveal_strlit("role");
    reveal_strlit("content");
    reveal_strlit("tool_calls");
    reveal_strlit("tool_call_id");
    reveal_strlit("id");
    reveal_strlit("name");
    reveal_strlit("arguments");
    assert("role"@.len() == 4);
    assert("content"@.len() == 7);
    assert("tool_calls"@.len() == 10);
    assert("tool_call_id"@.len() == 12);
    assert("id"@.len() == 2);
    assert("name"@.len() == 4);
    assert("arguments"@.len() == 9);
    assert("role"@[0] != "name"@[0]);
    let members = message_value(m)->Object_0;
    lemma_member_at(members, 0);
    lemma_member_at(members, 1);
    a_member_is_the_first_of_its_name(members, "tool_calls"@);
    a_member_is_the_first_of_its_name(members, "tool_call_id"@);
    if let Some(calls) = m.tool_calls {
        lemma_member_at(members, 2);
        if m.tool_call_id is Some {
            lemma_member_at(members, 3);
        }
        if 0 <= k < calls.len() {
            let parts = call_value(calls[k])->Object_0;
            lemma_member_at(parts, 0);
            lemma_member_at(parts, 1);
            lemma_member_at(parts, 2);
        }
    } else if m.tool_call_id is Some {
        lemma_member_at(members, 2);
    }
}

/// A request names the model, carries every message in its order, asks for a stream, and gives
/// the temperature and the tools where there are any.
pub proof fn a_request_carries_the_conversation(
    model: Seq<char>,
    temperature: Option<Seq<char>>,
    messages: Seq<MessageView>,
    tools: Option<JsonView>,
    k: int,
)
    ensures
        ({
            let request = request_value(model, temperature, messages, tools);
            &&& member_of(request, "model"@) == Some(JsonView::Text(model))
            &&& member_of(request, "messages"@) matches Some(JsonView::Array(values))
                && values.len() == messages.len() && (0 <= k < messages.len() ==> values[k]
                == message_value(messages[k]))
            &&& member_of(request, "stream"@) == Some(JsonView::Bool(true))
            &&& member_of(request, "temperature"@) == (match temperature {
                Some(t) => Some(JsonView::Number(t)),
                None => None,
            })
            &&& member_of(request, "tools"@) == tools
        }),
{
    reveal_strlit("model");
    reveal_strlit("messages");
    reveal_strlit("stream");
    reveal_strlit("temperature");
    reveal_strlit("tools");
    assert("model"@.len() == 5);
    assert("messages"@.len() == 8);
    assert("stream"@.len() == 6);
    assert("temperature"@.len() == 11);
    assert("tools"@.len() == 5);
    assert("model"@[0] != "tools"@[0]);
    let members = request_value(model, temperature, messages, tools)->Object_0;
    lemma_member_at(members, 0);
    lemma_member_at(members, 1);
    lemma_member_at(members, 2);
    a_member_is_the_first_of_its_name(members, "temperature"@);
    a_member_is_the_first_of_its_name(members, "tools"@);
    if temperature is Some {
        lemma_member_at(members, 3);
        if tools is Some {
            lemma_member_at(members, 4);
        }
    } else if tools is Some {
        lemma_member_at(members, 3);
    }
}

/// A refusal of the provider is told by its own code for a full context window, and shows the
/// status and the start of the body otherwise.
pub proof fn refusals_show_their_status(status: u16, exceeded: bool, body: Seq<char>)
    ensures
        exceeded <==> http_error(status, exceeded, body).code == ErrorCode::ContextWindowExceeded,
        !exceeded ==> http_error(status, exceeded, body).code == ErrorCode::Internal,
        !exceeded && body.len() <= 200 ==> http_error(status, exceeded, body).message
            == "上游 API 返回 HTTP "@ + decimal(status as nat) + ": "@ + body,
        !exceeded && body.len() > 200 ==> http_error(status, exceeded, body).message
            == "上游 API 返回 HTTP "@ + decimal(status as nat) + ": "@ + body.subrange(0, 200),
        exceeded ==> http_error(status, exceeded, body).message
            == "上游拒绝：上下文超限（HTTP "@ + decimal(status as nat) + "）"@,
{
}

/// The messages of a conversation say who speaks, and what they answer.
pub proof fn messages_say_who_speaks(id: Seq<char>, text: Seq<char>, calls: Seq<CallView>)
    ensures
        calls_message(calls).role == "assistant"@,
        calls_message(calls).tool_calls == Some(calls),
        calls_message(calls).tool_call_id is None,
        result_message(id, text).role == "tool"@,
        result_message(id, text).content == text,
        result_message(id, text).tool_call_id == Some(id),
        result_message(id, text).tool_calls is None,
        plain_message(id, text).role == id,
        plain_message(id, text).content == text,
        plain_message(id, text).tool_calls is None,
        plain_message(id, text).tool_call_id is None,
{
}

/// A plain chunk is read: with its text, its finish reason and its pieces of calls.
pub proof fn a_plain_chunk_is_read(
    j: JsonView,
    choice: JsonView,
    delta: JsonView,
    text: Seq<char>,
    pieces: Seq<JsonView>,
    fs: Seq<FragmentView>,
)
    requires
        j is Object && choice is Object && delta is Object,
        member_of(j, "choices"@) == Some(JsonView::Array(seq![choice])),
        member_of(choice, "delta"@) == Some(delta),
        member_of(choice, "finish_reason"@) is None || member_of(choice, "finish_reason"@) == Some(
            JsonView::Null,
        ),
        member_of(delta, "content"@) == Some(JsonView::Text(text)),
        member_of(delta, "tool_calls"@) == Some(JsonView::Array(pieces)),
        fragments_of(pieces) == Ok::<Seq<FragmentView>, ErrorView>(fs),
    ensures
        delta_of(j) matches Ok(d) && d.content == Some(text) && d.finish_reason is None
            && d.tool_calls == fs,
{
    reveal_with_fuel(first_choice, 2);
    assert(seq![choice].drop_last() =~= Seq::<JsonView>::empty());
    assert(seq![choice].last() == choice);
}

/// A chunk without choices adds nothing but its token count; one that is no chunk breaks the
/// stream.
pub proof fn other_chunks_are_read(j: JsonView)
    ensures
        j is Object && member_of(j, "choices"@) is None ==> (delta_of(j) matches Ok(d)
            && d.content is None && d.finish_reason is None && d.tool_calls.len() == 0),
        j is Object && member_of(j, "choices"@) == Some(JsonView::Array(Seq::empty())) ==> (
        delta_of(j) matches Ok(d) && d.content is None && d.tool_calls.len() == 0),
        j is Null || j is Bool || j is Number || j is Text ==> delta_of(j) is Err
            && delta_of(j)->Err_0.code == ErrorCode::ModelStreamBroken,
{
}

/// A plain piece of a call is read: with its index, its id, its name and its arguments.
pub proof fn a_plain_piece_is_read(
    j: JsonView,
    function: JsonView,
    index: nat,
    id: Seq<char>,
    name: Seq<char>,
    arguments: Seq<char>,
)
    requires
        j is Object && function is Object,
        index <= u64::MAX,
        member_of(j, "index"@) == Some(JsonView::Number(decimal(index))),
        member_of(j, "id"@) == Some(JsonView::Text(id)),
        member_of(j, "function"@) == Some(function),
        member_of(function, "name"@) == Some(JsonView::Text(name)),
        member_of(function, "arguments"@) == Some(JsonView::Text(arguments)),
    ensures
        fragment_of(j) matches Ok(f) && f.index == index && f.id == Some(id) && f.name == Some(name)
            && f.arguments == Some(arguments) && f.has_function,
{
    a_written_number_is_read_back(index);
}

/// Pieces are read one after another; one that is none breaks them all.
pub proof fn pieces_are_read_in_order(items: Seq<JsonView>, item: JsonView)
    ensures
        fragments_of(Seq::empty()) == Ok::<Seq<FragmentView>, ErrorView>(Seq::empty()),
        fragments_of(items) is Ok && fragment_of(item) is Ok ==> fragments_of(items.push(item))
            == Ok::<Seq<FragmentView>, ErrorView>(
            fragments_of(items)->Ok_0.push(fragment_of(item)->Ok_0),
        ),
        fragments_of(items) is Err ==> fragments_of(items.push(item)) is Err,
        fragment_of(item) is Err ==> fragments_of(items.push(item)) is Err,
{
    assert(items.push(item).drop_last() =~= items);
}

/// What is written as a list is read by the places of its items.
pub proof fn lists_are_read_by_place(items: Seq<JsonView>, name: Seq<char>, at: int)
    requires
        0 <= at,
    ensures
        at < items.len() ==> part_of(JsonView::Array(items), name, at) == Some(items[at]),
        at >= items.len() ==> part_of(JsonView::Array(items), name, at) is None,
{
}

/// A piece that is written as a list is read by its places: the index, the id and the function,
/// and of that the name and the arguments.
pub proof fn a_listed_piece_is_read(
    index: nat,
    id: Seq<char>,
    name: Seq<char>,
    arguments: Seq<char>,
)
    requires
        index <= u64::MAX,
    ensures
        fragment_of(
            JsonView::Array(
                seq![
                    JsonView::Number(decimal(index)),
                    JsonView::Text(id),
                    JsonView::Array(seq![JsonView::Text(name), JsonView::Text(arguments)]),
                ],
            ),
        ) matches Ok(f) && f.index == index && f.id == Some(id) && f.name == Some(name)
            && f.arguments == Some(arguments),
{
    a_written_number_is_read_back(index);
}

/// A full context window is told by the code in the error of the body.
pub proof fn how_a_full_window_is_told(j: JsonView, e: JsonView, code: Seq<char>)
    ensures
        member_of(j, "error"@) is None ==> !names_context_exceeded(j),
        member_of(j, "error"@) == Some(e) && member_of(e, "code"@) == Some(
            JsonView::Text("context_length_exceeded"@),
        ) ==> names_context_exceeded(j),
        member_of(j, "error"@) == Some(e) && member_of(e, "code"@) == Some(JsonView::Text(code))
            && code != "context_length_exceeded"@ ==> !names_context_exceeded(j),
{
}

/// A reply has the finish reason and the token count of its stream.
pub proof fn a_reply_tells_its_stream(s: StreamView, r: ChatReply)
    requires
        reply_for(s, r),
    ensures
        r.text@ == s.text,
        s.finish_reason is Some ==> r.finish_reason is Some && r.finish_reason->0@
            == s.finish_reason->0,
        s.finish_reason is None ==> r.finish_reason is None,
        s.usage is Some ==> r.usage is Some && r.usage->0.total_tokens == s.usage->0,
        s.usage is None ==> r.usage is None,
        s.calls == Map::<nat, CallView>::empty() ==> r.tool_calls@.len() == 0,
        truncated_error().code == ErrorCode::ModelStreamBroken,
{
    if s.calls == Map::<nat, CallView>::empty() && r.tool_calls@.len() > 0 {
        let calls = calls_view(r.tool_calls@);
        let indices = choose|indices: Seq<nat>| in_index_order(s.calls, indices, calls);
        assert(indices.contains(indices[0]));
    }
}

/// A line of a stream: what follows `data:`, without the white before it, is a chunk, or the
/// end where it is `[DONE]`; any other line says nothing.
pub proof fn what_a_line_says(line: Seq<char>, rest: Seq<char>)
    ensures
        !has_prefix(line, "data:"@) ==> sse_line(line) is Ignore,
        trimmed_start(rest) == "[DONE]"@ ==> sse_line("data:"@ + rest) is Done,
        trimmed_start(rest) != "[DONE]"@ ==> sse_line("data:"@ + rest) == SseView::Data(
            trimmed_start(rest),
        ),
{
    let s = "data:"@ + rest;
    let n = "data:"@.len() as int;
    assert(s.subrange(0, n) =~= "data:"@);
    assert(s.subrange(n, s.len() as int) =~= rest);
}

/// Messages and calls are seen one by one, in their order.
pub proof fn messages_are_seen_in_order(
    messages: Seq<ChatMessage>,
    calls: Seq<ToolCallRequest>,
    i: int,
)
    ensures
        messages_view(messages).len() == messages.len(),
        0 <= i < messages.len() ==> messages_view(messages)[i] == messages[i]@,
        calls_view(calls).len() == calls.len(),
        0 <= i < calls.len() ==> calls_view(calls)[i] == calls[i]@ && calls_view(calls)[i].id
            == calls[i].id@ && calls_view(calls)[i].name == calls[i].name@ && calls_view(
            calls,
        )[i].arguments == calls[i].arguments@,
        0 <= i < messages.len() ==> messages[i]@.role == messages[i].role@
            && messages[i]@.content == messages[i].content@,
{
}

} // verus!

//! JSON values: the tree that the library works on, its text, and reading it.
use serde_json::Value;
use vstd::prelude::*;
use crate::text::{
    all_digits, concat3, decimal, decimal_of, digits_value, parse_u64, same_text, views,
};

verus! {

broadcast use vstd::string::group_string_axioms;

/// A JSON value. A number is held as the text that it prints as; the members
/// of an object stand in the order in which they are printed.
#[derive(Debug, PartialEq, Eq)]
pub enum Json {
    Null,
    Bool(bool),
    Number(String),
    Text(String),
    Array(Vec<Json>),
    Object(Vec<(String, Json)>),
}

/// The mathematical value of a [`Json`].
#[verifier::ext_equal]
pub enum JsonView {
    Null,
    Bool(bool),
    Number(Seq<char>),
    Text(Seq<char>),
    Array(Seq<JsonView>),
    Object(Seq<(Seq<char>, JsonView)>),
}

impl View for Json {
    type V = JsonView;

    open spec fn view(&self) -> JsonView
        decreases self,
    {
        match self {
            Json::Null => JsonView::Null,
            Json::Bool(b) => JsonView::Bool(*b),
            Json::Number(t) => JsonView::Number(t@),
            Json::Text(t) => JsonView::Text(t@),
            Json::Array(items) => JsonView::Array(
                Seq::new(
                    items@.len(),
                    |i: int|
                        if 0 <= i < items@.len() {
                            items@[i].view()
                        } else {
                            JsonView::Null
                        },
                ),
            ),
            Json::Object(members) => JsonView::Object(
                Seq::new(members@.len(), |i: int| members@[i].0@).zip_with(
                    Seq::new(
                        members@.len(),
                        |i: int|
                            if 0 <= i < members@.len() {
                                members@[i].1.view()
                            } else {
                                JsonView::Null
                            },
                    ),
                ),
            ),
        }
    }
}

/// The values of a list.
pub open spec fn items_view(items: Seq<Json>) -> Seq<JsonView> {
    items.map_values(|j: Json| j@)
}

/// The members of an object.
pub open spec fn members_view(members: Seq<(String, Json)>) -> Seq<(Seq<char>, JsonView)> {
    members.map_values(|m: (String, Json)| (m.0@, m.1@))
}

pub proof fn lemma_array_view(items: Vec<Json>)
    ensures
        Json::Array(items)@ == JsonView::Array(items_view(items@)),
{
    assert(Json::Array(items)@->Array_0 =~= items_view(items@));
}

pub proof fn lemma_object_view(members: Vec<(String, Json)>)
    ensures
        Json::Object(members)@ == JsonView::Object(members_view(members@)),
{
    let a = Json::Object(members)@->Object_0;
    let b = members_view(members@);
    assert(a.len() == b.len());
    assert forall|i: int| 0 <= i < a.len() implies a[i] == b[i] by {
        assert(a[i].0 == members@[i].0@);
        assert(a[i].1 == members@[i].1@);
    }
    assert(a =~= b);
}

impl Clone for Json {
    fn clone(&self) -> (r: Json)
        ensures
            r@ == self@,
    {
        self.copy()
    }
}

impl Json {
    fn copy(&self) -> (r: Json)
        ensures
            r@ == self@,
        decreases self,
    {
        match self {
            Json::Null => Json::Null,
            Json::Bool(b) => Json::Bool(*b),
            Json::Number(t) => Json::Number(t.clone()),
            Json::Text(t) => Json::Text(t.clone()),
            Json::Array(items) => {
                let mut copy: Vec<Json> = Vec::new();
                let mut i: usize = 0;
                while i < items.len()
                    invariant
                        i <= items@.len(),
                        *self == Json::Array(*items),
                        items_view(copy@) == items_view(items@).take(i as int),
                    decreases items@.len() - i,
                {
                    let ghost before = copy@;
                    assert(decreases_to!(*self => self->Array_0));
                    let item = items[i].copy();
                    copy.push(item);
                    assert(items_view(copy@) =~= items_view(before).push(item@));
                    i = i + 1;
                    assert(items_view(copy@) =~= items_view(items@).take(i as int));
                }
                proof {
                    assert(items_view(copy@) =~= items_view(items@));
                    lemma_array_view(*items);
                    lemma_array_view(copy);
                }
                Json::Array(copy)
            },
            Json::Object(members) => {
                let mut copy: Vec<(String, Json)> = Vec::new();
                let mut i: usize = 0;
                while i < members.len()
                    invariant
                        i <= members@.len(),
                        *self == Json::Object(*members),
                        members_view(copy@) == members_view(members@).take(i as int),
                    decreases members@.len() - i,
                {
                    let ghost before = copy@;
                    let name = members[i].0.clone();
                    assert(decreases_to!(*self => self->Object_0));
                    let value = members[i].1.copy();
                    copy.push((name, value));
                    assert(members_view(copy@) =~= members_view(before).push((name@, value@)));
                    i = i + 1;
                    assert(members_view(copy@) =~= members_view(members@).take(i as int));
                }
                proof {
                    assert(members_view(copy@) =~= members_view(members@));
                    lemma_object_view(*members);
                    lemma_object_view(copy);
                }
                Json::Object(copy)
            },
        }
    }
}

// ---------------------------------------------------------------------------
// Reading JSON text
// ---------------------------------------------------------------------------

/// The outermost value of a JSON text; the values inside it are JSON texts again.
#[derive(Debug)]
pub enum JsonNode {
    Null,
    Bool(bool),
    Number(String),
    Text(String),
    Array(Vec<String>),
    Object(Vec<(String, String)>),
}

#[verifier::ext_equal]
pub enum JsonNodeView {
    Null,
    Bool(bool),
    Number(Seq<char>),
    Text(Seq<char>),
    Array(Seq<Seq<char>>),
    Object(Seq<(Seq<char>, Seq<char>)>),
}

impl View for JsonNode {
    type V = JsonNodeView;

    open spec fn view(&self) -> JsonNodeView {
        match self {
            JsonNode::Null => JsonNodeView::Null,
            JsonNode::Bool(b) => JsonNodeView::Bool(*b),
            JsonNode::Number(t) => JsonNodeView::Number(t@),
            JsonNode::Text(t) => JsonNodeView::Text(t@),
            JsonNode::Array(items) => JsonNodeView::Array(
                items@.map_values(|t: String| t@),
            ),
            JsonNode::Object(members) => JsonNodeView::Object(
                members@.map_values(|m: (String, String)| (m.0@, m.1@)),
            ),
        }
    }
}

/// What `serde_json::from_str` reads as a `serde_json::Value`, one level deep:
/// the inner values are given by their own printed form. On refused text, the
/// printed form of the error.
pub uninterp spec fn json_node_of(text: Seq<char>) -> Result<JsonNodeView, Seq<char>>;

/// `serde_json::from_str` to a `serde_json::Value`, with each value inside an
/// array or an object printed by `Value`'s `Display`. Claimed: the outcome is a
/// function of the text alone. The feature `float_roundtrip` of `serde_json` is on: a
/// float reads back from its printed form as the same float, so reading an inner value
/// again changes nothing in it.
#[verifier::external_body]
fn json_node(text: &str) -> (r: Result<JsonNode, String>)
    ensures
        match r {
            Ok(node) => json_node_of(text@) == Ok::<JsonNodeView, Seq<char>>(node@),
            Err(e) => json_node_of(text@) == Err::<JsonNodeView, Seq<char>>(e@),
        },
{
    match serde_json::from_str::<Value>(text) {
        Ok(Value::Null) => Ok(JsonNode::Null),
        Ok(Value::Bool(b)) => Ok(JsonNode::Bool(b)),
        Ok(Value::Number(n)) => Ok(JsonNode::Number(n.to_string())),
        Ok(Value::String(t)) => Ok(JsonNode::Text(t)),
        Ok(Value::Array(a)) => Ok(JsonNode::Array(a.iter().map(|v| v.to_string()).collect())),
        Ok(Value::Object(m)) => {
            Ok(JsonNode::Object(m.into_iter().map(|(k, v)| (k, v.to_string())).collect()))
        },
        Err(e) => Err(e.to_string()),
    }
}

/// How deep a JSON text may nest: the limit that `serde_json` puts on its input.
pub const MAX_JSON_DEPTH: u64 = 128;

pub open spec fn too_deep() -> Seq<char> {
    "recursion limit exceeded"@
}

/// The tree of a JSON text, or the error that comes first.
pub open spec fn json_tree(text: Seq<char>, depth: nat) -> Result<JsonView, Seq<char>>
    decreases depth, 0nat,
{
    match json_node_of(text) {
        Err(e) => Err(e),
        Ok(node) => match node {
            JsonNodeView::Null => Ok(JsonView::Null),
            JsonNodeView::Bool(b) => Ok(JsonView::Bool(b)),
            JsonNodeView::Number(t) => Ok(JsonView::Number(t)),
            JsonNodeView::Text(t) => Ok(JsonView::Text(t)),
            JsonNodeView::Array(items) => if depth == 0 {
                Err(too_deep())
            } else {
                match json_trees(items, (depth - 1) as nat) {
                    Err(e) => Err(e),
                    Ok(trees) => Ok(JsonView::Array(trees)),
                }
            },
            JsonNodeView::Object(members) => if depth == 0 {
                Err(too_deep())
            } else {
                match json_members(members, (depth - 1) as nat) {
                    Err(e) => Err(e),
                    Ok(trees) => Ok(JsonView::Object(trees)),
                }
            },
        },
    }
}

pub open spec fn json_trees(items: Seq<Seq<char>>, depth: nat) -> Result<Seq<JsonView>, Seq<char>>
    decreases depth, items.len(),
{
    if items.len() == 0 {
        Ok(Seq::empty())
    } else {
        match json_trees(items.drop_last(), depth) {
            Err(e) => Err(e),
            Ok(trees) => match json_tree(items.last(), depth) {
                Err(e) => Err(e),
                Ok(tree) => Ok(trees.push(tree)),
            },
        }
    }
}

pub open spec fn json_members(members: Seq<(Seq<char>, Seq<char>)>, depth: nat) -> Result<
    Seq<(Seq<char>, JsonView)>,
    Seq<char>,
>
    decreases depth, members.len(),
{
    if members.len() == 0 {
        Ok(Seq::empty())
    } else {
        match json_members(members.drop_last(), depth) {
            Err(e) => Err(e),
            Ok(trees) => match json_tree(members.last().1, depth) {
                Err(e) => Err(e),
                Ok(tree) => Ok(trees.push((members.last().0, tree))),
            },
        }
    }
}

/// What [`Json::parse`] makes of a text.
pub open spec fn json_document(text: Seq<char>) -> Result<JsonView, Seq<char>> {
    json_tree(text, MAX_JSON_DEPTH as nat)
}

proof fn lemma_trees_error(items: Seq<Seq<char>>, k: int, depth: nat)
    requires
        0 <= k <= items.len(),
        json_trees(items.take(k), depth) is Err,
    ensures
        json_trees(items, depth) == json_trees(items.take(k), depth),
    decreases items.len() - k,
{
    if k < items.len() {
        assert(items.drop_last().take(k) =~= items.take(k));
        lemma_trees_error(items.drop_last(), k, depth);
    } else {
        assert(items.take(k) =~= items);
    }
}

proof fn lemma_members_error(members: Seq<(Seq<char>, Seq<char>)>, k: int, depth: nat)
    requires
        0 <= k <= members.len(),
        json_members(members.take(k), depth) is Err,
    ensures
        json_members(members, depth) == json_members(members.take(k), depth),
    decreases members.len() - k,
{
    if k < members.len() {
        assert(members.drop_last().take(k) =~= members.take(k));
        lemma_members_error(members.drop_last(), k, depth);
    } else {
        assert(members.take(k) =~= members);
    }
}

fn read_tree(text: &str, depth: u64) -> (r: Result<Json, String>)
    ensures
        match r {
            Ok(tree) => json_tree(text@, depth as nat) == Ok::<JsonView, Seq<char>>(tree@),
            Err(e) => json_tree(text@, depth as nat) == Err::<JsonView, Seq<char>>(e@),
        },
    decreases depth, 0nat,
{
    match json_node(text) {
        Err(e) => Err(e),
        Ok(JsonNode::Null) => Ok(Json::Null),
        Ok(JsonNode::Bool(b)) => Ok(Json::Bool(b)),
        Ok(JsonNode::Number(t)) => Ok(Json::Number(t)),
        Ok(JsonNode::Text(t)) => Ok(Json::Text(t)),
        Ok(JsonNode::Array(items)) => {
            if depth == 0 {
                return Err("recursion limit exceeded".to_string());
            }
            let ghost texts = items@.map_values(|t: String| t@);
            let mut trees: Vec<Json> = Vec::new();
            let mut i: usize = 0;
            assert(texts.take(0) =~= Seq::<Seq<char>>::empty());
            assert(items_view(trees@) =~= Seq::<JsonView>::empty());
            while i < items.len()
                invariant
                    i <= items@.len(),
                    depth > 0,
                    texts == items@.map_values(|t: String| t@),
                    json_node_of(text@) == Ok::<JsonNodeView, Seq<char>>(JsonNodeView::Array(texts)),
                    json_trees(texts.take(i as int), (depth - 1) as nat) == Ok::<
                        Seq<JsonView>,
                        Seq<char>,
                    >(items_view(trees@)),
                decreases items@.len() - i,
            {
                let ghost before = trees@;
                proof {
                    assert(texts.take(i + 1).drop_last() =~= texts.take(i as int));
                    assert(texts.take(i + 1).last() == items@[i as int]@);
                }
                match read_tree(&items[i], depth - 1) {
                    Err(e) => {
                        proof {
                            lemma_trees_error(texts, i + 1, (depth - 1) as nat);
                        }
                        return Err(e);
                    },
                    Ok(tree) => {
                        trees.push(tree);
                        assert(items_view(trees@) =~= items_view(before).push(tree@));
                    },
                }
                i = i + 1;
            }
            proof {
                assert(texts.take(i as int) =~= texts);
                lemma_array_view(trees);
            }
            Ok(Json::Array(trees))
        },
        Ok(JsonNode::Object(members)) => {
            if depth == 0 {
                return Err("recursion limit exceeded".to_string());
            }
            let ghost texts = members@.map_values(|m: (String, String)| (m.0@, m.1@));
            let mut trees: Vec<(String, Json)> = Vec::new();
            let mut i: usize = 0;
            assert(texts.take(0) =~= Seq::<(Seq<char>, Seq<char>)>::empty());
            assert(members_view(trees@) =~= Seq::<(Seq<char>, JsonView)>::empty());
            while i < members.len()
                invariant
                    i <= members@.len(),
                    depth > 0,
                    texts == members@.map_values(|m: (String, String)| (m.0@, m.1@)),
                    json_node_of(text@) == Ok::<JsonNodeView, Seq<char>>(JsonNodeView::Object(texts)),
                    json_members(texts.take(i as int), (depth - 1) as nat) == Ok::<
                        Seq<(Seq<char>, JsonView)>,
                        Seq<char>,
                    >(members_view(trees@)),
                decreases members@.len() - i,
            {
                let ghost before = trees@;
                proof {
                    assert(texts.take(i + 1).drop_last() =~= texts.take(i as int));
                    assert(texts.take(i + 1).last() == (members@[i as int].0@, members@[i as int].1@));
                }
                match read_tree(&members[i].1, depth - 1) {
                    Err(e) => {
                        proof {
                            lemma_members_error(texts, i + 1, (depth - 1) as nat);
                        }
                        return Err(e);
                    },
                    Ok(tree) => {
                        let name = members[i].0.clone();
                        trees.push((name, tree));
                        assert(members_view(trees@) =~= members_view(before).push((name@, tree@)));
                    },
                }
                i = i + 1;
            }
            proof {
                assert(texts.take(i as int) =~= texts);
                lemma_object_view(trees);
            }
            Ok(Json::Object(trees))
        },
    }
}

// ---------------------------------------------------------------------------
// Printing JSON text
// ---------------------------------------------------------------------------

/// A digit of a hexadecimal number.
pub open spec fn hex_digit(d: int) -> char {
    if d < 10 {
        (('0' as u32) + d) as char
    } else {
        (('a' as u32) + (d - 10)) as char
    }
}

/// A character inside a JSON string. Quotes, backslashes and control characters are
/// escaped, the commonest of them by a letter.
pub open spec fn json_char(c: char) -> Seq<char> {
    if c == '"' || c == '\\' {
        seq!['\\', c]
    } else if c == '\u{8}' {
        seq!['\\', 'b']
    } else if c == '\t' {
        seq!['\\', 't']
    } else if c == '\n' {
        seq!['\\', 'n']
    } else if c == '\u{c}' {
        seq!['\\', 'f']
    } else if c == '\r' {
        seq!['\\', 'r']
    } else if (c as u32) < 32 {
        seq!['\\', 'u', '0', '0', hex_digit(c as int / 16), hex_digit(c as int % 16)]
    } else {
        seq![c]
    }
}

pub open spec fn json_chars(text: Seq<char>) -> Seq<char>
    decreases text.len(),
{
    if text.len() == 0 {
        Seq::empty()
    } else {
        json_chars(text.drop_last()) + json_char(text.last())
    }
}

/// A text as a JSON string: in quotes, with its escapes.
pub open spec fn json_quoted(text: Seq<char>) -> Seq<char> {
    seq!['"'] + json_chars(text) + seq!['"']
}

/// `Display` of a `serde_json::Value` that holds a string. Claimed: the text comes in
/// quotes, with the escapes that `json_char` gives, and no others.
#[verifier::external_body]
pub(crate) fn json_quote(text: &str) -> (r: String)
    ensures
        r@ == json_quoted(text@),
{
    serde_json::Value::from(text).to_string()
}

/// The compact text of a value.
pub open spec fn json_text(j: JsonView) -> Seq<char>
    decreases j, 1nat, 0nat,
{
    match j {
        JsonView::Null => "null"@,
        JsonView::Bool(b) => if b {
            "true"@
        } else {
            "false"@
        },
        JsonView::Number(t) => t,
        JsonView::Text(t) => json_quoted(t),
        JsonView::Array(items) => "["@ + items_text(j, items.len()) + "]"@,
        JsonView::Object(members) => "{"@ + members_text(j, members.len()) + "}"@,
    }
}

/// The texts of the first `k` items of an array, with commas between them.
pub open spec fn items_text(j: JsonView, k: nat) -> Seq<char>
    decreases j, 0nat, k,
    when j is Array && k <= j->Array_0.len()
{
    if k == 0 {
        Seq::empty()
    } else if k == 1 {
        json_text(j->Array_0[0])
    } else {
        items_text(j, (k - 1) as nat) + ","@ + json_text(j->Array_0[k - 1])
    }
}

/// The texts of the first `k` members of an object, with commas between them.
pub open spec fn members_text(j: JsonView, k: nat) -> Seq<char>
    decreases j, 0nat, k,
    when j is Object && k <= j->Object_0.len()
{
    if k == 0 {
        Seq::empty()
    } else if k == 1 {
        member_text(j->Object_0[0].0, json_text(j->Object_0[0].1))
    } else {
        members_text(j, (k - 1) as nat) + ","@ + member_text(
            j->Object_0[k - 1].0,
            json_text(j->Object_0[k - 1].1),
        )
    }
}

pub open spec fn member_text(name: Seq<char>, value: Seq<char>) -> Seq<char> {
    json_quoted(name) + ":"@ + value
}

// ---------------------------------------------------------------------------
// Reading a tree
// ---------------------------------------------------------------------------

/// The value of the first member called `name`.
pub open spec fn find_member(members: Seq<(Seq<char>, JsonView)>, name: Seq<char>) -> Option<
    JsonView,
>
    decreases members.len(),
{
    if members.len() == 0 {
        None
    } else if members[0].0 == name {
        Some(members[0].1)
    } else {
        find_member(members.subrange(1, members.len() as int), name)
    }
}

/// The member `name` of an object; nothing of any other value.
pub open spec fn member_of(j: JsonView, name: Seq<char>) -> Option<JsonView> {
    match j {
        JsonView::Object(members) => find_member(members, name),
        _ => None,
    }
}

/// The number of a JSON value that is an unsigned integer of at most 64 bits.
pub open spec fn uint_of(j: JsonView) -> Option<nat> {
    match j {
        JsonView::Number(t) => if t.len() > 0 && all_digits(t) && digits_value(t) <= u64::MAX {
            Some(digits_value(t))
        } else {
            None
        },
        _ => None,
    }
}

impl Json {
    /// Reads one JSON text.
    pub fn parse(text: &str) -> (r: Result<Json, String>)
        ensures
            match r {
                Ok(tree) => json_document(text@) == Ok::<JsonView, Seq<char>>(tree@),
                Err(e) => json_document(text@) == Err::<JsonView, Seq<char>>(e@),
            },
    {
        read_tree(text, MAX_JSON_DEPTH)
    }

    /// The compact text of the value.
    pub fn render(&self) -> (r: String)
        ensures
            r@ == json_text(self@),
        decreases self,
    {
        match self {
            Json::Null => "null".to_string(),
            Json::Bool(b) => if *b {
                "true".to_string()
            } else {
                "false".to_string()
            },
            Json::Number(t) => t.clone(),
            Json::Text(t) => json_quote(t),
            Json::Array(items) => {
                let mut r = String::new();
                let mut i: usize = 0;
                while i < items.len()
                    invariant
                        i <= items@.len(),
                        *self == Json::Array(*items),
                        r@ == items_text(self@, i as nat),
                    decreases items@.len() - i,
                {
                    if i > 0 {
                        r.push_str(",");
                    }
                    let item = items[i].render();
                    r.push_str(&item);
                    proof {
                        assert(self@->Array_0[i as int] == items@[i as int]@);
                        assert(r@ =~= items_text(self@, (i + 1) as nat));
                    }
                    i = i + 1;
                }
                concat3("[", &r, "]")
            },
            Json::Object(members) => {
                let mut r = String::new();
                let mut i: usize = 0;
                while i < members.len()
                    invariant
                        i <= members@.len(),
                        *self == Json::Object(*members),
                        r@ == members_text(self@, i as nat),
                    decreases members@.len() - i,
                {
                    if i > 0 {
                        r.push_str(",");
                    }
                    let value = members[i].1.render();
                    let name = json_quote(&members[i].0);
                    let member = concat3(&name, ":", &value);
                    r.push_str(&member);
                    proof {
                        assert(self@->Object_0[i as int] == (
                            members@[i as int].0@,
                            members@[i as int].1@,
                        ));
                        assert(r@ =~= members_text(self@, (i + 1) as nat));
                    }
                    i = i + 1;
                }
                concat3("{", &r, "}")
            },
        }
    }

    /// The member `name` of an object.
    pub fn get(&self, name: &str) -> (r: Option<&Json>)
        ensures
            r is Some <==> member_of(self@, name@) is Some,
            r matches Some(v) ==> member_of(self@, name@) == Some(v@),
    {
        match self {
            Json::Object(members) => {
                let ghost all = members_view(members@);
                proof {
                    lemma_object_view(*members);
                    assert(all.subrange(0, all.len() as int) =~= all);
                }
                let mut i: usize = 0;
                while i < members.len()
                    invariant
                        i <= members@.len(),
                        all == members_view(members@),
                        self@ == JsonView::Object(all),
                        find_member(all, name@) == find_member(
                            all.subrange(i as int, all.len() as int),
                            name@,
                        ),
                    decreases members@.len() - i,
                {
                    proof {
                        let rest = all.subrange(i as int, all.len() as int);
                        assert(rest[0] == (members@[i as int].0@, members@[i as int].1@));
                        assert(rest.subrange(1, rest.len() as int) =~= all.subrange(
                            i + 1,
                            all.len() as int,
                        ));
                    }
                    if same_text(&members[i].0, name) {
                        return Some(&members[i].1);
                    }
                    i = i + 1;
                }
                None
            },
            _ => None,
        }
    }

    pub fn as_text(&self) -> (r: Option<&String>)
        ensures
            r is Some <==> self@ is Text,
            r matches Some(t) ==> self@ == JsonView::Text(t@),
    {
        match self {
            Json::Text(t) => Some(t),
            _ => None,
        }
    }

    pub fn as_u64(&self) -> (r: Option<u64>)
        ensures
            r is Some <==> uint_of(self@) is Some,
            r matches Some(n) ==> uint_of(self@) == Some(n as nat),
    {
        match self {
            Json::Number(t) => {
                let chars = crate::text::chars_of(t);
                if chars.len() > 0 && chars[0] == '+' {
                    assert(!crate::text::is_digit(t@[0]));
                    return None;
                }
                parse_u64(t)
            },
            _ => None,
        }
    }

    /// The texts among the items of an array.
    pub fn texts(&self) -> (r: Vec<String>)
        ensures
            views(r@) == texts_of(self@),
    {
        let mut r: Vec<String> = Vec::new();
        assert(views(r@) =~= Seq::empty());
        match self {
            Json::Array(items) => {
                let ghost all = items_view(items@);
                proof {
                    lemma_array_view(*items);
                    assert(all.take(0) =~= Seq::empty());
                }
                let mut i: usize = 0;
                while i < items.len()
                    invariant
                        i <= items@.len(),
                        all == items_view(items@),
                        views(r@) == texts_in(all.take(i as int)),
                    decreases items@.len() - i,
                {
                    let ghost before = r@;
                    let ghost next = all.take(i + 1);
                    assert(next.drop_last() =~= all.take(i as int));
                    assert(next.last() == items@[i as int]@);
                    match &items[i] {
                        Json::Text(t) => {
                            r.push(t.clone());
                            assert(views(r@) =~= views(before).push(t@));
                        },
                        _ => {},
                    }
                    i = i + 1;
                }
                assert(all.take(all.len() as int) =~= all);
                r
            },
            _ => r,
        }
    }
}

/// The texts in a list of values, in order.
pub open spec fn texts_in(items: Seq<JsonView>) -> Seq<Seq<char>>
    decreases items.len(),
{
    if items.len() == 0 {
        Seq::empty()
    } else {
        match items.last() {
            JsonView::Text(t) => texts_in(items.drop_last()).push(t),
            _ => texts_in(items.drop_last()),
        }
    }
}

/// The texts among the items of an array; none where the value is no array.
pub open spec fn texts_of(j: JsonView) -> Seq<Seq<char>> {
    match j {
        JsonView::Array(items) => texts_in(items),
        _ => Seq::empty(),
    }
}

// ---------------------------------------------------------------------------
// Building a tree
// ---------------------------------------------------------------------------

pub fn no_members() -> (r: Vec<(String, Json)>)
    ensures
        members_view(r@) == Seq::<(Seq<char>, JsonView)>::empty(),
{
    let r: Vec<(String, Json)> = Vec::new();
    assert(members_view(r@) =~= Seq::empty());
    r
}

/// Adds a member at the end.
pub fn with_member(members: Vec<(String, Json)>, name: &str, value: Json) -> (r: Vec<
    (String, Json),
>)
    ensures
        members_view(r@) == members_view(members@).push((name@, value@)),
{
    let mut r = members;
    r.push((name.to_owned(), value));
    assert(members_view(r@) =~= members_view(members@).push((name@, value@)));
    r
}

pub fn object(members: Vec<(String, Json)>) -> (r: Json)
    ensures
        r@ == JsonView::Object(members_view(members@)),
{
    proof {
        lemma_object_view(members);
    }
    Json::Object(members)
}

pub fn text_value(text: &str) -> (r: Json)
    ensures
        r@ == JsonView::Text(text@),
{
    Json::Text(text.to_owned())
}

pub fn number_value(n: u64) -> (r: Json)
    ensures
        r@ == JsonView::Number(decimal(n as nat)),
{
    Json::Number(decimal_of(n))
}

/// The array with one text.
pub fn text_list(text: &str) -> (r: Json)
    ensures
        r@ == JsonView::Array(seq![JsonView::Text(text@)]),
{
    let mut items: Vec<Json> = Vec::new();
    items.push(Json::Text(text.to_owned()));
    proof {
        lemma_array_view(items);
        assert(items_view(items@) =~= seq![JsonView::Text(text@)]);
    }
    Json::Array(items)
}

// ---------------------------------------------------------------------------
// Laws
// ---------------------------------------------------------------------------

/// The member of a name is the first one that has it.
pub proof fn a_member_is_the_first_of_its_name(
    members: Seq<(Seq<char>, JsonView)>,
    name: Seq<char>,
)
    ensures
        match member_of(JsonView::Object(members), name) {
            Some(value) => exists|i: int|
                0 <= i < members.len() && #[trigger] members[i] == (name, value) && forall|j: int|
                    0 <= j < i ==> (#[trigger] members[j]).0 != name,
            None => forall|j: int| 0 <= j < members.len() ==> (#[trigger] members[j]).0 != name,
        },
    decreases members.len(),
{
    if members.len() > 0 {
        let rest = members.subrange(1, members.len() as int);
        if members[0].0 == name {
            assert(members[0] == (name, members[0].1));
        } else {
            a_member_is_the_first_of_its_name(rest, name);
            match member_of(JsonView::Object(rest), name) {
                Some(value) => {
                    let i = choose|i: int|
                        0 <= i < rest.len() && #[trigger] rest[i] == (name, value) && forall|j: int|
                            0 <= j < i ==> (#[trigger] rest[j]).0 != name;
                    assert(members[i + 1] == (name, value));
                    assert forall|j: int| 0 <= j < i + 1 implies (#[trigger] members[j]).0
                        != name by {
                        if j > 0 {
                            assert(rest[j - 1] == members[j]);
                        }
                    }
                },
                None => {
                    assert forall|j: int| 0 <= j < members.len() implies (#[trigger] members[j]).0
                        != name by {
                        if j > 0 {
                            assert(rest[j - 1] == members[j]);
                        }
                    }
                },
            }
        }
    }
}

/// A member that no earlier one shares its name with is found by it.
pub proof fn lemma_member_at(members: Seq<(Seq<char>, JsonView)>, i: int)
    requires
        0 <= i < members.len(),
        forall|j: int| 0 <= j < i ==> (#[trigger] members[j]).0 != members[i].0,
    ensures
        member_of(JsonView::Object(members), members[i].0) == Some(members[i].1),
{
    a_member_is_the_first_of_its_name(members, members[i].0);
}

/// A number that is written in decimal is read back, as far as it has 64 bits.
pub proof fn a_written_number_is_read_back(n: nat)
    ensures
        uint_of(JsonView::Number(decimal(n))) == (if n <= u64::MAX {
            Some(n)
        } else {
            None
        }),
{
    crate::text::lemma_decimal(n);
}

/// Only digits are read as a number.
pub proof fn a_number_is_made_of_digits(j: JsonView)
    requires
        uint_of(j) is Some,
    ensures
        j matches JsonView::Number(t) && t.len() > 0 && forall|i: int|
            0 <= i < t.len() ==> '0' <= #[trigger] t[i] <= '9',
{
    let t = j->Number_0;
    assert forall|i: int| 0 <= i < t.len() implies '0' <= #[trigger] t[i] <= '9' by {
        assert(crate::text::is_digit(t[i]));
    }
}

/// A list of texts is read back as it is.
pub proof fn texts_are_read_back(names: Seq<Seq<char>>)
    ensures
        texts_of(JsonView::Array(names.map_values(|t: Seq<char>| JsonView::Text(t)))) == names,
    decreases names.len(),
{
    let items = names.map_values(|t: Seq<char>| JsonView::Text(t));
    if names.len() > 0 {
        texts_are_read_back(names.drop_last());
        assert(items.drop_last() =~= names.drop_last().map_values(
            |t: Seq<char>| JsonView::Text(t),
        ));
        assert(items.last() == JsonView::Text(names.last()));
        assert(names.drop_last().push(names.last()) =~= names);
    }
    assert(texts_of(JsonView::Array(items)) =~= names);
}

/// What is no text is passed over, and what comes from a list is a text of it.
pub proof fn only_texts_are_read(items: Seq<JsonView>, name: Seq<char>)
    ensures
        texts_of(JsonView::Array(items)).contains(name) <==> items.contains(JsonView::Text(name)),
    decreases items.len(),
{
    if items.len() > 0 {
        let before = items.drop_last();
        only_texts_are_read(before, name);
        let some = texts_in(before);
        let all = texts_in(items);
        if some.contains(name) {
            let k = some.index_of(name);
            assert(all[k] == name);
        }
        if all.contains(name) && !some.contains(name) {
            let k = all.index_of(name);
            assert(k == some.len());
            assert(items[items.len() - 1] == JsonView::Text(name));
        }
        if items.contains(JsonView::Text(name)) {
            let k = items.index_of(JsonView::Text(name));
            if k < before.len() {
                assert(before[k] == JsonView::Text(name));
            } else {
                assert(all[some.len() as int] == name);
            }
        }
        if before.contains(JsonView::Text(name)) {
            let k = before.index_of(JsonView::Text(name));
            assert(items[k] == JsonView::Text(name));
        }
    }
}

/// The values of a text that holds a list are those of its parts, in their order.
pub proof fn a_list_is_read_item_by_item(text: Seq<char>, items: Seq<Seq<char>>, depth: nat)
    requires
        json_node_of(text) == Ok::<JsonNodeView, Seq<char>>(JsonNodeView::Array(items)),
        json_tree(text, depth) is Ok,
    ensures
        json_tree(text, depth)->Ok_0 matches JsonView::Array(values) && values.len() == items.len()
            && forall|i: int|
            0 <= i < items.len() ==> json_tree(#[trigger] items[i], (depth - 1) as nat) == Ok::<
                JsonView,
                Seq<char>,
            >(values[i]),
{
    lemma_trees_each(items, (depth - 1) as nat);
}

proof fn lemma_trees_each(items: Seq<Seq<char>>, depth: nat)
    requires
        json_trees(items, depth) is Ok,
    ensures
        json_trees(items, depth)->Ok_0.len() == items.len(),
        forall|i: int|
            0 <= i < items.len() ==> json_tree(#[trigger] items[i], depth) == Ok::<
                JsonView,
                Seq<char>,
            >(json_trees(items, depth)->Ok_0[i]),
    decreases items.len(),
{
    if items.len() > 0 {
        let before = items.drop_last();
        lemma_trees_each(before, depth);
        assert forall|i: int| 0 <= i < items.len() implies json_tree(#[trigger] items[i], depth)
            == Ok::<JsonView, Seq<char>>(json_trees(items, depth)->Ok_0[i]) by {
            if i < before.len() {
                assert(before[i] == items[i]);
            }
        }
    }
}

/// The members of a text that holds an object are those of its parts, under their names and
/// in their order.
pub proof fn an_object_is_read_member_by_member(
    text: Seq<char>,
    members: Seq<(Seq<char>, Seq<char>)>,
    depth: nat,
)
    requires
        json_node_of(text) == Ok::<JsonNodeView, Seq<char>>(JsonNodeView::Object(members)),
        json_tree(text, depth) is Ok,
    ensures
        json_tree(text, depth)->Ok_0 matches JsonView::Object(values) && values.len()
            == members.len() && forall|i: int|
            0 <= i < members.len() ==> values[i].0 == (#[trigger] members[i]).0 && json_tree(
                members[i].1,
                (depth - 1) as nat,
            ) == Ok::<JsonView, Seq<char>>(values[i].1),
{
    lemma_members_each(members, (depth - 1) as nat);
}

proof fn lemma_members_each(members: Seq<(Seq<char>, Seq<char>)>, depth: nat)
    requires
        json_members(members, depth) is Ok,
    ensures
        json_members(members, depth)->Ok_0.len() == members.len(),
        forall|i: int|
            0 <= i < members.len() ==> json_members(members, depth)->Ok_0[i].0 == (
            #[trigger] members[i]).0 && json_tree(members[i].1, depth) == Ok::<
                JsonView,
                Seq<char>,
            >(json_members(members, depth)->Ok_0[i].1),
    decreases members.len(),
{
    if members.len() > 0 {
        let before = members.drop_last();
        lemma_members_each(before, depth);
        assert forall|i: int| 0 <= i < members.len() implies json_members(members, depth)->Ok_0[i].0
            == (#[trigger] members[i]).0 && json_tree(members[i].1, depth) == Ok::<
            JsonView,
            Seq<char>,
        >(json_members(members, depth)->Ok_0[i].1) by {
            if i < before.len() {
                assert(before[i] == members[i]);
            }
        }
    }
}

/// The number that a digit of base sixteen stands for.
pub open spec fn hex_value(c: char) -> int {
    if '0' <= c <= '9' {
        c as int - '0' as int
    } else {
        c as int - 'a' as int + 10
    }
}

/// The character that a JSON string begins with, read by the rules for escapes, and how many
/// characters it takes.
pub open spec fn first_unescaped(s: Seq<char>) -> (int, int) {
    if s[0] != '\\' {
        (s[0] as int, 1)
    } else if s[1] == 'u' {
        (
            4096 * hex_value(s[2]) + 256 * hex_value(s[3]) + 16 * hex_value(s[4]) + hex_value(s[5]),
            6,
        )
    } else if s[1] == 'b' {
        (8, 2)
    } else if s[1] == 't' {
        (9, 2)
    } else if s[1] == 'n' {
        (10, 2)
    } else if s[1] == 'f' {
        (12, 2)
    } else if s[1] == 'r' {
        (13, 2)
    } else {
        (s[1] as int, 2)
    }
}

/// A character in a JSON string is read back as itself, whatever follows it, and neither ends
/// the string nor is a control character.
pub proof fn a_written_character_is_read_back(c: char, rest: Seq<char>)
    ensures
        first_unescaped(json_char(c) + rest) == (c as int, json_char(c).len() as int),
        json_char(c).len() > 0,
        json_char(c)[0] != '"',
        forall|i: int| 0 <= i < json_char(c).len() ==> #[trigger] json_char(c)[i] >= ' ',
{
    let s = json_char(c) + rest;
    let n = json_char(c).len() as int;
    assert(s.subrange(0, n) =~= json_char(c));
    assert(s[0] == json_char(c)[0]);
    if (c as u32) < 32 {
        let high = c as int / 16;
        let low = c as int % 16;
        assert(0 <= high < 2 && 0 <= low < 16);
        assert(hex_value(hex_digit(high)) == high);
        assert(hex_value(hex_digit(low)) == low);
    }
    if n > 1 {
        assert(s[1] == json_char(c)[1]);
    }
    if n == 6 {
        assert(s[2] == '0' && s[3] == '0');
        assert(s[4] == json_char(c)[4] && s[5] == json_char(c)[5]);
    }
}

proof fn lemma_json_chars_front(c: char, rest: Seq<char>)
    ensures
        json_chars(seq![c] + rest) == json_char(c) + json_chars(rest),
    decreases rest.len(),
{
    let all = seq![c] + rest;
    if rest.len() == 0 {
        reveal_with_fuel(json_chars, 2);
        assert(all.drop_last() =~= Seq::<char>::empty());
        assert(all.last() == c);
        assert(json_chars(all) =~= json_char(c) + json_chars(rest));
    } else {
        lemma_json_chars_front(c, rest.drop_last());
        assert(all.drop_last() =~= seq![c] + rest.drop_last());
        assert(json_chars(all) =~= json_char(c) + json_chars(rest));
    }
}

/// Texts that are written the same are the same.
pub proof fn written_texts_differ(a: Seq<char>, b: Seq<char>)
    requires
        json_text(JsonView::Text(a)) == json_text(JsonView::Text(b)),
    ensures
        a == b,
{
    let x = json_quoted(a);
    let y = json_quoted(b);
    assert(x.subrange(1, x.len() - 1) =~= json_chars(a));
    assert(y.subrange(1, y.len() - 1) =~= json_chars(b));
    lemma_chars_differ(a, b);
}

proof fn lemma_chars_differ(a: Seq<char>, b: Seq<char>)
    requires
        json_chars(a) == json_chars(b),
    ensures
        a == b,
    decreases a.len() + b.len(),
{
    if a.len() > 0 {
        let ra = a.subrange(1, a.len() as int);
        assert(a =~= seq![a[0]] + ra);
        lemma_json_chars_front(a[0], ra);
        a_written_character_is_read_back(a[0], json_chars(ra));
        if b.len() == 0 {
            assert(json_chars(b).len() == 0);
            assert(false);
        }
    }
    if b.len() > 0 {
        let rb = b.subrange(1, b.len() as int);
        assert(b =~= seq![b[0]] + rb);
        lemma_json_chars_front(b[0], rb);
        a_written_character_is_read_back(b[0], json_chars(rb));
        if a.len() == 0 {
            assert(json_chars(a).len() == 0);
            assert(false);
        }
    }
    if a.len() > 0 && b.len() > 0 {
        let ra = a.subrange(1, a.len() as int);
        let rb = b.subrange(1, b.len() as int);
        let n = json_char(a[0]).len() as int;
        assert(a[0] == b[0]);
        let whole = json_chars(a);
        assert(whole.subrange(n, whole.len() as int) =~= json_chars(ra));
        assert(whole.subrange(n, whole.len() as int) =~= json_chars(rb));
        lemma_chars_differ(ra, rb);
    }
}

/// Words and numbers are written as they are, and what holds nothing by its marks alone.
pub proof fn words_are_written_in_json(b: bool, number: Seq<char>)
    ensures
        json_text(JsonView::Null) == "null"@,
        json_text(JsonView::Bool(b)) == (if b {
            "true"@
        } else {
            "false"@
        }),
        json_text(JsonView::Number(number)) == number,
        json_text(JsonView::Array(Seq::empty())) == "[]"@,
        json_text(JsonView::Object(Seq::empty())) == "{}"@,
{
    reveal_strlit("[");
    reveal_strlit("]");
    reveal_strlit("[]");
    reveal_strlit("{");
    reveal_strlit("}");
    reveal_strlit("{}");
    assert(json_text(JsonView::Array(Seq::empty())) =~= "[]"@);
    assert(json_text(JsonView::Object(Seq::empty())) =~= "{}"@);
}

proof fn lemma_items_text(items: Seq<JsonView>, x: JsonView, k: nat)
    requires
        k <= items.len(),
    ensures
        items_text(JsonView::Array(items.push(x)), k) == items_text(JsonView::Array(items), k),
    decreases k,
{
    if k > 0 {
        lemma_items_text(items, x, (k - 1) as nat);
        assert(items.push(x)[k - 1] == items[k - 1]);
    }
}

/// One more item of a list is written before the closing mark, after a comma where it is not
/// the first.
pub proof fn an_item_is_written_last(items: Seq<JsonView>, x: JsonView)
    ensures
        json_text(JsonView::Array(items.push(x))) == json_text(JsonView::Array(items)).drop_last()
            + (if items.len() == 0 {
            json_text(x)
        } else {
            ","@ + json_text(x)
        }) + "]"@,
{
    reveal_strlit("]");
    let n = items.len();
    let more = JsonView::Array(items.push(x));
    lemma_items_text(items, x, n);
    assert(more->Array_0[n as int] == x);
    assert(json_text(JsonView::Array(items)).drop_last() =~= "["@ + items_text(
        JsonView::Array(items),
        n,
    ));
    if n == 0 {
        assert(items_text(more, 1) == json_text(x));
    } else {
        assert(items_text(more, n + 1) == items_text(more, n) + ","@ + json_text(x));
    }
    assert(json_text(more) =~= json_text(JsonView::Array(items)).drop_last() + (if n == 0 {
        json_text(x)
    } else {
        ","@ + json_text(x)
    }) + "]"@);
}

proof fn lemma_members_text(
    members: Seq<(Seq<char>, JsonView)>,
    name: Seq<char>,
    x: JsonView,
    k: nat,
)
    requires
        k <= members.len(),
    ensures
        members_text(JsonView::Object(members.push((name, x))), k) == members_text(
            JsonView::Object(members),
            k,
        ),
    decreases k,
{
    if k > 0 {
        lemma_members_text(members, name, x, (k - 1) as nat);
        assert(members.push((name, x))[k - 1] == members[k - 1]);
    }
}

/// One more member of an object is written before the closing mark: its name as a string, a
/// colon and its value, after a comma where it is not the first.
pub proof fn a_member_is_written_last(
    members: Seq<(Seq<char>, JsonView)>,
    name: Seq<char>,
    x: JsonView,
)
    ensures
        json_text(JsonView::Object(members.push((name, x)))) == json_text(
            JsonView::Object(members),
        ).drop_last() + (if members.len() == 0 {
            Seq::empty()
        } else {
            ","@
        }) + json_text(JsonView::Text(name)) + ":"@ + json_text(x) + "}"@,
{
    reveal_strlit("}");
    let n = members.len();
    let all = members.push((name, x));
    let more = JsonView::Object(all);
    lemma_members_text(members, name, x, n);
    assert(more->Object_0[n as int] == (name, x));
    let written = json_text(JsonView::Text(name)) + ":"@ + json_text(x);
    assert(json_text(JsonView::Object(members)).drop_last() =~= "{"@ + members_text(
        JsonView::Object(members),
        n,
    ));
    if n == 0 {
        assert(members_text(more, 1) == written);
    } else {
        assert(members_text(more, n + 1) == members_text(more, n) + ","@ + written);
    }
    assert(json_text(more) =~= json_text(JsonView::Object(members)).drop_last() + (if n == 0 {
        Seq::empty()
    } else {
        ","@
    }) + json_text(JsonView::Text(name)) + ":"@ + json_text(x) + "}"@);
}

/// A text is written between quotes, character by character.
pub proof fn a_text_is_written_between_quotes(text: Seq<char>, c: char)
    ensures
        json_text(JsonView::Text(Seq::empty())) == seq!['"', '"'],
        json_text(JsonView::Text(text.push(c))) == json_text(JsonView::Text(text)).drop_last()
            + json_char(c) + seq!['"'],
{
    assert(json_text(JsonView::Text(Seq::empty())) =~= seq!['"', '"']);
    assert(text.push(c).drop_last() =~= text);
    assert(json_quoted(text).drop_last() =~= seq!['"'] + json_chars(text));
    assert(json_text(JsonView::Text(text.push(c))) =~= json_text(JsonView::Text(text)).drop_last()
        + json_char(c) + seq!['"']);
}

/// The items of a list and the members of an object are seen one by one, in their order.
pub proof fn values_are_seen_in_order(items: Seq<Json>, members: Seq<(String, Json)>, i: int)
    ensures
        items_view(items).len() == items.len(),
        0 <= i < items.len() ==> items_view(items)[i] == items[i]@,
        members_view(members).len() == members.len(),
        0 <= i < members.len() ==> members_view(members)[i] == (members[i].0@, members[i].1@),
{
}

} // verus!

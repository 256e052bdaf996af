//! The launch context and the scrollback reply of the host's JSON API:
//! a plain model of JSON values, the one call into `serde_json` that
//! produces it, and the fields the viewer reads from it.

use vstd::prelude::*;
use crate::text::{chars_eq, chars_of};

verus! {

broadcast use vstd::string::group_string_axioms;

/// A JSON value as the launch logic reads it: strings, arrays and objects
/// (entries in the order the parser yields them); every other kind of
/// value is `Other`.
pub enum JsonNode {
    Str(String),
    Array(Vec<JsonNode>),
    Object(Vec<(String, JsonNode)>),
    Other,
}

/// The mathematical value of a [`JsonNode`].
pub enum JsonTree {
    Str(Seq<char>),
    Array(Seq<JsonTree>),
    Object(Seq<(Seq<char>, JsonTree)>),
    Other,
}

impl JsonNode {
    /// The mathematical value of this node.
    pub open spec fn tree(self) -> JsonTree
        decreases self, 0int,
    {
        match self {
            JsonNode::Str(s) => JsonTree::Str(s@),
            JsonNode::Array(items) => JsonTree::Array(json_trees(items@)),
            JsonNode::Object(entries) => JsonTree::Object(json_entry_trees(entries@)),
            JsonNode::Other => JsonTree::Other,
        }
    }
}

/// The values of a sequence of nodes.
pub open spec fn json_trees(items: Seq<JsonNode>) -> Seq<JsonTree>
    decreases items, 1int,
{
    if items.len() == 0 {
        Seq::empty()
    } else {
        json_trees(items.drop_last()).push(items.last().tree())
    }
}

/// The values of a sequence of object entries.
pub open spec fn json_entry_trees(entries: Seq<(String, JsonNode)>) -> Seq<(Seq<char>, JsonTree)>
    decreases entries, 1int,
{
    if entries.len() == 0 {
        Seq::empty()
    } else {
        json_entry_trees(entries.drop_last()).push((entries.last().0@, entries.last().1.tree()))
    }
}

/// The value of member `key` of an object (the first entry with that key);
/// `None` for a missing key or a value that is not an object.
pub open spec fn member(v: JsonTree, key: Seq<char>) -> Option<JsonTree> {
    match v {
        JsonTree::Object(entries) => member_of(entries, key),
        _ => None,
    }
}

pub open spec fn member_of(entries: Seq<(Seq<char>, JsonTree)>, key: Seq<char>) -> Option<JsonTree>
    decreases entries.len(),
{
    if entries.len() == 0 {
        None
    } else if entries[0].0 == key {
        Some(entries[0].1)
    } else {
        member_of(entries.drop_first(), key)
    }
}

/// The string a value holds, if it is one.
pub open spec fn as_str(v: Option<JsonTree>) -> Option<Seq<char>> {
    match v {
        Some(JsonTree::Str(s)) => Some(s),
        _ => None,
    }
}

pub proof fn lemma_json_entry_trees(entries: Seq<(String, JsonNode)>)
    ensures
        json_entry_trees(entries).len() == entries.len(),
        forall|i: int| 0 <= i < entries.len() ==> #[trigger] json_entry_trees(entries)[i] == (entries[i].0@, entries[i].1.tree()),
    decreases entries.len(),
{
    if entries.len() > 0 {
        lemma_json_entry_trees(entries.drop_last());
        assert forall|i: int| 0 <= i < entries.len() implies #[trigger] json_entry_trees(entries)[i] == (entries[i].0@, entries[i].1.tree()) by {
            if i < entries.len() - 1 {
                assert(entries.drop_last()[i] == entries[i]);
            }
        }
    }
}

/// The member `key` of a node.
pub fn get_member<'a>(v: &'a JsonNode, key: &str) -> (r: Option<&'a JsonNode>)
    ensures
        r matches Some(n) ==> member(v.tree(), key@) == Some(n.tree()),
        r is None ==> member(v.tree(), key@) is None,
{
    let entries = match v {
        JsonNode::Object(e) => e,
        _ => {
            return None;
        },
    };
    proof { lemma_json_entry_trees(entries@); }
    let ghost es = json_entry_trees(entries@);
    assert(v.tree() == JsonTree::Object(es));
    let k = chars_of(key);
    let n = entries.len();
    let mut i: usize = 0;
    assert(es.skip(0) =~= es);
    while i < n
        invariant
            n == entries@.len(),
            n == es.len(),
            i <= n,
            es == json_entry_trees(entries@),
            v.tree() == JsonTree::Object(es),
            k@ == key@,
            forall|j: int| 0 <= j < entries@.len() ==> #[trigger] es[j] == (entries@[j].0@, entries@[j].1.tree()),
            member_of(es, key@) == member_of(es.skip(i as int), key@),
        decreases n - i,
    {
        let name = chars_of(entries[i].0.as_str());
        assert(es.skip(i as int)[0] == es[i as int]);
        if chars_eq(&name, &k) {
            return Some(&entries[i].1);
        }
        assert(es.skip(i as int).drop_first() =~= es.skip(i + 1));
        i = i + 1;
    }
    None
}

/// The string a node holds, if it is one.
pub fn node_str(v: Option<&JsonNode>) -> (r: Option<&String>)
    ensures
        r matches Some(s) ==> as_str(match v { Some(n) => Some(n.tree()), None => None }) == Some(s@),
        r is None ==> as_str(match v { Some(n) => Some(n.tree()), None => None }) is None,
{
    match v {
        Some(JsonNode::Str(s)) => Some(s),
        _ => None,
    }
}

#[verifier::external_type_specification]
#[verifier::external_body]
pub struct ExJsonValue(serde_json::Value);

/// What `serde_json::from_str::<serde_json::Value>` makes of a text: its
/// value, or the text of its error.
pub uninterp spec fn json_document(text: Seq<char>) -> Result<JsonTree, Seq<char>>;

/// The conversion half of `json_from_str`, split off because it recurses
/// into arrays and objects: strings, arrays and objects keep their
/// contents (objects in the map's iteration order); null, booleans and
/// numbers become `Other`. It makes no call into `serde_json` but matching
/// `serde_json::Value`'s variants, and only `json_from_str` calls it.
#[verifier::external_body]
fn json_node_of_value(v: serde_json::Value) -> JsonNode {
    match v {
        serde_json::Value::String(s) => JsonNode::Str(s),
        serde_json::Value::Array(items) => JsonNode::Array(items.into_iter().map(json_node_of_value).collect()),
        serde_json::Value::Object(m) => JsonNode::Object(m.into_iter().map(|(k, v)| (k, json_node_of_value(v))).collect()),
        _ => JsonNode::Other,
    }
}

/// Calls `serde_json::from_str::<serde_json::Value>` and converts the
/// result to a [`JsonNode`], or the error to its message. Both are named by
/// `json_document` of the text: nothing is stated of how JSON is parsed.
#[verifier::external_body]
fn json_from_str(text: &str) -> (r: Result<JsonNode, String>)
    ensures
        match r {
            Ok(n) => json_document(text@) == Ok::<JsonTree, Seq<char>>(n.tree()),
            Err(e) => json_document(text@) == Err::<JsonTree, Seq<char>>(e@),
        },
{
    match serde_json::from_str::<serde_json::Value>(text) {
        Ok(v) => Ok(json_node_of_value(v)),
        Err(e) => Err(e.to_string()),
    }
}

/// Parses a JSON text into a [`JsonNode`], or gives the parser's error
/// message.
pub fn parse_json_document(text: &str) -> (r: Result<JsonNode, String>)
    ensures
        match r {
            Ok(n) => json_document(text@) == Ok::<JsonTree, Seq<char>>(n.tree()),
            Err(e) => json_document(text@) == Err::<JsonTree, Seq<char>>(e@),
        },
{
    json_from_str(text)
}

/// The message for a launch context that names no focused pane.
pub open spec fn no_focused_pane_msg() -> Seq<char> {
    "context JSON has no focused_pane_id (nothing was focused before this popup opened)"@
}

/// The message prefix for a launch context that is not JSON.
pub open spec fn invalid_context_prefix() -> Seq<char> {
    "invalid context JSON: "@
}

/// The pane the popup was opened over, from the launch context JSON: its
/// `focused_pane_id` string.
pub open spec fn focused_pane_spec(text: Seq<char>) -> Result<Seq<char>, Seq<char>> {
    match json_document(text) {
        Ok(v) => match as_str(member(v, "focused_pane_id"@)) {
            Some(id) => Ok(id),
            None => Err(no_focused_pane_msg()),
        },
        Err(e) => Err(invalid_context_prefix() + e),
    }
}

/// Reads the focused pane's id from the launch context JSON.
pub fn focused_pane_id(context_json: &str) -> (r: Result<String, String>)
    ensures
        match r {
            Ok(id) => focused_pane_spec(context_json@) == Ok::<Seq<char>, Seq<char>>(id@),
            Err(msg) => focused_pane_spec(context_json@) == Err::<Seq<char>, Seq<char>>(msg@),
        },
{
    match parse_json_document(context_json) {
        Ok(v) => match node_str(get_member(&v, "focused_pane_id")) {
            Some(id) => Ok(id.clone()),
            None => Err("context JSON has no focused_pane_id (nothing was focused before this popup opened)".to_string()),
        },
        Err(e) => {
            let mut msg = "invalid context JSON: ".to_string();
            msg.append(e.as_str());
            Err(msg)
        },
    }
}

/// The message for a `pane.read` reply without text.
pub open spec fn no_read_text_msg() -> Seq<char> {
    "pane.read response had no \"read.text\" field"@
}

/// The scrollback text in a `pane.read` result: its `read.text` string.
pub open spec fn scrollback_spec(result: JsonTree) -> Result<Seq<char>, Seq<char>> {
    match member(result, "read"@) {
        Some(read) => match as_str(member(read, "text"@)) {
            Some(t) => Ok(t),
            None => Err(no_read_text_msg()),
        },
        None => Err(no_read_text_msg()),
    }
}

/// Takes the scrollback text out of a `pane.read` result.
pub fn scrollback_text(result: &JsonNode) -> (r: Result<String, String>)
    ensures
        match r {
            Ok(t) => scrollback_spec(result.tree()) == Ok::<Seq<char>, Seq<char>>(t@),
            Err(msg) => scrollback_spec(result.tree()) == Err::<Seq<char>, Seq<char>>(msg@),
        },
{
    let missing = "pane.read response had no \"read.text\" field";
    match get_member(result, "read") {
        Some(read) => match node_str(get_member(read, "text")) {
            Some(t) => Ok(t.clone()),
            None => Err(missing.to_string()),
        },
        None => Err(missing.to_string()),
    }
}

/// The prefix of every failed `pane.read` message.
pub open spec fn read_failed_prefix() -> Seq<char> {
    "pane.read failed: "@
}

/// The detail given for an `error` member that is not a string.
pub open spec fn error_reply_msg() -> Seq<char> {
    "the reply reports an error"@
}

/// The message for a reply with neither `result` nor `error`.
pub open spec fn no_result_msg() -> Seq<char> {
    "pane.read failed: reply has neither result nor error"@
}

/// The scrollback text of a whole `pane.read` reply: an `error` member
/// fails (with its text when it is a string), else the `read.text` of the
/// `result` member.
pub open spec fn reply_scrollback_spec(reply: JsonTree) -> Result<Seq<char>, Seq<char>> {
    match member(reply, "error"@) {
        Some(e) => Err(read_failed_prefix() + match as_str(Some(e)) {
            Some(t) => t,
            None => error_reply_msg(),
        }),
        None => match member(reply, "result"@) {
            Some(r) => scrollback_spec(r),
            None => Err(no_result_msg()),
        },
    }
}

/// Takes the scrollback text out of a whole `pane.read` reply.
pub fn reply_scrollback(reply: &JsonNode) -> (r: Result<String, String>)
    ensures
        match r {
            Ok(t) => reply_scrollback_spec(reply.tree()) == Ok::<Seq<char>, Seq<char>>(t@),
            Err(msg) => reply_scrollback_spec(reply.tree()) == Err::<Seq<char>, Seq<char>>(msg@),
        },
{
    match get_member(reply, "error") {
        Some(e) => {
            let mut msg = "pane.read failed: ".to_string();
            match node_str(Some(e)) {
                Some(t) => msg.append(t.as_str()),
                None => msg.append("the reply reports an error"),
            }
            Err(msg)
        },
        None => match get_member(reply, "result") {
            Some(result) => scrollback_text(result),
            None => Err("pane.read failed: reply has neither result nor error".to_string()),
        },
    }
}

} // verus!

//! A plain model of a parsed TOML document, and the one call into the
//! `toml` crate that produces it.

use vstd::prelude::*;
use crate::text::{chars_eq, chars_of};

verus! {

/// A TOML value as the configuration logic reads it: strings, arrays and
/// tables (entries in the order the parser yields them); every other kind
/// of value is `Other`.
pub enum TomlNode {
    Str(String),
    Array(Vec<TomlNode>),
    Table(Vec<(String, TomlNode)>),
    Other,
}

/// The mathematical value of a [`TomlNode`].
pub enum TomlTree {
    Str(Seq<char>),
    Array(Seq<TomlTree>),
    Table(Seq<(Seq<char>, TomlTree)>),
    Other,
}

impl TomlNode {
    /// The mathematical value of this node.
    pub open spec fn tree(self) -> TomlTree
        decreases self, 0int,
    {
        match self {
            TomlNode::Str(s) => TomlTree::Str(s@),
            TomlNode::Array(items) => TomlTree::Array(trees(items@)),
            TomlNode::Table(entries) => TomlTree::Table(entry_trees(entries@)),
            TomlNode::Other => TomlTree::Other,
        }
    }
}

/// The values of a sequence of nodes.
pub open spec fn trees(items: Seq<TomlNode>) -> Seq<TomlTree>
    decreases items, 1int,
{
    if items.len() == 0 {
        Seq::empty()
    } else {
        trees(items.drop_last()).push(items.last().tree())
    }
}

/// The values of a sequence of table entries.
pub open spec fn entry_trees(entries: Seq<(String, TomlNode)>) -> Seq<(Seq<char>, TomlTree)>
    decreases entries, 1int,
{
    if entries.len() == 0 {
        Seq::empty()
    } else {
        entry_trees(entries.drop_last()).push((entries.last().0@, entries.last().1.tree()))
    }
}


/// The value at `key` in a table: the first entry with that key.
pub open spec fn lookup(entries: Seq<(Seq<char>, TomlTree)>, key: Seq<char>) -> Option<TomlTree>
    decreases entries.len(),
{
    if entries.len() == 0 {
        None
    } else if entries[0].0 == key {
        Some(entries[0].1)
    } else {
        lookup(entries.drop_first(), key)
    }
}

/// The string at `key` in a table, if there is one.
pub open spec fn lookup_str(entries: Seq<(Seq<char>, TomlTree)>, key: Seq<char>) -> Option<Seq<char>> {
    match lookup(entries, key) {
        Some(TomlTree::Str(s)) => Some(s),
        _ => None,
    }
}

/// `trees` keeps the length and maps index for index.
pub proof fn lemma_trees(items: Seq<TomlNode>)
    ensures
        trees(items).len() == items.len(),
        forall|i: int| 0 <= i < items.len() ==> #[trigger] trees(items)[i] == items[i].tree(),
    decreases items.len(),
{
    if items.len() > 0 {
        lemma_trees(items.drop_last());
        assert forall|i: int| 0 <= i < items.len() implies #[trigger] trees(items)[i] == items[i].tree() by {
            if i < items.len() - 1 {
                assert(items.drop_last()[i] == items[i]);
            }
        }
    }
}

/// `entry_trees` keeps the length and maps index for index.
pub proof fn lemma_entry_trees(entries: Seq<(String, TomlNode)>)
    ensures
        entry_trees(entries).len() == entries.len(),
        forall|i: int| 0 <= i < entries.len() ==> #[trigger] entry_trees(entries)[i] == (entries[i].0@, entries[i].1.tree()),
    decreases entries.len(),
{
    if entries.len() > 0 {
        lemma_entry_trees(entries.drop_last());
        assert forall|i: int| 0 <= i < entries.len() implies #[trigger] entry_trees(entries)[i] == (entries[i].0@, entries[i].1.tree()) by {
            if i < entries.len() - 1 {
                assert(entries.drop_last()[i] == entries[i]);
            }
        }
    }
}

/// The value at `key` in a table of nodes.
pub fn table_get<'a>(entries: &'a Vec<(String, TomlNode)>, key: &str) -> (r: Option<&'a TomlNode>)
    ensures
        r matches Some(n) ==> lookup(entry_trees(entries@), key@) == Some(n.tree()),
        r is None ==> lookup(entry_trees(entries@), key@) is None,
{
    proof { lemma_entry_trees(entries@); }
    let ghost es = entry_trees(entries@);
    let k = chars_of(key);
    let n = entries.len();
    let mut i: usize = 0;
    assert(es.skip(0) =~= es);
    while i < n
        invariant
            n == entries@.len(),
            n == es.len(),
            i <= n,
            es == entry_trees(entries@),
            k@ == key@,
            forall|j: int| 0 <= j < entries@.len() ==> #[trigger] es[j] == (entries@[j].0@, entries@[j].1.tree()),
            lookup(es, key@) == lookup(es.skip(i as int), key@),
        decreases n - i,
    {
        let name = chars_of(entries[i].0.as_str());
        assert(es.skip(i as int)[0] == es[i as int]);
        if chars_eq(&name, &k) {
            return Some(&entries[i].1);
        }
        assert(es.skip(i as int).drop_first() =~= es.skip(i + 1));
        i = i + 1;
    }
    None
}

#[verifier::external_type_specification]
#[verifier::external_body]
pub struct ExTomlValue(toml::Value);

/// What `toml::from_str::<toml::Value>` makes of a document: its value, or
/// the text of its error.
pub uninterp spec fn toml_document(text: Seq<char>) -> Result<TomlTree, Seq<char>>;

/// The conversion half of `toml_from_str`, split off because it recurses
/// into arrays and tables: strings, arrays and tables keep their contents
/// (tables in the map's iteration order); integers, floats, booleans and
/// datetimes become `Other`. It makes no call into `toml` but matching
/// `toml::Value`'s variants, and only `toml_from_str` calls it.
#[verifier::external_body]
fn node_of_value(v: toml::Value) -> TomlNode {
    match v {
        toml::Value::String(s) => TomlNode::Str(s),
        toml::Value::Array(items) => TomlNode::Array(items.into_iter().map(node_of_value).collect()),
        toml::Value::Table(t) => TomlNode::Table(t.into_iter().map(|(k, v)| (k, node_of_value(v))).collect()),
        _ => TomlNode::Other,
    }
}

/// Calls `toml::from_str::<toml::Value>` on the document and converts the
/// result to a [`TomlNode`], or the error to its message. Both are named by
/// `toml_document` of the text: nothing is stated of how TOML is parsed.
#[verifier::external_body]
fn toml_from_str(text: &str) -> (r: Result<TomlNode, String>)
    ensures
        match r {
            Ok(n) => toml_document(text@) == Ok::<TomlTree, Seq<char>>(n.tree()),
            Err(e) => toml_document(text@) == Err::<TomlTree, Seq<char>>(e@),
        },
{
    match toml::from_str::<toml::Value>(text) {
        Ok(v) => Ok(node_of_value(v)),
        Err(e) => Err(e.to_string()),
    }
}

/// Parses a TOML document into a [`TomlNode`], or gives the parser's error
/// message.
pub fn parse_toml_document(text: &str) -> (r: Result<TomlNode, String>)
    ensures
        match r {
            Ok(n) => toml_document(text@) == Ok::<TomlTree, Seq<char>>(n.tree()),
            Err(e) => toml_document(text@) == Err::<TomlTree, Seq<char>>(e@),
        },
{
    toml_from_str(text)
}

} // verus!

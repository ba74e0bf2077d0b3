//! A parsed TOML or JSON document, as far as the library reads one: strings,
//! tables (JSON objects) with their entries, and every other value as one
//! kind. The project profile reads a manifest's description out of it.
use vstd::prelude::*;

use crate::text;

verus! {

/// One value of a parsed document.
#[derive(Debug)]
pub enum Node {
    /// A string.
    Text(String),
    /// A table or object: its keys and values, in the order the parser
    /// hands them out.
    Table(Vec<(String, Node)>),
    /// Any other value: a number, a boolean, a date, an array.
    Other,
}

/// What `toml::from_str::<toml::Value>` makes of `text`: the document, or
/// the start of the span its error reports, when it reports one.
pub uninterp spec fn toml_parsed(text: Seq<char>) -> Result<Node, Option<usize>>;

/// What `serde_json::from_str::<serde_json::Value>` makes of `text`: the
/// document, when the text is JSON.
pub uninterp spec fn json_parsed(text: Seq<char>) -> Option<Node>;

/// The value under `key` among `entries`: the first entry with that key.
pub open spec fn entry_in(entries: Seq<(String, Node)>, key: Seq<char>) -> Option<Node>
    decreases entries.len(),
{
    if entries.len() == 0 {
        None
    } else if entries[0].0@ == key {
        Some(entries[0].1)
    } else {
        entry_in(entries.drop_first(), key)
    }
}

/// The value under `key` when `node` is a table holding it.
pub open spec fn child(node: Node, key: Seq<char>) -> Option<Node> {
    match node {
        Node::Table(entries) => entry_in(entries@, key),
        _ => None,
    }
}

/// The string reached from `node` by following the keys of `path`, when
/// every step finds a table entry and the last value is a string.
pub open spec fn text_at(node: Node, path: Seq<Seq<char>>) -> Option<Seq<char>>
    decreases path.len(),
{
    if path.len() == 0 {
        match node {
            Node::Text(s) => Some(s@),
            _ => None,
        }
    } else {
        match child(node, path[0]) {
            Some(next) => text_at(next, path.drop_first()),
            None => None,
        }
    }
}

/// The value under `key` when `node` is a table holding it.
pub fn get<'a>(node: &'a Node, key: &str) -> (found: Option<&'a Node>)
    ensures
        match found {
            Some(value) => child(*node, key@) == Some(*value),
            None => child(*node, key@) is None,
        },
{
    match node {
        Node::Table(entries) => {
            let mut i: usize = 0;
            assert(entries@.subrange(0, entries@.len() as int) =~= entries@);
            while i < entries.len()
                invariant
                    i <= entries@.len(),
                    child(*node, key@) == entry_in(entries@, key@),
                    entry_in(entries@, key@) == entry_in(entries@.subrange(i as int, entries@.len() as int), key@),
                decreases entries.len() - i,
            {
                let ghost rest = entries@.subrange(i as int, entries@.len() as int);
                assert(rest[0] == entries@[i as int]);
                if text::str_eq(entries[i].0.as_str(), key) {
                    return Some(&entries[i].1);
                }
                assert(rest.drop_first() =~= entries@.subrange(i + 1, entries@.len() as int));
                i += 1;
            }
            None
        },
        _ => None,
    }
}

/// The string `node` holds, copied, when it is a string.
pub fn text_of(node: &Node) -> (found: Option<String>)
    ensures
        match found {
            Some(s) => text_at(*node, seq![]) == Some(s@),
            None => text_at(*node, seq![]) is None,
        },
{
    match node {
        Node::Text(s) => Some(s.clone()),
        _ => None,
    }
}

} // verus!

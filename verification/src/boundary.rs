//! The library's few calls into code it does not verify, each with the
//! contract the library relies on.
use vstd::prelude::*;

use crate::document::{json_parsed, toml_parsed, Node};

verus! {

#[verifier::external_type_specification]
#[verifier::external_body]
pub struct ExTomlValue(toml::Value);

#[verifier::external_type_specification]
#[verifier::external_body]
pub struct ExJsonValue(serde_json::Value);

/// `String::from_utf8`: the bytes as text when they are valid UTF-8, and
/// nothing otherwise. The contract claims that std's notion of valid UTF-8 is
/// vstd's `valid_utf8`, and that the text decodes the bytes.
#[verifier::external_body]
pub fn string_from_utf8(bytes: Vec<u8>) -> (text: Option<String>)
    ensures
        text is Some <==> vstd::utf8::valid_utf8(bytes@),
        text matches Some(s) ==> s@ == vstd::utf8::decode_utf8(bytes@),
{
    match String::from_utf8(bytes) {
        Ok(text) => Some(text),
        Err(_) => None,
    }
}


/// `toml::from_str::<toml::Value>`, its result handed back as a [`Node`]:
/// the document, or the start of the span the parser's error reports. The
/// contract claims that the outcome is the one [`toml_parsed`] names for the
/// text. The error's message is never read: it quotes the input.
#[verifier::external_body]
pub(crate) fn parse_toml(content: &str) -> (parsed: Result<Node, Option<usize>>)
    ensures
        parsed == toml_parsed(content@),
{
    match toml::from_str::<toml::Value>(content) {
        Ok(value) => Ok(toml_node(value)),
        Err(error) => Err(error.span().map(|span| span.start)),
    }
}

/// A `toml::Value` as a [`Node`]: a string as its text, a table as its
/// entries in the order the table hands them out, anything else as
/// `Other`. Only [`parse_toml`] uses it, to hand its result back.
#[verifier::external_body]
fn toml_node(value: toml::Value) -> Node {
    match value {
        toml::Value::String(text) => Node::Text(text),
        toml::Value::Table(table) => Node::Table(table.into_iter().map(|(key, item)| (key, toml_node(item))).collect()),
        _ => Node::Other,
    }
}

/// `serde_json::from_str::<serde_json::Value>`, its result handed back as a
/// [`Node`]: the document, when the text is JSON. The contract claims that
/// the outcome is the one [`json_parsed`] names for the text.
#[verifier::external_body]
pub(crate) fn parse_json(content: &str) -> (parsed: Option<Node>)
    ensures
        parsed == json_parsed(content@),
{
    serde_json::from_str::<serde_json::Value>(content).ok().map(json_node)
}

/// A `serde_json::Value` as a [`Node`]: a string as its text, an object as
/// its entries in the order the object hands them out, anything else as
/// `Other`. Only [`parse_json`] uses it, to hand its result back.
#[verifier::external_body]
fn json_node(value: serde_json::Value) -> Node {
    match value {
        serde_json::Value::String(text) => Node::Text(text),
        serde_json::Value::Object(object) => Node::Table(object.into_iter().map(|(key, item)| (key, json_node(item))).collect()),
        _ => Node::Other,
    }
}

} // verus!

//! JSON documents, read and written by `serde_json`. A document is a
//! `serde_json::Value`; what it holds is a [`JsonTree`].

use vstd::prelude::*;

verus! {

/// What a JSON document holds.
pub enum JsonTree {
    Null,
    Bool(bool),
    /// A number, by its decimal text.
    Number(Seq<char>),
    Text(Seq<char>),
    List(Seq<JsonTree>),
    Object(Map<Seq<char>, JsonTree>),
}

/// The documents of `serde_json`.
#[verifier::external_type_specification]
#[verifier::external_body]
pub struct ExValue(serde_json::Value);

/// The errors of `serde_json`.
#[verifier::external_type_specification]
#[verifier::external_body]
pub struct ExError(serde_json::Error);

/// What a document holds.
pub uninterp spec fn json_tree(document: serde_json::Value) -> JsonTree;

/// What `serde_json::from_str` reads in a text; nothing where it reports an
/// error.
pub uninterp spec fn parsed_json(text: Seq<char>) -> Option<JsonTree>;

/// What `serde_json::to_string_pretty` writes for a document.
pub uninterp spec fn pretty_json(tree: JsonTree) -> Seq<char>;

pub open spec fn trees(documents: Seq<serde_json::Value>) -> Seq<JsonTree> {
    Seq::new(documents.len(), |i: int| json_tree(documents[i]))
}

/// The member of an object under `key`.
pub open spec fn member(tree: JsonTree, key: Seq<char>) -> Option<JsonTree> {
    match tree {
        JsonTree::Object(members) => if members.dom().contains(key) {
            Some(members[key])
        } else {
            None
        },
        _ => None,
    }
}

/// The object that pairs of key and value make; of equal keys the last counts.
pub open spec fn object_of(pairs: Seq<(Seq<char>, JsonTree)>) -> Map<Seq<char>, JsonTree>
    decreases pairs.len(),
{
    if pairs.len() == 0 {
        Map::empty()
    } else {
        object_of(pairs.drop_last()).insert(pairs.last().0, pairs.last().1)
    }
}

pub open spec fn pair_views(pairs: Seq<(String, serde_json::Value)>) -> Seq<
    (Seq<char>, JsonTree),
> {
    Seq::new(pairs.len(), |i: int| (pairs[i].0@, json_tree(pairs[i].1)))
}

/// Whether no two of the pairs have the same key.
pub open spec fn keys_differ(pairs: Seq<(Seq<char>, JsonTree)>) -> bool {
    forall|i: int, j: int|
        0 <= i < j < pairs.len() ==> (#[trigger] pairs[i]).0 != (#[trigger] pairs[j]).0
}

/// A truth value, a text, or a list of texts.
pub open spec fn is_setting(tree: JsonTree) -> bool {
    match tree {
        JsonTree::Bool(_) => true,
        JsonTree::Text(_) => true,
        JsonTree::List(items) => forall|i: int|
            0 <= i < items.len() ==> (#[trigger] items[i]) is Text,
        _ => false,
    }
}

/// An object of settings.
pub open spec fn is_section(tree: JsonTree) -> bool {
    match tree {
        JsonTree::Object(members) => forall|key: Seq<char>|
            members.dom().contains(key) ==> is_setting(#[trigger] members[key]),
        _ => false,
    }
}

/// An object of sections.
pub open spec fn is_settings_document(tree: JsonTree) -> bool {
    match tree {
        JsonTree::Object(members) => forall|key: Seq<char>|
            members.dom().contains(key) ==> is_section(#[trigger] members[key]),
        _ => false,
    }
}

/// Calls `serde_json::from_str`, with `Value` for the type: what it reads, or
/// an error where the text is no JSON document.
#[verifier::external_body]
pub(crate) fn parse(text: &str) -> (document: Result<serde_json::Value, serde_json::Error>)
    ensures
        match document {
            Ok(value) => parsed_json(text@) == Some(json_tree(value)),
            Err(_) => parsed_json(text@) is None,
        },
{
    serde_json::from_str::<serde_json::Value>(text)
}

/// Calls `Value::get` with a text: the member of that name, which only an
/// object has.
#[verifier::external_body]
pub(crate) fn get<'a>(document: &'a serde_json::Value, key: &str) -> (found: Option<
    &'a serde_json::Value,
>)
    ensures
        match found {
            Some(value) => member(json_tree(*document), key@) == Some(json_tree(*value)),
            None => member(json_tree(*document), key@) is None,
        },
{
    document.get(key)
}

/// Calls `Value::as_bool`: the truth value, where the document is one.
#[verifier::external_body]
pub(crate) fn as_bool(document: &serde_json::Value) -> (value: Option<bool>)
    ensures
        value == (match json_tree(*document) {
            JsonTree::Bool(value) => Some(value),
            _ => None,
        }),
{
    document.as_bool()
}

/// Calls `Value::as_str`: the text, where the document is one.
#[verifier::external_body]
pub(crate) fn as_str(document: &serde_json::Value) -> (text: Option<&str>)
    ensures
        match text {
            Some(text) => json_tree(*document) == JsonTree::Text(text@),
            None => !(json_tree(*document) is Text),
        },
{
    document.as_str()
}

/// Calls `Value::as_array`: the elements, where the document is a list.
#[verifier::external_body]
pub(crate) fn as_array(document: &serde_json::Value) -> (items: Option<&Vec<serde_json::Value>>)
    ensures
        match items {
            Some(items) => json_tree(*document) == JsonTree::List(trees(items@)),
            None => !(json_tree(*document) is List),
        },
{
    document.as_array()
}

/// Calls `Value::from` with a truth value.
#[verifier::external_body]
pub(crate) fn from_bool(value: bool) -> (document: serde_json::Value)
    ensures
        json_tree(document) == JsonTree::Bool(value),
{
    serde_json::Value::from(value)
}

/// Calls `Value::from` with a text.
#[verifier::external_body]
pub(crate) fn from_text(text: &str) -> (document: serde_json::Value)
    ensures
        json_tree(document) == JsonTree::Text(text@),
{
    serde_json::Value::from(text)
}

/// Calls `Value::from` with a list of documents.
#[verifier::external_body]
pub(crate) fn from_list(items: Vec<serde_json::Value>) -> (document: serde_json::Value)
    ensures
        json_tree(document) == JsonTree::List(trees(items@)),
{
    serde_json::Value::from(items)
}

/// Calls `Value::from_iter` with pairs of key and value, of which no two have the
/// same key: the object that they make.
#[verifier::external_body]
pub(crate) fn from_pairs(pairs: Vec<(String, serde_json::Value)>) -> (document: serde_json::Value)
    requires
        keys_differ(pair_views(pairs@)),
    ensures
        json_tree(document) == JsonTree::Object(object_of(pair_views(pairs@))),
{
    pairs.into_iter().collect()
}

/// Calls `serde_json::to_string_pretty` on a document of settings, which always
/// succeeds. What it writes, with or without a line feed behind it, is read
/// back as the same document.
#[verifier::external_body]
pub(crate) fn to_pretty(document: &serde_json::Value) -> (text: Result<String, serde_json::Error>)
    requires
        is_settings_document(json_tree(*document)),
    ensures
        text matches Ok(text) && text@ == pretty_json(json_tree(*document)) && parsed_json(text@)
            == Some(json_tree(*document)) && parsed_json(text@.push('\n')) == Some(
            json_tree(*document),
        ),
{
    serde_json::to_string_pretty(document)
}

/// The object that pairs make holds exactly the pairs: each key with its value.
pub proof fn law_objects_hold_their_pairs(pairs: Seq<(Seq<char>, JsonTree)>, key: Seq<char>, i: int)
    requires
        keys_differ(pairs),
    ensures
        0 <= i < pairs.len() ==> member(JsonTree::Object(object_of(pairs)), pairs[i].0) == Some(
            pairs[i].1,
        ),
        (forall|k: int| 0 <= k < pairs.len() ==> (#[trigger] pairs[k]).0 != key) ==> member(
            JsonTree::Object(object_of(pairs)),
            key,
        ) is None,
    decreases pairs.len(),
{
    if pairs.len() > 0 {
        let front = pairs.drop_last();
        let last = pairs.len() - 1;
        assert forall|a: int, b: int| 0 <= a < b < front.len() implies (#[trigger] front[a]).0 != (
        #[trigger] front[b]).0 by {
            assert(pairs[a].0 != pairs[b].0);
        }
        law_objects_hold_their_pairs(front, key, i);
        if 0 <= i < last {
            assert(front[i] == pairs[i]);
            assert(pairs[i].0 != pairs[last].0);
        }
        if forall|k: int| 0 <= k < pairs.len() ==> (#[trigger] pairs[k]).0 != key {
            assert forall|k: int| 0 <= k < front.len() implies (#[trigger] front[k]).0 != key by {
                assert(front[k] == pairs[k]);
            }
            assert(pairs[last].0 != key);
        }
    }
}

/// Nothing but an object has members.
pub proof fn law_only_objects_have_members(tree: JsonTree, key: Seq<char>)
    ensures
        !(tree is Object) ==> member(tree, key) is None,
        tree is Object ==> (member(tree, key) is Some <==> tree->Object_0.dom().contains(key)),
        tree is Object && tree->Object_0.dom().contains(key) ==> member(tree, key) == Some(
            tree->Object_0[key],
        ),
{
}

} // verus!

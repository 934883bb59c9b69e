//! JSON values of the `json` crate, seen as trees.

use vstd::prelude::*;

verus! {

/// What a JSON value holds. The members of an object stand in the order in
/// which they were inserted.
pub enum Tree {
    Null,
    Number(nat),
    Text(Seq<char>),
    Array(Seq<Tree>),
    Object(Seq<(Seq<char>, Tree)>),
}

/// The JSON value of the `json` crate.
#[verifier::external_type_specification]
#[verifier::external_body]
pub struct ExJsonValue(json::JsonValue);

/// The tree that a JSON value holds.
pub uninterp spec fn tree(value: json::JsonValue) -> Tree;

/// The text that `json` prints for a tree, with the given number of spaces
/// for each level.
pub uninterp spec fn pretty_text(tree: Tree, spaces: u16) -> Seq<char>;

/// Whether a tree has at most `levels` levels of arrays and objects.
pub open spec fn shallow(tree: Tree, levels: nat) -> bool
    decreases levels,
{
    match tree {
        Tree::Array(items) => levels > 0 && forall|i: int|
            0 <= i < items.len() ==> shallow(#[trigger] items[i], (levels - 1) as nat),
        Tree::Object(members) => levels > 0 && forall|i: int|
            0 <= i < members.len() ==> shallow((#[trigger] members[i]).1, (levels - 1) as nat),
        _ => true,
    }
}

pub open spec fn has_key(members: Seq<(Seq<char>, Tree)>, key: Seq<char>) -> bool {
    exists|i: int| 0 <= i < members.len() && (#[trigger] members[i]).0 == key
}

/// `JsonValue::Null`.
#[verifier::external_body]
pub(crate) fn null() -> (r: json::JsonValue)
    ensures
        tree(r) == Tree::Null,
{
    json::JsonValue::Null
}

/// `JsonValue::from` on a whole number.
#[verifier::external_body]
pub(crate) fn number(n: u64) -> (r: json::JsonValue)
    ensures
        tree(r) == Tree::Number(n as nat),
{
    json::JsonValue::from(n)
}

/// `JsonValue::from` on a string.
#[verifier::external_body]
pub(crate) fn string(s: &str) -> (r: json::JsonValue)
    ensures
        tree(r) == Tree::Text(s@),
{
    json::JsonValue::from(s)
}

pub open spec fn trees(values: Seq<json::JsonValue>) -> Seq<Tree> {
    values.map_values(|v: json::JsonValue| tree(v))
}

/// `JsonValue::from` on a list of values.
#[verifier::external_body]
pub(crate) fn array(values: Vec<json::JsonValue>) -> (r: json::JsonValue)
    ensures
        tree(r) == Tree::Array(trees(values@)),
{
    json::JsonValue::from(values)
}

/// `JsonValue::new_object`: an object without members.
#[verifier::external_body]
pub(crate) fn object() -> (r: json::JsonValue)
    ensures
        tree(r) == Tree::Object(seq![]),
{
    json::JsonValue::new_object()
}

/// `JsonValue::insert` on an object adds a member with a new key behind the
/// others.
#[verifier::external_body]
pub(crate) fn insert(value: &mut json::JsonValue, key: &str, member: json::JsonValue)
    requires
        tree(*old(value)) matches Tree::Object(members) && !has_key(members, key@),
    ensures
        tree(*final(value)) == Tree::Object(tree(*old(value))->Object_0.push((key@, tree(member)))),
{
    let _ = value.insert(key, member);
}

/// `JsonValue::pretty`. It counts levels and indents in 16 bits.
#[verifier::external_body]
pub(crate) fn pretty(value: &json::JsonValue, spaces: u16) -> (r: String)
    requires
        shallow(tree(*value), 8),
        spaces <= 8,
    ensures
        r@ == pretty_text(tree(*value), spaces),
{
    value.pretty(spaces)
}

} // verus!

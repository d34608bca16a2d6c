use vstd::prelude::*;

verus! {

/// A parsed JSON document: an immutable tree of six kinds of node.
///
/// Numbers keep their textual spelling; object members keep the order in
/// which they appeared in the source.
pub enum JsonValue {
    Null,
    Bool(bool),
    Number(String),
    Str(String),
    Object(Vec<(String, JsonValue)>),
    Array(Vec<JsonValue>),
}

impl JsonValue {
    /// A node that is neither an object nor an array.
    pub open spec fn is_leaf(self) -> bool {
        !(self is Object || self is Array)
    }
}

/// Number of leaves (nulls, booleans, numbers and strings) in a tree.
pub open spec fn leaf_count(v: JsonValue) -> nat
    decreases v,
{
    match v {
        JsonValue::Object(ms) => members_leaf_count(ms@),
        JsonValue::Array(es) => elements_leaf_count(es@),
        _ => 1,
    }
}

/// Number of leaves in the values of the members `ms`.
pub open spec fn members_leaf_count(ms: Seq<(String, JsonValue)>) -> nat
    decreases ms,
{
    if ms.len() == 0 {
        0
    } else {
        members_leaf_count(ms.drop_last()) + leaf_count(ms.last().1)
    }
}

/// Number of leaves in the elements `es`.
pub open spec fn elements_leaf_count(es: Seq<JsonValue>) -> nat
    decreases es,
{
    if es.len() == 0 {
        0
    } else {
        elements_leaf_count(es.drop_last()) + leaf_count(es.last())
    }
}

} // verus!

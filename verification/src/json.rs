//! The JSON boundary.
//!
//! Feed messages arrive as JSON text.  Decoding JSON is serde_json's work;
//! everything this library decides about a message (which fields it has,
//! which shapes they take, which error that earns) is verified, so the
//! boundary hands the decoded document over as a plain tree of library
//! values.  `json_tree` names the result of the decoding, which depends on
//! the text alone, and every contract downstream speaks of that name.

use vstd::prelude::*;

verus! {

/// A decoded JSON document.  A number is carried as its decimal text
/// (`serde_json::Number`'s display form), so that the verified decimal
/// parser decides whether it is acceptable.  Object entries carry unique
/// keys, in serde_json's map order.
#[derive(PartialEq, Debug)]
pub enum Json {
    Null,
    Bool(bool),
    Num(String),
    Str(String),
    Arr(Vec<Json>),
    Obj(Vec<(String, Json)>),
}

#[verifier::external_type_specification]
#[verifier::external_body]
pub struct ExValue(serde_json::Value);

/// The decoded form of a text: `Some` exactly when the text is valid JSON.
/// JSON decoding is a function of the text alone; its definition is
/// serde_json's and is not restated here.
pub uninterp spec fn json_tree(s: Seq<char>) -> Option<Json>;

/// Relies on serde_json::Value: one arm per variant, moving that variant's
/// data; a number becomes its decimal text via serde_json::Number's display
/// form.
#[verifier::external_body]
fn tree_of_value(v: serde_json::Value) -> Json {
    match v {
        serde_json::Value::Null => Json::Null,
        serde_json::Value::Bool(b) => Json::Bool(b),
        serde_json::Value::Number(n) => Json::Num(n.to_string()),
        serde_json::Value::String(s) => Json::Str(s),
        serde_json::Value::Array(a) => Json::Arr(a.into_iter().map(tree_of_value).collect()),
        serde_json::Value::Object(m) => Json::Obj(
            m.into_iter().map(|(k, x)| (k, tree_of_value(x))).collect(),
        ),
    }
}

/// Relies on serde_json::from_str::<Value>: decodes JSON text, `Err` exactly
/// on text that is not valid JSON.
#[verifier::external_body]
pub fn parse_json(text: &str) -> (r: Option<Json>)
    ensures
        r == json_tree(text@),
{
    serde_json::from_str::<serde_json::Value>(text).ok().map(tree_of_value)
}

} // verus!

//! Calls into `jsonc_parser`'s concrete syntax tree, which edits JSON with
//! comments while keeping its formatting. Each call parses the text with the
//! default options; the tree is a function of the text, so what each call
//! gives is a function of its arguments.
use vstd::prelude::*;

use jsonc_parser::cst::{CstInputValue, CstRootNode};
use jsonc_parser::ParseOptions;

verus! {

/// What `CstRootNode::parse`, with the default options, reports for `text`:
/// `None` when it parses, else the text of its error.
pub uninterp spec fn jsonc_parse_error(text: Seq<char>) -> Option<Seq<char>>;

/// Whether the root value of the tree parsed from `text` is an object
/// (`CstRootNode::object_value` is `Some`).
pub uninterp spec fn jsonc_object_root(text: Seq<char>) -> bool;

/// Whether the root object of the tree parsed from `text` has a property
/// called `name` (`CstObject::get` is `Some`).
pub uninterp spec fn jsonc_root_has_property(text: Seq<char>, name: Seq<char>) -> bool;

/// The text of the tree parsed from `text` after the root object's property
/// `name` is given (`CstObjectProp::set_value`) an object of the string
/// properties `entries`, in order.
pub uninterp spec fn jsonc_property_set(text: Seq<char>, name: Seq<char>, entries: Seq<(Seq<char>, Seq<char>)>) -> Seq<char>;

/// The text of the tree parsed from `text` after a property `name` whose
/// value is an object of the string properties `entries`, in order, is
/// appended to the root object (`CstObject::append`).
pub uninterp spec fn jsonc_property_appended(text: Seq<char>, name: Seq<char>, entries: Seq<(Seq<char>, Seq<char>)>) -> Seq<char>;

pub open spec fn entries_view(entries: Seq<(String, String)>) -> Seq<(Seq<char>, Seq<char>)> {
    entries.map_values(|e: (String, String)| (e.0@, e.1@))
}

/// `CstRootNode::parse(text, &ParseOptions::default())`: `None` when it
/// parses, else the error's `Display` text. Claimed: this is a function of
/// `text` alone (`jsonc_parse_error`).
#[verifier::external_body]
pub(crate) fn jsonc_error(text: &str) -> (r: Option<String>)
    ensures
        match r {
            None => jsonc_parse_error(text@) is None,
            Some(m) => jsonc_parse_error(text@) == Some(m@),
        },
{
    CstRootNode::parse(text, &ParseOptions::default()).err().map(|e| e.to_string())
}

/// `CstRootNode::object_value` on the tree parsed from `text`, as whether
/// it is `Some`. Claimed: a function of `text` alone (`jsonc_object_root`).
#[verifier::external_body]
pub(crate) fn jsonc_is_object_root(text: &str) -> (b: bool)
    requires
        jsonc_parse_error(text@) is None,
    ensures
        b == jsonc_object_root(text@),
{
    CstRootNode::parse(text, &ParseOptions::default()).map(|root| root.object_value().is_some()).unwrap_or(false)
}

/// `CstObject::get(name)` on the root object of the tree parsed from
/// `text`, as whether it is `Some`. Claimed: a function of the arguments
/// alone (`jsonc_root_has_property`).
#[verifier::external_body]
pub(crate) fn jsonc_has_property(text: &str, name: &str) -> (b: bool)
    requires
        jsonc_parse_error(text@) is None,
        jsonc_object_root(text@),
    ensures
        b == jsonc_root_has_property(text@, name@),
{
    CstRootNode::parse(text, &ParseOptions::default()).ok().and_then(|root| root.object_value()).and_then(|obj| obj.get(name)).is_some()
}

/// `CstObjectProp::set_value` on the root object's property `name` of the
/// tree parsed from `text`, with an object of the string properties
/// `entries`; then the tree's text. Claimed: a function of the arguments
/// alone (`jsonc_property_set`).
#[verifier::external_body]
pub(crate) fn jsonc_set_property(text: &str, name: &str, entries: &Vec<(String, String)>) -> (r: String)
    requires
        jsonc_parse_error(text@) is None,
        jsonc_object_root(text@),
        jsonc_root_has_property(text@, name@),
    ensures
        r@ == jsonc_property_set(text@, name@, entries_view(entries@)),
{
    let root = CstRootNode::parse(text, &ParseOptions::default()).unwrap();
    let value = CstInputValue::Object(entries.iter().map(|(k, v)| (k.clone(), CstInputValue::String(v.clone()))).collect());
    root.object_value().unwrap().get(name).unwrap().set_value(value);
    root.to_string()
}

/// `CstObject::append` of a property `name`, whose value is an object of
/// the string properties `entries`, to the root object of the tree parsed
/// from `text`; then the tree's text. Claimed: a function of the arguments
/// alone (`jsonc_property_appended`).
#[verifier::external_body]
pub(crate) fn jsonc_append_property(text: &str, name: &str, entries: &Vec<(String, String)>) -> (r: String)
    requires
        jsonc_parse_error(text@) is None,
        jsonc_object_root(text@),
    ensures
        r@ == jsonc_property_appended(text@, name@, entries_view(entries@)),
{
    let root = CstRootNode::parse(text, &ParseOptions::default()).unwrap();
    let value = CstInputValue::Object(entries.iter().map(|(k, v)| (k.clone(), CstInputValue::String(v.clone()))).collect());
    root.object_value().unwrap().append(name, value);
    root.to_string()
}

} // verus!

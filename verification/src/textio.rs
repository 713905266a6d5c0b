//! The boundary to JSON text: parsing text into the document tree and
//! rendering the tree as indented text. The `json` crate does both; the
//! schema itself is checked by the verified codec on the returned tree.

use vstd::prelude::*;

use crate::doc::Doc;
use crate::entry::ParseError;

verus! {

/// What `json::parse` makes of a text, carried onto the library's
/// document type: `Some` exactly on syntactically valid JSON. A fixed
/// function of the text alone.
pub uninterp spec fn parsed_document(text: Seq<char>) -> Option<Doc>;

/// The indented JSON text of a document, as `json::stringify_pretty`
/// writes it. A fixed function of the document alone.
pub uninterp spec fn rendered_document(d: Doc) -> Seq<char>;

/// The `json` crate's own tree type: opaque here, only ever carried
/// between `json::parse`, `json::stringify_pretty` and the two maps
/// below.
#[verifier::external_type_specification]
#[verifier::external_body]
pub struct ExJsonValue(json::JsonValue);

/// Maps each variant of the `json` crate's parsed tree onto the matching
/// `Doc` variant, field by field; short and long strings both become
/// `Doc::Str`.
#[verifier::external_body]
fn doc_of_json(v: &json::JsonValue) -> Doc {
    match v {
        json::JsonValue::Null => Doc::Null,
        json::JsonValue::Boolean(b) => Doc::Bool(*b),
        json::JsonValue::Number(n) => Doc::Num(*n),
        json::JsonValue::Short(s) => Doc::Str(s.as_str().to_owned()),
        json::JsonValue::String(s) => Doc::Str(s.clone()),
        json::JsonValue::Array(elems) => Doc::Arr(elems.iter().map(doc_of_json).collect()),
        json::JsonValue::Object(obj) => Doc::Obj(
            obj.iter().map(|(k, x)| (k.to_owned(), doc_of_json(x))).collect(),
        ),
    }
}

/// Maps each `Doc` variant back onto the matching variant of the `json`
/// crate's tree, field by field.
#[verifier::external_body]
fn json_of_doc(d: &Doc) -> json::JsonValue {
    match d {
        Doc::Null => json::JsonValue::Null,
        Doc::Bool(b) => json::JsonValue::Boolean(*b),
        Doc::Num(n) => json::JsonValue::Number(*n),
        Doc::Str(s) => json::JsonValue::String(s.clone()),
        Doc::Arr(elems) => json::JsonValue::Array(elems.iter().map(json_of_doc).collect()),
        Doc::Obj(fields) => json::JsonValue::Object(
            fields.iter().map(|(k, x)| (k.as_str(), json_of_doc(x))).collect(),
        ),
    }
}

/// Relies on `json::parse`: returns `Ok` exactly on syntactically valid
/// JSON text, and then the tree the text denotes, carried onto `Doc` by
/// `doc_of_json`; the outcome depends on the text alone.
#[verifier::external_body]
pub fn parse_document(text: &str) -> (r: Result<Doc, ParseError>)
    ensures
        (r matches Ok(d) ==> parsed_document(text@) == Some(d)),
        (r is Err ==> parsed_document(text@) is None),
{
    match json::parse(text) {
        Ok(v) => Ok(doc_of_json(&v)),
        Err(_) => Err(ParseError),
    }
}

/// Relies on `json::stringify_pretty` with an indent of four spaces:
/// renders the document, carried back by `json_of_doc`, as JSON text;
/// the text depends on the document alone.
#[verifier::external_body]
pub fn render_document(d: &Doc) -> (r: String)
    ensures
        r@ == rendered_document(*d),
{
    json::stringify_pretty(json_of_doc(d), 4)
}

} // verus!

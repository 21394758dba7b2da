//! Reading one top-level field of a JSON response body.
use vstd::prelude::*;

verus! {

/// What a top-level field of a JSON object holds, as far as the flows here
/// read it.
pub enum JsonField {
    /// The body is no object, or the object has no such field.
    Absent,
    /// An integer that fits in `i64`.
    Int(i64),
    /// A string.
    Str(String),
    /// Any other value.
    Other,
}

/// The view of a [`JsonField`].
pub enum FieldView {
    Absent,
    Int(int),
    Str(Seq<char>),
    Other,
}

impl View for JsonField {
    type V = FieldView;

    open spec fn view(&self) -> FieldView {
        match self {
            JsonField::Absent => FieldView::Absent,
            JsonField::Int(n) => FieldView::Int(*n as int),
            JsonField::Str(s) => FieldView::Str(s@),
            JsonField::Other => FieldView::Other,
        }
    }
}

/// The field `key` of the JSON document `body`; `None` where `body` is not
/// JSON.
pub uninterp spec fn json_field_of(body: Seq<char>, key: Seq<char>) -> Option<FieldView>;

/// Relies on serde_json's `from_str` into a `Value`, `Value::get`,
/// `Value::as_i64` and `Value::as_str`: the field `key` of the document,
/// or the parser's message where `body` is not JSON.
#[verifier::external_body]
pub(crate) fn json_field(body: &str, key: &str) -> (r: Result<JsonField, String>)
    ensures
        match r {
            Ok(f) => json_field_of(body@, key@) == Some(f@),
            Err(_) => json_field_of(body@, key@) is None,
        },
{
    let v: serde_json::Value = serde_json::from_str(body).map_err(|e| e.to_string())?;
    Ok(match v.get(key) {
        None => JsonField::Absent,
        Some(f) => match (f.as_i64(), f.as_str()) {
            (Some(n), _) => JsonField::Int(n),
            (None, Some(s)) => JsonField::Str(s.to_string()),
            (None, None) => JsonField::Other,
        },
    })
}

} // verus!

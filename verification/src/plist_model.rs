//! The parts of a property list that the battery decoder reads, as plain values,
//! and the call into the `plist` crate that produces them.

use vstd::prelude::*;

verus! {

/// `plist::Value`, the tree that `plist::from_bytes` builds.
#[verifier::external_type_specification]
#[verifier::external_body]
pub struct ExPlistValue(plist::Value);

/// `plist::Error`, the parse error of the `plist` crate.
#[verifier::external_type_specification]
#[verifier::external_body]
pub struct ExPlistError(plist::Error);

/// A property-list value, as far as the decoder reads it.
///
/// Arrays keep their order; a dictionary holds its `(key, value)` entries in
/// the order of the document (keys are distinct); an integer holds its value
/// when it fits an `i64` (`plist::Integer::as_signed`), and `None` otherwise.
/// Booleans, dates, reals, strings and UIDs are all `Other`.
#[derive(Debug)]
pub enum PlistValue {
    Array(Vec<PlistValue>),
    Dictionary(Vec<(String, PlistValue)>),
    Data(Vec<u8>),
    Integer(Option<i64>),
    Other,
}

/// The value that `plist::from_bytes::<plist::Value>` decodes from `bytes`,
/// seen as a [`PlistValue`]; `None` where the crate reports an error.
pub uninterp spec fn plist_document(bytes: Seq<u8>) -> Option<PlistValue>;

/// Decodes a property list, in any encoding that `plist::from_bytes` reads,
/// and keeps what the decoder reads of it.
///
/// Trusted: `plist::from_bytes::<plist::Value>`. The contract claims only that
/// the outcome is a function of the bytes (`plist_document`): success exactly
/// when that function has a value, and then that value. What the `plist`
/// crate accepts, and how it builds the tree, is not stated.
#[verifier::external_body]
pub(crate) fn decode_plist(bytes: &[u8]) -> (r: Result<PlistValue, plist::Error>)
    ensures
        r is Ok <==> plist_document(bytes@) is Some,
        r matches Ok(v) ==> plist_document(bytes@) == Some(v),
{
    match plist::from_bytes::<plist::Value>(bytes) {
        Ok(value) => Ok(plist_tree(&value)),
        Err(e) => Err(e),
    }
}

/// Copies a `plist::Value` into a [`PlistValue`], one variant for one variant
/// (an integer by `plist::Integer::as_signed`). Used only by `decode_plist`.
#[verifier::external_body]
fn plist_tree(value: &plist::Value) -> PlistValue {
    match value {
        plist::Value::Array(items) => PlistValue::Array(items.iter().map(plist_tree).collect()),
        plist::Value::Dictionary(d) => PlistValue::Dictionary(
            d.iter().map(|(k, v)| (k.clone(), plist_tree(v))).collect(),
        ),
        plist::Value::Data(bytes) => PlistValue::Data(bytes.clone()),
        plist::Value::Integer(i) => PlistValue::Integer(i.as_signed()),
        _ => PlistValue::Other,
    }
}

/// The display text of a `plist` parse error.
///
/// Trusted: `<plist::Error as Display>::fmt` through `to_string`; nothing is
/// stated of the text.
#[verifier::external_body]
pub(crate) fn plist_error_text(e: &plist::Error) -> String {
    e.to_string()
}

} // verus!

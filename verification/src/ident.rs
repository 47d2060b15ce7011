//! Player identifiers: 128-bit numbers, written as text the way UUIDs are.

use uuid::Uuid;
use vstd::prelude::*;

verus! {

/// The number of the identifier that `uuid::Uuid::parse_str` reads from
/// `text`, or `None` where it refuses the text.
pub uninterp spec fn uuid_value(text: Seq<char>) -> Option<u128>;

/// The words in which `uuid::Error` says why `uuid::Uuid::parse_str` refused
/// `text`.  They mean something only for a text that is refused.
pub uninterp spec fn uuid_refusal(text: Seq<char>) -> Seq<char>;

/// The text that `uuid::Uuid` shows for the identifier of number `id`: the
/// hyphenated form in lower-case hexadecimal digits.
pub uninterp spec fn uuid_text(id: u128) -> Seq<char>;

/// Reads an identifier with `uuid::Uuid::parse_str`.  An identifier is handed
/// on as its number (`Uuid::as_u128`), a refusal as the words that
/// `uuid::Error` shows for it.  Trusted: the outcome is the one that
/// `uuid_value` names for the text, an error exactly where that is `None`,
/// and the words of the error are those that `uuid_refusal` names; both
/// depend on the text alone.
#[verifier::external_body]
pub(crate) fn parse_uuid(text: &str) -> (r: Result<u128, String>)
    ensures
        match r {
            Ok(id) => uuid_value(text@) == Some(id),
            Err(words) => uuid_value(text@) is None && words@ == uuid_refusal(text@),
        },
{
    match Uuid::parse_str(text) {
        Ok(id) => Ok(id.as_u128()),
        Err(error) => Err(error.to_string()),
    }
}

/// Shows the identifier of number `id` as `uuid::Uuid` does: `Uuid::from_u128`,
/// then its `Display`.  Trusted: the text is the one that `uuid_text` names,
/// and `parse_str` reads the same number back from it, as the crate documents
/// of every form that it writes.
#[verifier::external_body]
pub(crate) fn format_uuid(id: u128) -> (r: String)
    ensures
        r@ == uuid_text(id),
        uuid_value(r@) == Some(id),
{
    Uuid::from_u128(id).to_string()
}

} // verus!

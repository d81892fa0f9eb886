//! What the library takes from outside: identifiers, the time, owned
//! strings, and sets that keep the order of their items.

use vstd::prelude::*;

verus! {

/// The hyphenated text of the UUID whose 128-bit value is `id`.
pub uninterp spec fn uuid_text(id: u128) -> Seq<char>;

/// The 128-bit value of the UUID that `text` spells, if it spells one.
pub uninterp spec fn uuid_value(text: Seq<char>) -> Option<u128>;

/// Calls `uuid::Uuid::new_v4` and returns the 128-bit value of the UUID it
/// made. The value is random: nothing is claimed of it.
#[verifier::external_body]
pub(crate) fn new_uuid() -> (id: u128) {
    uuid::Uuid::new_v4().as_u128()
}

/// Calls `to_string` on the `uuid::Uuid` with the value `id`, which writes
/// the UUID in its hyphenated form. The contract gives that text a name.
#[verifier::external_body]
pub(crate) fn uuid_to_string(id: u128) -> (text: String)
    ensures
        text@ == uuid_text(id),
{
    uuid::Uuid::from_u128(id).to_string()
}

/// Calls `uuid::Uuid::parse_str`. The contract names the result and claims
/// what the crate documents: the text that the crate itself writes for a
/// UUID is read back as that UUID.
#[verifier::external_body]
pub(crate) fn parse_uuid(text: &str) -> (id: Option<u128>)
    ensures
        id == uuid_value(text@),
        forall|v: u128| text@ == uuid_text(v) ==> id == Some(v),
{
    match uuid::Uuid::parse_str(text) {
        Ok(uuid) => Some(uuid.as_u128()),
        Err(_) => None,
    }
}

/// The `String` that holds the characters `text`.
pub uninterp spec fn text_string(text: Seq<char>) -> String;

/// Calls `String::from` on a string slice, which copies its characters
/// into a new `String`. The contract names that `String` and claims that
/// it holds the characters of the slice.
#[verifier::external_body]
pub(crate) fn make_string(text: &str) -> (r: String)
    ensures
        r == text_string(text@),
        r@ == text@,
{
    String::from(text)
}

/// The sets of `indexmap`, which keep their items in the order in which
/// they were put in.
#[verifier::external_type_specification]
#[verifier::external_body]
#[verifier::reject_recursive_types(T)]
#[verifier::reject_recursive_types(S)]
pub struct ExIndexSet<T, S>(indexmap::IndexSet<T, S>);

/// The items of a set of cells, in the order in which they were put in.
/// A cell is given by the identifier of its sheet, its column and its row.
pub uninterp spec fn index_set_items(set: indexmap::IndexSet<(u128, i64, i64)>) -> Seq<
    (u128, i64, i64),
>;

/// Calls `IndexSet::insert`. As the crate documents it: an item that is
/// in the set already leaves the set as it is, order included, and
/// `false` is returned; any other item is put at the end, and `true` is
/// returned.
#[verifier::external_body]
pub(crate) fn index_set_insert(
    set: &mut indexmap::IndexSet<(u128, i64, i64)>,
    item: (u128, i64, i64),
) -> (added: bool)
    ensures
        added == !index_set_items(*old(set)).contains(item),
        index_set_items(*final(set)) == if added {
            index_set_items(*old(set)).push(item)
        } else {
            index_set_items(*old(set))
        },
{
    set.insert(item)
}

/// Calls `chrono::Utc::now` and returns the time in milliseconds since the
/// Unix epoch. Nothing is claimed of the value.
#[verifier::external_body]
pub(crate) fn utc_now_millis() -> (millis: i64) {
    chrono::Utc::now().timestamp_millis()
}

} // verus!

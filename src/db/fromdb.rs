//! Convert things from the format used in the database to the external format.
use vstd::prelude::*;
use crate::types::ItemType;
use super::{DbResult, Error};

verus! {

/// The decimal digits of an integer, with a leading `-` where negative.
pub uninterp spec fn decimal_of(n: int) -> Seq<char>;

/// Relies on `i64::to_string` (through `Display`): the integer's decimal text.
#[verifier::external_body]
fn decimal(n: i64) -> (r: String)
    ensures
        r@ == decimal_of(n as int),
{
    n.to_string()
}

/// Convert database ID to external ID.
pub fn id(dbid: i64) -> (r: String)
    ensures
        r@ == decimal_of(dbid as int),
{
    decimal(dbid)
}

/// The name an item type is stored under.
pub open spec fn item_type_name(t: ItemType) -> Seq<char> {
    match t {
        ItemType::Event => "Event"@,
        ItemType::ProgressTask => "ProgressTask"@,
        ItemType::DeadlineTask => "DeadlineTask"@,
    }
}

/// Convert item type from database format.
///
/// Fails with [`Error::Codec`] on a name that is no item type's.
pub fn item_type(type_str: &str) -> (r: DbResult<ItemType>)
    ensures
        r matches Ok(t) ==> item_type_name(t) == type_str@,
        r is Err <==> (type_str@ != "Event"@ && type_str@ != "ProgressTask"@ && type_str@
            != "DeadlineTask"@),
{
    let s = type_str.to_string();
    proof {
        vstd::string::to_string_from_display_ensures_for_str(type_str, s);
    }
    let event = "Event".to_string();
    let progress = "ProgressTask".to_string();
    let deadline = "DeadlineTask".to_string();
    proof {
        vstd::string::to_string_from_display_ensures_for_str("Event", event);
        vstd::string::to_string_from_display_ensures_for_str("ProgressTask", progress);
        vstd::string::to_string_from_display_ensures_for_str("DeadlineTask", deadline);
    }
    if s == event {
        Ok(ItemType::Event)
    } else if s == progress {
        Ok(ItemType::ProgressTask)
    } else if s == deadline {
        Ok(ItemType::DeadlineTask)
    } else {
        Err(Error::Codec(s))
    }
}

} // verus!

//! Static lookup tables of the destination CRM: object-type ids, note
//! association types, and record URLs.

use vstd::prelude::*;
use vstd::string::*;
use crate::strmap::str_eq;

verus! {

/// The numeric type id of an object name; custom names fall back to the
/// `2-` pattern.
pub open spec fn spec_object_type_id(name: Seq<char>) -> Seq<char> {
    if name == "companies"@ {
        "0-2"@
    } else if name == "contacts"@ {
        "0-1"@
    } else if name == "deals"@ {
        "0-3"@
    } else if name == "tickets"@ {
        "0-5"@
    } else if name == "appointments"@ {
        "0-421"@
    } else if name == "calls"@ {
        "0-48"@
    } else if name == "communications"@ {
        "0-18"@
    } else if name == "courses"@ {
        "0-410"@
    } else if name == "emails"@ {
        "0-49"@
    } else if name == "feedback_submissions"@ {
        "0-19"@
    } else if name == "invoices"@ {
        "0-53"@
    } else if name == "leads"@ {
        "0-136"@
    } else if name == "line_items"@ {
        "0-8"@
    } else if name == "listings"@ {
        "0-420"@
    } else if name == "marketing_events"@ {
        "0-54"@
    } else if name == "meetings"@ {
        "0-47"@
    } else if name == "notes"@ {
        "0-46"@
    } else if name == "orders"@ {
        "0-123"@
    } else if name == "payments"@ {
        "0-101"@
    } else if name == "postal_mail"@ {
        "0-116"@
    } else if name == "products"@ {
        "0-7"@
    } else if name == "quotes"@ {
        "0-14"@
    } else if name == "services"@ {
        "0-162"@
    } else if name == "subscriptions"@ {
        "0-69"@
    } else if name == "tasks"@ {
        "0-27"@
    } else if name == "users"@ {
        "0-115"@
    } else {
        "2-"@ + name
    }
}

/// The numeric type id of a standard object, or `2-<name>` for others.
pub fn get_object_type_id(object_name: &str) -> (r: String)
    ensures
        r@ == spec_object_type_id(object_name@),
{
    if str_eq(object_name, "companies") {
        String::from_str("0-2")
    } else if str_eq(object_name, "contacts") {
        String::from_str("0-1")
    } else if str_eq(object_name, "deals") {
        String::from_str("0-3")
    } else if str_eq(object_name, "tickets") {
        String::from_str("0-5")
    } else if str_eq(object_name, "appointments") {
        String::from_str("0-421")
    } else if str_eq(object_name, "calls") {
        String::from_str("0-48")
    } else if str_eq(object_name, "communications") {
        String::from_str("0-18")
    } else if str_eq(object_name, "courses") {
        String::from_str("0-410")
    } else if str_eq(object_name, "emails") {
        String::from_str("0-49")
    } else if str_eq(object_name, "feedback_submissions") {
        String::from_str("0-19")
    } else if str_eq(object_name, "invoices") {
        String::from_str("0-53")
    } else if str_eq(object_name, "leads") {
        String::from_str("0-136")
    } else if str_eq(object_name, "line_items") {
        String::from_str("0-8")
    } else if str_eq(object_name, "listings") {
        String::from_str("0-420")
    } else if str_eq(object_name, "marketing_events") {
        String::from_str("0-54")
    } else if str_eq(object_name, "meetings") {
        String::from_str("0-47")
    } else if str_eq(object_name, "notes") {
        String::from_str("0-46")
    } else if str_eq(object_name, "orders") {
        String::from_str("0-123")
    } else if str_eq(object_name, "payments") {
        String::from_str("0-101")
    } else if str_eq(object_name, "postal_mail") {
        String::from_str("0-116")
    } else if str_eq(object_name, "products") {
        String::from_str("0-7")
    } else if str_eq(object_name, "quotes") {
        String::from_str("0-14")
    } else if str_eq(object_name, "services") {
        String::from_str("0-162")
    } else if str_eq(object_name, "subscriptions") {
        String::from_str("0-69")
    } else if str_eq(object_name, "tasks") {
        String::from_str("0-27")
    } else if str_eq(object_name, "users") {
        String::from_str("0-115")
    } else {
        String::from_str("2-").concat(object_name)
    }
}

/// The note association-type id per destination object.
pub open spec fn spec_association_type_id(name: Seq<char>) -> u32 {
    if name == "contacts"@ {
        202u32
    } else if name == "companies"@ {
        190u32
    } else if name == "deals"@ {
        214u32
    } else if name == "tickets"@ {
        226u32
    } else {
        202u32
    }
}

/// The association-type id used when a note is tied to a record.
pub fn get_association_type_id(object_name: &str) -> (r: u32)
    ensures
        r == spec_association_type_id(object_name@),
{
    if str_eq(object_name, "contacts") {
        202
    } else if str_eq(object_name, "companies") {
        190
    } else if str_eq(object_name, "deals") {
        214
    } else if str_eq(object_name, "tickets") {
        226
    } else {
        202
    }
}

/// The browser URL of a destination record.
pub open spec fn spec_record_url(
    ui_domain: Seq<char>,
    portal_id: Seq<char>,
    object_name: Seq<char>,
    record_id: Seq<char>,
) -> Seq<char> {
    "https://"@ + ui_domain + "/contacts/"@ + portal_id + "/record/"@ + spec_object_type_id(
        object_name,
    ) + "/"@ + record_id
}

/// Build the browser URL of a destination record.
pub fn build_record_url(ui_domain: &str, portal_id: &str, object_name: &str, record_id: &str) -> (r:
    String)
    ensures
        r@ == spec_record_url(ui_domain@, portal_id@, object_name@, record_id@),
{
    let type_id = get_object_type_id(object_name);
    String::from_str("https://").concat(ui_domain).concat("/contacts/").concat(portal_id).concat(
        "/record/",
    ).concat(type_id.as_str()).concat("/").concat(record_id)
}

} // verus!

//! Restock notifications: one message per item below its threshold, best effort.

use vstd::prelude::*;

use crate::error::AppError;
use crate::model::{Item, Notification};
use crate::store::{is_item_listing, selected_records, Inventory};

verus! {

pub open spec fn digit_char(d: int) -> char {
    seq!['0', '1', '2', '3', '4', '5', '6', '7', '8', '9'][d]
}

/// The base-ten digits of `n`, without leading zeros.
pub open spec fn decimal_digits(n: nat) -> Seq<char>
    decreases n,
{
    if n < 10 {
        seq![digit_char(n as int)]
    } else {
        decimal_digits(n / 10).push(digit_char((n % 10) as int))
    }
}

/// `n` written in base ten, with a leading `-` when negative.
pub open spec fn decimal_text(n: int) -> Seq<char> {
    if n < 0 {
        seq!['-'] + decimal_digits((-n) as nat)
    } else {
        decimal_digits(n as nat)
    }
}

/// Relies on `i32`'s `Display`, through `to_string`: base-ten digits without leading zeros,
/// preceded by `-` when the number is negative.
#[verifier::external_body]
fn decimal(n: i32) -> (r: String)
    ensures
        r@ == decimal_text(n as int),
{
    n.to_string()
}

/// The message of the JSON interface for an item to restock.
pub open spec fn api_message(it: Item) -> Seq<char> {
    "Item '"@ + it.name@ + "' needs restocking. Current: "@ + decimal_text(it.quantity as int)
        + ", Threshold: "@ + decimal_text(it.restock_threshold as int) + "."@
}

/// The message of the web pages for an item to restock.
pub open spec fn page_message(it: Item) -> Seq<char> {
    "Aktualna ilość: "@ + decimal_text(it.quantity as int) + ", próg uzupełnienia: "@
        + decimal_text(it.restock_threshold as int) + ". Proszę uzupełnij!"@
}

/// `r` holds one notification per item of `items`, in order, with the message that
/// `page` selects.
pub open spec fn notices_for(r: Seq<Notification>, items: Seq<Item>, page: bool) -> bool {
    &&& r.len() == items.len()
    &&& forall|k: int|
        #![trigger r[k]]
        0 <= k < r.len() ==> r[k].item_name == items[k].name && r[k].message@ == (if page {
            page_message(items[k])
        } else {
            api_message(items[k])
        })
}

fn notice(it: &Item, page: bool) -> (r: Notification)
    ensures
        r.item_name == it.name,
        r.message@ == (if page { page_message(*it) } else { api_message(*it) }),
{
    let q = decimal(it.quantity);
    let t = decimal(it.restock_threshold);
    let message = if page {
        String::from_str("Aktualna ilość: ").concat(q.as_str()).concat(", próg uzupełnienia: ").concat(
            t.as_str(),
        ).concat(". Proszę uzupełnij!")
    } else {
        String::from_str("Item '").concat(it.name.as_str()).concat(
            "' needs restocking. Current: ",
        ).concat(q.as_str()).concat(", Threshold: ").concat(t.as_str()).concat(".")
    };
    Notification { item_name: it.name.clone(), message }
}

fn notices(restock: Result<Vec<Item>, AppError>, page: bool) -> (r: Vec<Notification>)
    ensures
        match restock {
            Ok(items) => notices_for(r@, items@, page),
            Err(_) => r@.len() == 0,
        },
{
    match restock {
        Err(_) => Vec::new(),
        Ok(items) => {
            let mut r: Vec<Notification> = Vec::new();
            let mut i: usize = 0;
            while i < items.len()
                invariant
                    i <= items@.len(),
                    r@.len() == i,
                    forall|k: int|
                        #![trigger r@[k]]
                        0 <= k < i ==> r@[k].item_name == items@[k].name && r@[k].message@ == (
                        if page {
                            page_message(items@[k])
                        } else {
                            api_message(items@[k])
                        }),
                decreases items@.len() - i,
            {
                r.push(notice(&items[i], page));
                i = i + 1;
            }
            r
        },
    }
}

/// Notifications for the web pages from the outcome of fetching the items to restock.
/// A failed fetch yields no notification, never an error.
pub fn get_notifications(restock: Result<Vec<Item>, AppError>) -> (r: Vec<Notification>)
    ensures
        match restock {
            Ok(items) => notices_for(r@, items@, true),
            Err(_) => r@.len() == 0,
        },
{
    notices(restock, true)
}

/// Notifications for the JSON interface from the outcome of fetching the items to restock.
/// A failed fetch yields no notification, never an error.
pub fn get_api_notifications(restock: Result<Vec<Item>, AppError>) -> (r: Vec<Notification>)
    ensures
        match restock {
            Ok(items) => notices_for(r@, items@, false),
            Err(_) => r@.len() == 0,
        },
{
    notices(restock, false)
}

/// The web notifications of account `user_id`: one per item below its restock threshold,
/// in order of item name.
pub fn notifications_for(inv: &Inventory, user_id: i32) -> (r: Vec<Notification>)
    requires
        inv.wf(),
    ensures
        exists|items: Seq<Item>|
            is_item_listing(items, selected_records(inv.item_records(), user_id, true), inv.category_records())
                && notices_for(r@, items, true),
{
    let items = inv.get_items_to_restock(user_id);
    let ghost listed = items@;
    let r = get_notifications(Ok(items));
    assert(is_item_listing(listed, selected_records(inv.item_records(), user_id, true), inv.category_records()));
    r
}

} // verus!

//! The inventory repository: every account's items, categories and accounts, with the
//! quantity rules applied atomically and every read and write scoped to one account.
//!
//! Deleting a category sets the category reference of its items to none; the items stay.

use vstd::prelude::*;

use crate::error::AppError;
use crate::grouping::{group_by_category, is_grouping};
use crate::model::{
    Account, Category, CreateCategoryPayload, CreateItemPayload, GroupedItems, Item, PurchaseItemPayload,
    Timestamp,
    UpdateItemPayload,
};
use crate::order::{is_name_order, order_by_name, string_views};

verus! {

/// An item as stored, with the account that owns it and its category's id.
#[derive(Debug)]
pub struct ItemRecord {
    pub owner: i32,
    pub id: i32,
    pub name: String,
    pub quantity: i32,
    pub restock_threshold: i32,
    pub category_id: Option<i32>,
    pub created_at: Timestamp,
    pub updated_at: Timestamp,
}

impl Clone for ItemRecord {
    fn clone(&self) -> (r: Self)
        ensures
            r == *self,
    {
        ItemRecord {
            owner: self.owner,
            id: self.id,
            name: self.name.clone(),
            quantity: self.quantity,
            restock_threshold: self.restock_threshold,
            category_id: self.category_id,
            created_at: self.created_at,
            updated_at: self.updated_at,
        }
    }
}

/// A category as stored, with the account that owns it.
#[derive(Debug)]
pub struct CategoryRecord {
    pub owner: i32,
    pub id: i32,
    pub name: String,
    pub color: String,
}

pub open spec fn holds_item(items: Seq<ItemRecord>, owner: i32, id: i32, k: int) -> bool {
    0 <= k < items.len() && items[k].owner == owner && items[k].id == id
}

/// Where the item `id` of account `owner` is stored, if it is.
pub open spec fn item_slot(items: Seq<ItemRecord>, owner: i32, id: i32) -> Option<int> {
    if exists|k: int| holds_item(items, owner, id, k) {
        Some(choose|k: int| holds_item(items, owner, id, k))
    } else {
        None
    }
}

pub open spec fn holds_category(cats: Seq<CategoryRecord>, owner: i32, id: i32, k: int) -> bool {
    0 <= k < cats.len() && cats[k].owner == owner && cats[k].id == id
}

/// Where the category `id` of account `owner` is stored, if it is.
pub open spec fn category_slot(cats: Seq<CategoryRecord>, owner: i32, id: i32) -> Option<int> {
    if exists|k: int| holds_category(cats, owner, id, k) {
        Some(choose|k: int| holds_category(cats, owner, id, k))
    } else {
        None
    }
}

pub open spec fn category_of_record(c: CategoryRecord) -> Category {
    Category { id: c.id, name: c.name, color: c.color }
}

/// The category that account `owner` has under `id`, if any.
pub open spec fn resolve_category(cats: Seq<CategoryRecord>, owner: i32, id: Option<i32>) -> Option<Category> {
    match id {
        None => None,
        Some(c) => match category_slot(cats, owner, c) {
            None => None,
            Some(k) => Some(category_of_record(cats[k])),
        },
    }
}

/// The item as callers see it: the stored record with its category joined in.
pub open spec fn item_view(r: ItemRecord, cats: Seq<CategoryRecord>) -> Item {
    Item {
        id: r.id,
        name: r.name,
        quantity: r.quantity,
        restock_threshold: r.restock_threshold,
        category: resolve_category(cats, r.owner, r.category_id),
        created_at: r.created_at,
        updated_at: r.updated_at,
    }
}

/// The item `id` of account `owner`, as callers see it.
pub open spec fn read_item(items: Seq<ItemRecord>, cats: Seq<CategoryRecord>, owner: i32, id: i32) -> Option<Item> {
    match item_slot(items, owner, id) {
        None => None,
        Some(k) => Some(item_view(items[k], cats)),
    }
}

pub open spec fn item_ids_unique(items: Seq<ItemRecord>) -> bool {
    forall|a: int, b: int|
        #![trigger items[a], items[b]]
        0 <= a < items.len() && 0 <= b < items.len() && a != b ==> items[a].id != items[b].id
}

pub open spec fn category_ids_unique(cats: Seq<CategoryRecord>) -> bool {
    forall|a: int, b: int|
        #![trigger cats[a], cats[b]]
        0 <= a < cats.len() && 0 <= b < cats.len() && a != b ==> cats[a].id != cats[b].id
}

pub open spec fn quantities_non_negative(items: Seq<ItemRecord>) -> bool {
    forall|k: int| 0 <= k < items.len() ==> #[trigger] items[k].quantity >= 0
}

/// The record with its quantity set to `q` and its update time to `now`.
pub open spec fn with_quantity(r: ItemRecord, q: int, now: Timestamp) -> ItemRecord {
    ItemRecord { quantity: q as i32, updated_at: now, ..r }
}

/// The stored items after account `owner` uses one unit of item `id`: the quantity drops
/// by one and never below zero; an item at zero, or one that is not there, is left as it is.
pub open spec fn use_effect(items: Seq<ItemRecord>, owner: i32, id: i32, now: Timestamp) -> Seq<ItemRecord> {
    match item_slot(items, owner, id) {
        None => items,
        Some(k) => if items[k].quantity <= 0 {
            items
        } else {
            items.update(k, with_quantity(items[k], items[k].quantity - 1, now))
        },
    }
}

/// The stored items after account `owner` buys `amount` of item `id`; an amount that is
/// not positive changes nothing.
pub open spec fn purchase_effect(
    items: Seq<ItemRecord>,
    owner: i32,
    id: i32,
    amount: i32,
    now: Timestamp,
) -> Seq<ItemRecord> {
    match item_slot(items, owner, id) {
        None => items,
        Some(k) => if amount <= 0 {
            items
        } else {
            items.update(k, with_quantity(items[k], items[k].quantity + amount, now))
        },
    }
}

/// The purchase would take the quantity beyond the largest storable value.
pub open spec fn purchase_overflows(items: Seq<ItemRecord>, owner: i32, id: i32, amount: i32) -> bool {
    match item_slot(items, owner, id) {
        None => false,
        Some(k) => amount > 0 && items[k].quantity + amount > i32::MAX,
    }
}

/// The stored items after account `owner` deletes item `id`.
pub open spec fn delete_effect(items: Seq<ItemRecord>, owner: i32, id: i32) -> Seq<ItemRecord> {
    match item_slot(items, owner, id) {
        None => items,
        Some(k) => items.remove(k),
    }
}

pub proof fn lemma_item_slot_is(items: Seq<ItemRecord>, owner: i32, id: i32, k: int)
    requires
        item_ids_unique(items),
        holds_item(items, owner, id, k),
    ensures
        item_slot(items, owner, id) == Some(k),
{
    let j = choose|j: int| holds_item(items, owner, id, j);
    assert(holds_item(items, owner, id, j));
    if j != k {
        assert(items[j].id != items[k].id);
    }
}

pub proof fn lemma_category_slot_is(cats: Seq<CategoryRecord>, owner: i32, id: i32, k: int)
    requires
        category_ids_unique(cats),
        holds_category(cats, owner, id, k),
    ensures
        category_slot(cats, owner, id) == Some(k),
{
    let j = choose|j: int| holds_category(cats, owner, id, j);
    assert(holds_category(cats, owner, id, j));
    if j != k {
        assert(cats[j].id != cats[k].id);
    }
}

fn find_item(items: &Vec<ItemRecord>, owner: i32, id: i32) -> (r: Option<usize>)
    requires
        item_ids_unique(items@),
    ensures
        match r {
            Some(k) => item_slot(items@, owner, id) == Some(k as int),
            None => item_slot(items@, owner, id) is None,
        },
{
    let mut i: usize = 0;
    while i < items.len()
        invariant
            item_ids_unique(items@),
            i <= items@.len(),
            forall|k: int| 0 <= k < i ==> !#[trigger] holds_item(items@, owner, id, k),
        decreases items@.len() - i,
    {
        if items[i].owner == owner && items[i].id == id {
            proof {
                lemma_item_slot_is(items@, owner, id, i as int);
            }
            return Some(i);
        }
        i = i + 1;
    }
    None
}

fn find_category(cats: &Vec<CategoryRecord>, owner: i32, id: i32) -> (r: Option<usize>)
    requires
        category_ids_unique(cats@),
    ensures
        match r {
            Some(k) => category_slot(cats@, owner, id) == Some(k as int),
            None => category_slot(cats@, owner, id) is None,
        },
{
    let mut i: usize = 0;
    while i < cats.len()
        invariant
            category_ids_unique(cats@),
            i <= cats@.len(),
            forall|k: int| 0 <= k < i ==> !#[trigger] holds_category(cats@, owner, id, k),
        decreases cats@.len() - i,
    {
        if cats[i].owner == owner && cats[i].id == id {
            proof {
                lemma_category_slot_is(cats@, owner, id, i as int);
            }
            return Some(i);
        }
        i = i + 1;
    }
    None
}

fn category_view(cats: &Vec<CategoryRecord>, owner: i32, id: Option<i32>) -> (r: Option<Category>)
    requires
        category_ids_unique(cats@),
    ensures
        r == resolve_category(cats@, owner, id),
{
    match id {
        None => None,
        Some(c) => match find_category(cats, owner, c) {
            None => None,
            Some(k) => Some(
                Category { id: cats[k].id, name: cats[k].name.clone(), color: cats[k].color.clone() },
            ),
        },
    }
}

fn view_item(r: &ItemRecord, cats: &Vec<CategoryRecord>) -> (v: Item)
    requires
        category_ids_unique(cats@),
    ensures
        v == item_view(*r, cats@),
{
    Item {
        id: r.id,
        name: r.name.clone(),
        quantity: r.quantity,
        restock_threshold: r.restock_threshold,
        category: category_view(cats, r.owner, r.category_id),
        created_at: r.created_at,
        updated_at: r.updated_at,
    }
}


pub open spec fn account_ids_unique(accounts: Seq<Account>) -> bool {
    forall|a: int, b: int|
        #![trigger accounts[a], accounts[b]]
        0 <= a < accounts.len() && 0 <= b < accounts.len() && a != b ==> accounts[a].id
            != accounts[b].id
}

pub open spec fn emails_unique(accounts: Seq<Account>) -> bool {
    forall|a: int, b: int|
        #![trigger accounts[a], accounts[b]]
        0 <= a < accounts.len() && 0 <= b < accounts.len() && a != b ==> accounts[a].email@
            != accounts[b].email@
}

/// Each item's category reference names a category of the item's own account.
pub open spec fn category_links_valid(items: Seq<ItemRecord>, cats: Seq<CategoryRecord>) -> bool {
    forall|k: int|
        0 <= k < items.len() && (#[trigger] items[k]).category_id is Some ==> category_slot(
            cats,
            items[k].owner,
            items[k].category_id->0,
        ) is Some
}

/// The invariant of the stored records.
pub open spec fn records_wf(items: Seq<ItemRecord>, cats: Seq<CategoryRecord>, accounts: Seq<Account>) -> bool {
    &&& item_ids_unique(items)
    &&& category_ids_unique(cats)
    &&& account_ids_unique(accounts)
    &&& emails_unique(accounts)
    &&& quantities_non_negative(items)
    &&& category_links_valid(items, cats)
}

/// The record that creating an item from `p` stores under `id`; the threshold defaults to 1.
pub open spec fn new_item_record(owner: i32, id: i32, p: CreateItemPayload, now: Timestamp) -> ItemRecord {
    ItemRecord {
        owner,
        id,
        name: p.name,
        quantity: p.quantity,
        restock_threshold: match p.restock_threshold {
            Some(t) => t,
            None => DEFAULT_RESTOCK_THRESHOLD,
        },
        category_id: p.category_id,
        created_at: now,
        updated_at: now,
    }
}

/// `id`, if given, names no category of account `owner`.
pub open spec fn bad_category_ref(cats: Seq<CategoryRecord>, owner: i32, id: Option<i32>) -> bool {
    id is Some && category_slot(cats, owner, id->0) is None
}

/// The quantity given, if any, is negative.
pub open spec fn negative_quantity(quantity: Option<i32>) -> bool {
    quantity is Some && quantity->0 < 0
}

/// The default restock threshold of a new item.
pub const DEFAULT_RESTOCK_THRESHOLD: i32 = 1;

/// Checks the fields of a new or changed item: refused when the quantity given is negative,
/// or when a category id is given and `owned_category` (that category, looked up among the
/// account's own) is none.
pub fn check_item_fields(quantity: Option<i32>, category_id: Option<i32>, owned_category: Option<Category>) -> (r: Result<(), AppError>)
    ensures
        r is Ok <==> !negative_quantity(quantity) && (category_id is None || owned_category is Some),
        r is Err ==> (r matches Err(AppError::BadRequest(_))),
{
    match quantity {
        Some(q) => {
            if q < 0 {
                return Err(AppError::BadRequest(String::from_str("the quantity must not be negative")));
            }
        },
        None => {},
    }
    match (category_id, owned_category) {
        (Some(_), None) => Err(AppError::BadRequest(String::from_str("no such category"))),
        _ => Ok(()),
    }
}

/// Creating an item from `p` is refused: a negative quantity, or a category reference
/// that does not resolve for the account.
pub open spec fn create_refused(cats: Seq<CategoryRecord>, owner: i32, p: CreateItemPayload) -> bool {
    negative_quantity(Some(p.quantity)) || bad_category_ref(cats, owner, p.category_id)
}

/// The record after the partial change `p`: each field that `p` leaves unset keeps its value.
pub open spec fn merged_record(r: ItemRecord, p: UpdateItemPayload, now: Timestamp) -> ItemRecord {
    ItemRecord {
        name: match p.name {
            Some(n) => n,
            None => r.name,
        },
        quantity: match p.quantity {
            Some(q) => q,
            None => r.quantity,
        },
        restock_threshold: match p.restock_threshold {
            Some(t) => t,
            None => r.restock_threshold,
        },
        category_id: match p.category_id {
            Some(c) => Some(c),
            None => r.category_id,
        },
        updated_at: now,
        ..r
    }
}

/// The change `p` of an existing item is refused: an explicit negative quantity, or a
/// category reference that does not resolve for the account.
pub open spec fn update_refused(
    items: Seq<ItemRecord>,
    cats: Seq<CategoryRecord>,
    owner: i32,
    id: i32,
    p: UpdateItemPayload,
) -> bool {
    item_slot(items, owner, id) is Some && (negative_quantity(p.quantity) || bad_category_ref(
        cats,
        owner,
        p.category_id,
    ))
}

/// The stored items after account `owner` applies the change `p` to item `id`.
pub open spec fn update_effect(
    items: Seq<ItemRecord>,
    owner: i32,
    id: i32,
    p: UpdateItemPayload,
    now: Timestamp,
) -> Seq<ItemRecord> {
    match item_slot(items, owner, id) {
        None => items,
        Some(k) => items.update(k, merged_record(items[k], p, now)),
    }
}

/// The records of account `owner`, in stored order; with `low_only`, just those whose
/// quantity is strictly below their restock threshold.
pub open spec fn selected_records(items: Seq<ItemRecord>, owner: i32, low_only: bool) -> Seq<ItemRecord>
    decreases items.len(),
{
    if items.len() == 0 {
        Seq::empty()
    } else {
        let rest = selected_records(items.drop_last(), owner, low_only);
        let r = items.last();
        if r.owner == owner && (!low_only || r.quantity < r.restock_threshold) {
            rest.push(r)
        } else {
            rest
        }
    }
}

pub open spec fn record_names(recs: Seq<ItemRecord>) -> Seq<Seq<char>> {
    recs.map_values(|r: ItemRecord| r.name@)
}

/// `s` shows the records `recs` as items, sorted by name (equal names in stored order).
pub open spec fn is_item_listing(s: Seq<Item>, recs: Seq<ItemRecord>, cats: Seq<CategoryRecord>) -> bool {
    &&& s.len() == recs.len()
    &&& exists|order: Seq<usize>|
        is_name_order(record_names(recs), order) && forall|k: int|
            0 <= k < s.len() ==> #[trigger] s[k] == item_view(recs[order[k] as int], cats)
}

/// The categories of account `owner`, in stored order.
pub open spec fn owned_categories(cats: Seq<CategoryRecord>, owner: i32) -> Seq<CategoryRecord>
    decreases cats.len(),
{
    if cats.len() == 0 {
        Seq::empty()
    } else {
        let rest = owned_categories(cats.drop_last(), owner);
        if cats.last().owner == owner {
            rest.push(cats.last())
        } else {
            rest
        }
    }
}

pub open spec fn category_record_names(recs: Seq<CategoryRecord>) -> Seq<Seq<char>> {
    recs.map_values(|r: CategoryRecord| r.name@)
}

/// `s` shows the category records `recs`, sorted by name (equal names in stored order).
pub open spec fn is_category_listing(s: Seq<Category>, recs: Seq<CategoryRecord>) -> bool {
    &&& s.len() == recs.len()
    &&& exists|order: Seq<usize>|
        is_name_order(category_record_names(recs), order) && forall|k: int|
            0 <= k < s.len() ==> #[trigger] s[k] == category_of_record(recs[order[k] as int])
}

/// The records of every account, kept in memory.
pub struct Inventory {
    accounts: Vec<Account>,
    categories: Vec<CategoryRecord>,
    items: Vec<ItemRecord>,
    next_account_id: i32,
    next_category_id: i32,
    next_item_id: i32,
}

impl Inventory {
    pub closed spec fn item_records(&self) -> Seq<ItemRecord> {
        self.items@
    }

    pub closed spec fn category_records(&self) -> Seq<CategoryRecord> {
        self.categories@
    }

    pub closed spec fn account_records(&self) -> Seq<Account> {
        self.accounts@
    }

    /// Every stored id is below the next one to be handed out.
    pub closed spec fn ids_fresh(&self) -> bool {
        &&& forall|k: int| 0 <= k < self.items@.len() ==> #[trigger] self.items@[k].id < self.next_item_id
        &&& forall|k: int|
            0 <= k < self.categories@.len() ==> #[trigger] self.categories@[k].id
                < self.next_category_id
        &&& forall|k: int|
            0 <= k < self.accounts@.len() ==> #[trigger] self.accounts@[k].id < self.next_account_id
    }

    pub open spec fn wf(&self) -> bool {
        records_wf(self.item_records(), self.category_records(), self.account_records())
            && self.ids_fresh()
    }

    /// An inventory with no account, category or item.
    pub fn new() -> (r: Self)
        ensures
            r.wf(),
            r.item_records() == Seq::<ItemRecord>::empty(),
            r.category_records() == Seq::<CategoryRecord>::empty(),
            r.account_records() == Seq::<Account>::empty(),
    {
        Inventory {
            accounts: Vec::new(),
            categories: Vec::new(),
            items: Vec::new(),
            next_account_id: 1,
            next_category_id: 1,
            next_item_id: 1,
        }
    }

    /// The item `item_id` of account `user_id`, or none if that account has no such item.
    pub fn get_item_by_id(&self, user_id: i32, item_id: i32) -> (r: Option<Item>)
        requires
            self.wf(),
        ensures
            r == read_item(self.item_records(), self.category_records(), user_id, item_id),
    {
        match find_item(&self.items, user_id, item_id) {
            None => None,
            Some(k) => Some(view_item(&self.items[k], &self.categories)),
        }
    }

    fn set_quantity(&mut self, k: usize, q: i32, now: Timestamp)
        requires
            old(self).wf(),
            k < old(self).item_records().len(),
            q >= 0,
        ensures
            final(self).wf(),
            final(self).item_records() == old(self).item_records().update(
                k as int,
                with_quantity(old(self).item_records()[k as int], q as int, now),
            ),
            final(self).category_records() == old(self).category_records(),
            final(self).account_records() == old(self).account_records(),
    {
        let mut rec = self.items[k].clone();
        rec.quantity = q;
        rec.updated_at = now;
        let ghost before = self.items@;
        self.items.set(k, rec);
        proof {
            let after = self.items@;
            assert(after == before.update(k as int, with_quantity(before[k as int], q as int, now)));
            assert forall|a: int, b: int|
                0 <= a < after.len() && 0 <= b < after.len() && a != b implies after[a].id
                    != after[b].id by {
                assert(before[a].id != before[b].id);
            }
            assert forall|j: int|
                0 <= j < after.len() && (#[trigger] after[j]).category_id is Some implies category_slot(
                    self.categories@,
                    after[j].owner,
                    after[j].category_id->0,
                ) is Some by {
                assert(before[j].category_id is Some);
            }
            assert forall|j: int| 0 <= j < after.len() implies #[trigger] after[j].quantity >= 0 by {
                assert(before[j].quantity >= 0);
            }
            assert forall|j: int| 0 <= j < after.len() implies #[trigger] after[j].id
                < self.next_item_id by {
                assert(before[j].id < self.next_item_id);
            }
        }
    }

    /// Uses one unit of item `item_id` of account `user_id`: the quantity drops by one,
    /// never below zero. At zero nothing changes and the current item comes back; none
    /// comes back if the account has no such item.
    pub fn use_item(&mut self, user_id: i32, item_id: i32, now: Timestamp) -> (r: Option<Item>)
        requires
            old(self).wf(),
        ensures
            final(self).wf(),
            final(self).item_records() == use_effect(old(self).item_records(), user_id, item_id, now),
            final(self).category_records() == old(self).category_records(),
            final(self).account_records() == old(self).account_records(),
            r == read_item(final(self).item_records(), final(self).category_records(), user_id, item_id),
    {
        match find_item(&self.items, user_id, item_id) {
            None => None,
            Some(k) => {
                let q = self.items[k].quantity;
                if q > 0 {
                    self.set_quantity(k, q - 1, now);
                    proof {
                        lemma_item_slot_is(self.items@, user_id, item_id, k as int);
                    }
                }
                Some(view_item(&self.items[k], &self.categories))
            },
        }
    }

    /// Buys `payload.quantity` units of item `item_id` of account `user_id`. An amount that is
    /// not positive changes nothing and the current item comes back; none comes back if the
    /// account has no such item. A purchase that would take the quantity beyond the largest
    /// storable value is refused.
    pub fn purchase_item(
        &mut self,
        user_id: i32,
        item_id: i32,
        payload: PurchaseItemPayload,
        now: Timestamp,
    ) -> (r: Result<Option<Item>, AppError>)
        requires
            old(self).wf(),
        ensures
            final(self).wf(),
            r is Err <==> purchase_overflows(old(self).item_records(), user_id, item_id, payload.quantity),
            r is Err ==> (r matches Err(AppError::BadRequest(_))) && final(self).item_records() == old(
                self,
            ).item_records(),
            r is Ok ==> final(self).item_records() == purchase_effect(
                old(self).item_records(),
                user_id,
                item_id,
                payload.quantity,
                now,
            ) && r == Ok::<Option<Item>, AppError>(
                read_item(final(self).item_records(), final(self).category_records(), user_id, item_id),
            ),
            final(self).category_records() == old(self).category_records(),
            final(self).account_records() == old(self).account_records(),
    {
        match find_item(&self.items, user_id, item_id) {
            None => Ok(None),
            Some(k) => {
                let amount = payload.quantity;
                if amount > 0 {
                    let q = self.items[k].quantity;
                    if q > i32::MAX - amount {
                        return Err(
                            AppError::BadRequest(
                                String::from_str("the quantity would exceed the largest storable amount"),
                            ),
                        );
                    }
                    self.set_quantity(k, q + amount, now);
                    proof {
                        lemma_item_slot_is(self.items@, user_id, item_id, k as int);
                    }
                }
                Ok(Some(view_item(&self.items[k], &self.categories)))
            },
        }
    }

    /// Deletes item `item_id` of account `user_id`; returns how many items were removed (0 or 1).
    pub fn delete_item(&mut self, user_id: i32, item_id: i32) -> (r: u64)
        requires
            old(self).wf(),
        ensures
            final(self).wf(),
            final(self).item_records() == delete_effect(old(self).item_records(), user_id, item_id),
            r == (if item_slot(old(self).item_records(), user_id, item_id) is Some { 1u64 } else { 0u64 }),
            final(self).category_records() == old(self).category_records(),
            final(self).account_records() == old(self).account_records(),
    {
        match find_item(&self.items, user_id, item_id) {
            None => 0,
            Some(k) => {
                let ghost before = self.items@;
                self.items.remove(k);
                proof {
                    let after = self.items@;
                    assert(after == before.remove(k as int));
                    assert forall|a: int, b: int|
                        0 <= a < after.len() && 0 <= b < after.len() && a != b implies after[a].id
                            != after[b].id by {
                        let oa = if a < k { a } else { a + 1 };
                        let ob = if b < k { b } else { b + 1 };
                        assert(after[a] == before[oa] && after[b] == before[ob]);
                    }
                    assert forall|j: int|
                        0 <= j < after.len() && (#[trigger] after[j]).category_id is Some implies category_slot(
                            self.categories@,
                            after[j].owner,
                            after[j].category_id->0,
                        ) is Some by {
                        let oj = if j < k { j } else { j + 1 };
                        assert(after[j] == before[oj]);
                    }
                    assert forall|j: int| 0 <= j < after.len() implies #[trigger] after[j].quantity >= 0 by {
                        let oj = if j < k { j } else { j + 1 };
                        assert(after[j] == before[oj]);
                    }
                    assert forall|j: int| 0 <= j < after.len() implies #[trigger] after[j].id
                        < self.next_item_id by {
                        let oj = if j < k { j } else { j + 1 };
                        assert(after[j] == before[oj]);
                    }
                }
                1
            },
        }
    }
}

impl Inventory {
    /// Whether another item id can still be handed out.
    pub closed spec fn item_id_available(&self) -> bool {
        self.next_item_id < i32::MAX
    }

    fn replace_item(&mut self, k: usize, rec: ItemRecord)
        requires
            old(self).wf(),
            k < old(self).item_records().len(),
            rec.id == old(self).item_records()[k as int].id,
            rec.quantity >= 0,
            rec.category_id is Some ==> category_slot(
                old(self).category_records(),
                rec.owner,
                rec.category_id->0,
            ) is Some,
        ensures
            final(self).wf(),
            final(self).item_records() == old(self).item_records().update(k as int, rec),
            final(self).category_records() == old(self).category_records(),
            final(self).account_records() == old(self).account_records(),
    {
        let ghost before = self.items@;
        self.items.set(k, rec);
        proof {
            let after = self.items@;
            assert forall|a: int, b: int|
                0 <= a < after.len() && 0 <= b < after.len() && a != b implies after[a].id
                    != after[b].id by {
                assert(before[a].id != before[b].id);
            }
            assert forall|j: int|
                0 <= j < after.len() && (#[trigger] after[j]).category_id is Some implies category_slot(
                    self.categories@,
                    after[j].owner,
                    after[j].category_id->0,
                ) is Some by {
                if j != k {
                    assert(before[j] == after[j]);
                }
            }
            assert forall|j: int| 0 <= j < after.len() implies #[trigger] after[j].quantity >= 0 by {
                assert(before[j].quantity >= 0);
            }
            assert forall|j: int| 0 <= j < after.len() implies #[trigger] after[j].id
                < self.next_item_id by {
                assert(before[j].id < self.next_item_id);
            }
        }
    }

    fn owned_category(&self, user_id: i32, id: Option<i32>) -> (r: Option<Category>)
        requires
            self.wf(),
        ensures
            (id is None || r is Some) == !bad_category_ref(self.category_records(), user_id, id),
    {
        category_view(&self.categories, user_id, id)
    }

    /// Creates an item for account `user_id`. Refused when the quantity is negative or the
    /// category reference does not resolve for the account; the store fails when no item id
    /// is left.
    pub fn create_item(&mut self, user_id: i32, payload: CreateItemPayload, now: Timestamp) -> (r: Result<Item, AppError>)
        requires
            old(self).wf(),
        ensures
            final(self).wf(),
            final(self).category_records() == old(self).category_records(),
            final(self).account_records() == old(self).account_records(),
            create_refused(old(self).category_records(), user_id, payload) ==> (r matches Err(
                AppError::BadRequest(_),
            )),
            !create_refused(old(self).category_records(), user_id, payload) ==> (r is Ok
                <==> old(self).item_id_available()),
            r is Err ==> final(self).item_records() == old(self).item_records(),
            r is Ok ==> final(self).item_records() == old(self).item_records().push(
                new_item_record(user_id, r->Ok_0.id, payload, now),
            ) && r->Ok_0 == item_view(
                new_item_record(user_id, r->Ok_0.id, payload, now),
                final(self).category_records(),
            ),
    {
        let owned = self.owned_category(user_id, payload.category_id);
        match check_item_fields(Some(payload.quantity), payload.category_id, owned) {
            Err(e) => {
                return Err(e);
            },
            Ok(()) => {},
        }
        if self.next_item_id == i32::MAX {
            return Err(AppError::StoreUnavailable(String::from_str("no item id is left")));
        }
        let id = self.next_item_id;
        let ghost p = payload;
        let rec = ItemRecord {
            owner: user_id,
            id,
            name: payload.name,
            quantity: payload.quantity,
            restock_threshold: match payload.restock_threshold {
                Some(t) => t,
                None => DEFAULT_RESTOCK_THRESHOLD,
            },
            category_id: payload.category_id,
            created_at: now,
            updated_at: now,
        };
        assert(rec == new_item_record(user_id, id, p, now));
        let ghost before = self.items@;
        self.items.push(rec);
        self.next_item_id = id + 1;
        proof {
            let after = self.items@;
            assert(after == before.push(new_item_record(user_id, id, p, now)));
            assert forall|a: int, b: int|
                0 <= a < after.len() && 0 <= b < after.len() && a != b implies after[a].id
                    != after[b].id by {
                if a < before.len() && b < before.len() {
                    assert(before[a].id != before[b].id);
                } else if a < before.len() {
                    assert(before[a].id < id);
                } else {
                    assert(before[b].id < id);
                }
            }
            assert forall|j: int|
                0 <= j < after.len() && (#[trigger] after[j]).category_id is Some implies category_slot(
                    self.categories@,
                    after[j].owner,
                    after[j].category_id->0,
                ) is Some by {
                if j < before.len() {
                    assert(before[j] == after[j]);
                }
            }
            assert forall|j: int| 0 <= j < after.len() implies #[trigger] after[j].quantity >= 0 by {
                if j < before.len() {
                    assert(before[j] == after[j]);
                }
            }
            assert forall|j: int| 0 <= j < after.len() implies #[trigger] after[j].id
                < self.next_item_id by {
                if j < before.len() {
                    assert(before[j] == after[j]);
                }
            }
        }
        let last = self.items.len() - 1;
        Ok(view_item(&self.items[last], &self.categories))
    }

    /// Applies the partial change `payload` to item `item_id` of account `user_id`: fields
    /// left unset keep their values. None comes back if the account has no such item; an
    /// explicit negative quantity or an unresolved category reference is refused.
    pub fn update_item(
        &mut self,
        user_id: i32,
        item_id: i32,
        payload: UpdateItemPayload,
        now: Timestamp,
    ) -> (r: Result<Option<Item>, AppError>)
        requires
            old(self).wf(),
        ensures
            final(self).wf(),
            final(self).category_records() == old(self).category_records(),
            final(self).account_records() == old(self).account_records(),
            r is Err <==> update_refused(
                old(self).item_records(),
                old(self).category_records(),
                user_id,
                item_id,
                payload,
            ),
            r is Err ==> (r matches Err(AppError::BadRequest(_))) && final(self).item_records()
                == old(self).item_records(),
            r is Ok ==> final(self).item_records() == update_effect(
                old(self).item_records(),
                user_id,
                item_id,
                payload,
                now,
            ) && r == Ok::<Option<Item>, AppError>(
                read_item(final(self).item_records(), final(self).category_records(), user_id, item_id),
            ),
    {
        match find_item(&self.items, user_id, item_id) {
            None => Ok(None),
            Some(k) => {
                let owned = self.owned_category(user_id, payload.category_id);
                match check_item_fields(payload.quantity, payload.category_id, owned) {
                    Err(e) => {
                        return Err(e);
                    },
                    Ok(()) => {},
                }
                let ghost p = payload;
                let cur = &self.items[k];
                let rec = ItemRecord {
                    owner: cur.owner,
                    id: cur.id,
                    name: match payload.name {
                        Some(n) => n,
                        None => cur.name.clone(),
                    },
                    quantity: match payload.quantity {
                        Some(q) => q,
                        None => cur.quantity,
                    },
                    restock_threshold: match payload.restock_threshold {
                        Some(t) => t,
                        None => cur.restock_threshold,
                    },
                    category_id: match payload.category_id {
                        Some(c) => Some(c),
                        None => cur.category_id,
                    },
                    created_at: cur.created_at,
                    updated_at: now,
                };
                assert(rec == merged_record(self.items@[k as int], p, now));
                self.replace_item(k, rec);
                proof {
                    lemma_item_slot_is(self.items@, user_id, item_id, k as int);
                }
                Ok(Some(view_item(&self.items[k], &self.categories)))
            },
        }
    }

    fn list_records(&self, user_id: i32, low_only: bool) -> (r: Vec<Item>)
        requires
            self.wf(),
        ensures
            is_item_listing(
                r@,
                selected_records(self.item_records(), user_id, low_only),
                self.category_records(),
            ),
    {
        let mut recs: Vec<ItemRecord> = Vec::new();
        let mut names: Vec<String> = Vec::new();
        let mut i: usize = 0;
        while i < self.items.len()
            invariant
                i <= self.items@.len(),
                recs@ == selected_records(self.items@.subrange(0, i as int), user_id, low_only),
                names@.len() == recs@.len(),
                forall|j: int| 0 <= j < names@.len() ==> #[trigger] names@[j] == recs@[j].name,
            decreases self.items@.len() - i,
        {
            let ghost prefix = self.items@.subrange(0, i as int + 1);
            assert(prefix.drop_last() =~= self.items@.subrange(0, i as int));
            assert(prefix.last() == self.items@[i as int]);
            let it = &self.items[i];
            if it.owner == user_id && (!low_only || it.quantity < it.restock_threshold) {
                recs.push(it.clone());
                names.push(it.name.clone());
            }
            i = i + 1;
        }
        assert(self.items@.subrange(0, self.items@.len() as int) =~= self.items@);
        assert(string_views(names@) =~= record_names(recs@));
        let order = order_by_name(&names);
        let mut out: Vec<Item> = Vec::new();
        let mut k: usize = 0;
        while k < order.len()
            invariant
                self.wf(),
                order@.len() == recs@.len(),
                forall|j: int| 0 <= j < order@.len() ==> #[trigger] order@[j] < recs@.len(),
                k <= order@.len(),
                out@.len() == k,
                forall|j: int|
                    0 <= j < k ==> #[trigger] out@[j] == item_view(
                        recs@[order@[j] as int],
                        self.categories@,
                    ),
            decreases order@.len() - k,
        {
            out.push(view_item(&recs[order[k]], &self.categories));
            k = k + 1;
        }
        assert(is_name_order(record_names(recs@), order@));
        out
    }

    /// The items of account `user_id`, sorted by name.
    pub fn get_all_items(&self, user_id: i32) -> (r: Vec<Item>)
        requires
            self.wf(),
        ensures
            is_item_listing(r@, selected_records(self.item_records(), user_id, false), self.category_records()),
    {
        self.list_records(user_id, false)
    }

    /// The items of account `user_id` whose quantity is strictly below their restock
    /// threshold, sorted by name.
    pub fn get_items_to_restock(&self, user_id: i32) -> (r: Vec<Item>)
        requires
            self.wf(),
        ensures
            is_item_listing(r@, selected_records(self.item_records(), user_id, true), self.category_records()),
    {
        self.list_records(user_id, true)
    }
}

/// The item record with its category reference removed if it names category `id` of `owner`.
pub open spec fn detached(r: ItemRecord, owner: i32, id: i32) -> ItemRecord {
    if r.owner == owner && r.category_id == Some(id) {
        ItemRecord { category_id: None, ..r }
    } else {
        r
    }
}

/// The stored items after category `id` of account `owner` is deleted: its items stay,
/// without a category.
pub open spec fn detach_effect(items: Seq<ItemRecord>, owner: i32, id: i32) -> Seq<ItemRecord> {
    items.map_values(|r: ItemRecord| detached(r, owner, id))
}

/// The stored categories after account `owner` renames or recolours category `id`.
pub open spec fn category_update_effect(
    cats: Seq<CategoryRecord>,
    owner: i32,
    id: i32,
    name: Option<String>,
    color: Option<String>,
) -> Seq<CategoryRecord> {
    match category_slot(cats, owner, id) {
        None => cats,
        Some(k) => cats.update(
            k,
            CategoryRecord {
                name: match name {
                    Some(n) => n,
                    None => cats[k].name,
                },
                color: match color {
                    Some(c) => c,
                    None => cats[k].color,
                },
                ..cats[k]
            },
        ),
    }
}

pub open spec fn email_taken(accounts: Seq<Account>, email: Seq<char>) -> bool {
    exists|k: int| 0 <= k < accounts.len() && (#[trigger] accounts[k]).email@ == email
}

/// The account registered with `email`, if any.
pub open spec fn account_by_email(accounts: Seq<Account>, email: Seq<char>) -> Option<Account> {
    if email_taken(accounts, email) {
        Some(accounts[choose|k: int| 0 <= k < accounts.len() && (#[trigger] accounts[k]).email@ == email])
    } else {
        None
    }
}

/// The account with id `id`, if any.
pub open spec fn account_by_id(accounts: Seq<Account>, id: i32) -> Option<Account> {
    if exists|k: int| 0 <= k < accounts.len() && (#[trigger] accounts[k]).id == id {
        Some(accounts[choose|k: int| 0 <= k < accounts.len() && (#[trigger] accounts[k]).id == id])
    } else {
        None
    }
}

impl Inventory {
    /// Whether another category id can still be handed out.
    pub closed spec fn category_id_available(&self) -> bool {
        self.next_category_id < i32::MAX
    }

    /// Whether another account id can still be handed out.
    pub closed spec fn account_id_available(&self) -> bool {
        self.next_account_id < i32::MAX
    }

    /// Creates a category for account `user_id`; the store fails when no category id is left.
    pub fn create_category(&mut self, user_id: i32, payload: CreateCategoryPayload) -> (r: Result<Category, AppError>)
        requires
            old(self).wf(),
        ensures
            final(self).wf(),
            final(self).item_records() == old(self).item_records(),
            final(self).account_records() == old(self).account_records(),
            r is Ok <==> old(self).category_id_available(),
            r is Err ==> (r matches Err(AppError::StoreUnavailable(_))) && final(self).category_records()
                == old(self).category_records(),
            r is Ok ==> final(self).category_records() == old(self).category_records().push(
                CategoryRecord { owner: user_id, id: r->Ok_0.id, name: payload.name, color: payload.color },
            ) && r->Ok_0 == (Category { id: r->Ok_0.id, name: payload.name, color: payload.color }),
    {
        if self.next_category_id == i32::MAX {
            return Err(AppError::StoreUnavailable(String::from_str("no category id is left")));
        }
        let id = self.next_category_id;
        let c = Category { id, name: payload.name.clone(), color: payload.color.clone() };
        let ghost before = self.categories@;
        self.categories.push(CategoryRecord { owner: user_id, id, name: payload.name, color: payload.color });
        self.next_category_id = id + 1;
        proof {
            let after = self.categories@;
            assert forall|a: int, b: int|
                0 <= a < after.len() && 0 <= b < after.len() && a != b implies after[a].id
                    != after[b].id by {
                if a < before.len() && b < before.len() {
                    assert(before[a].id != before[b].id);
                } else if a < before.len() {
                    assert(before[a].id < id);
                } else {
                    assert(before[b].id < id);
                }
            }
            assert forall|j: int|
                0 <= j < self.items@.len() && (#[trigger] self.items@[j]).category_id is Some implies category_slot(
                    after,
                    self.items@[j].owner,
                    self.items@[j].category_id->0,
                ) is Some by {
                let it = self.items@[j];
                let k = choose|k: int| holds_category(before, it.owner, it.category_id->0, k);
                assert(holds_category(before, it.owner, it.category_id->0, k));
                assert(holds_category(after, it.owner, it.category_id->0, k));
            }
            assert forall|j: int| 0 <= j < after.len() implies #[trigger] after[j].id
                < self.next_category_id by {
                if j < before.len() {
                    assert(before[j] == after[j]);
                }
            }
        }
        Ok(c)
    }

    /// The categories of account `user_id`, sorted by name.
    pub fn get_all_categories(&self, user_id: i32) -> (r: Vec<Category>)
        requires
            self.wf(),
        ensures
            is_category_listing(r@, owned_categories(self.category_records(), user_id)),
    {
        let mut recs: Vec<Category> = Vec::new();
        let mut names: Vec<String> = Vec::new();
        let ghost owned = Seq::<CategoryRecord>::empty();
        let mut i: usize = 0;
        while i < self.categories.len()
            invariant
                i <= self.categories@.len(),
                owned == owned_categories(self.categories@.subrange(0, i as int), user_id),
                recs@.len() == owned.len(),
                names@.len() == owned.len(),
                forall|j: int| 0 <= j < owned.len() ==> #[trigger] recs@[j] == category_of_record(owned[j]),
                forall|j: int| 0 <= j < owned.len() ==> #[trigger] names@[j] == owned[j].name,
            decreases self.categories@.len() - i,
        {
            let ghost prefix = self.categories@.subrange(0, i as int + 1);
            assert(prefix.drop_last() =~= self.categories@.subrange(0, i as int));
            assert(prefix.last() == self.categories@[i as int]);
            let c = &self.categories[i];
            if c.owner == user_id {
                recs.push(Category { id: c.id, name: c.name.clone(), color: c.color.clone() });
                names.push(c.name.clone());
                proof {
                    owned = owned.push(self.categories@[i as int]);
                }
            }
            i = i + 1;
        }
        assert(self.categories@.subrange(0, self.categories@.len() as int) =~= self.categories@);
        assert(string_views(names@) =~= category_record_names(owned));
        let order = order_by_name(&names);
        let mut out: Vec<Category> = Vec::new();
        let mut k: usize = 0;
        while k < order.len()
            invariant
                order@.len() == owned.len(),
                recs@.len() == owned.len(),
                forall|j: int| 0 <= j < owned.len() ==> #[trigger] recs@[j] == category_of_record(owned[j]),
                forall|j: int| 0 <= j < order@.len() ==> #[trigger] order@[j] < owned.len(),
                k <= order@.len(),
                out@.len() == k,
                forall|j: int|
                    0 <= j < k ==> #[trigger] out@[j] == category_of_record(owned[order@[j] as int]),
            decreases order@.len() - k,
        {
            out.push(recs[order[k]].clone());
            k = k + 1;
        }
        assert(is_name_order(category_record_names(owned), order@));
        out
    }

    /// The category `category_id` of account `user_id`, or none if that account has no such category.
    pub fn get_category_by_id(&self, user_id: i32, category_id: i32) -> (r: Option<Category>)
        requires
            self.wf(),
        ensures
            r == resolve_category(self.category_records(), user_id, Some(category_id)),
    {
        category_view(&self.categories, user_id, Some(category_id))
    }

    /// Renames or recolours category `category_id` of account `user_id`; what is not given
    /// keeps its value. None comes back if the account has no such category.
    pub fn update_category(
        &mut self,
        user_id: i32,
        category_id: i32,
        name: Option<String>,
        color: Option<String>,
    ) -> (r: Option<Category>)
        requires
            old(self).wf(),
        ensures
            final(self).wf(),
            final(self).item_records() == old(self).item_records(),
            final(self).account_records() == old(self).account_records(),
            final(self).category_records() == category_update_effect(
                old(self).category_records(),
                user_id,
                category_id,
                name,
                color,
            ),
            r == resolve_category(final(self).category_records(), user_id, Some(category_id)),
    {
        match find_category(&self.categories, user_id, category_id) {
            None => None,
            Some(k) => {
                let cur = &self.categories[k];
                let rec = CategoryRecord {
                    owner: cur.owner,
                    id: cur.id,
                    name: match name {
                        Some(n) => n,
                        None => cur.name.clone(),
                    },
                    color: match color {
                        Some(c) => c,
                        None => cur.color.clone(),
                    },
                };
                let ghost before = self.categories@;
                self.categories.set(k, rec);
                proof {
                    let after = self.categories@;
                    assert forall|a: int, b: int|
                        0 <= a < after.len() && 0 <= b < after.len() && a != b implies after[a].id
                            != after[b].id by {
                        assert(before[a].id != before[b].id);
                    }
                    assert forall|j: int|
                        0 <= j < self.items@.len() && (#[trigger] self.items@[j]).category_id is Some implies category_slot(
                            after,
                            self.items@[j].owner,
                            self.items@[j].category_id->0,
                        ) is Some by {
                        let it = self.items@[j];
                        let m = choose|m: int| holds_category(before, it.owner, it.category_id->0, m);
                        assert(holds_category(before, it.owner, it.category_id->0, m));
                        assert(holds_category(after, it.owner, it.category_id->0, m));
                    }
                    assert forall|j: int| 0 <= j < after.len() implies #[trigger] after[j].id
                        < self.next_category_id by {
                        assert(before[j].id < self.next_category_id);
                    }
                    lemma_category_slot_is(after, user_id, category_id, k as int);
                }
                category_view(&self.categories, user_id, Some(category_id))
            },
        }
    }

    /// Deletes category `category_id` of account `user_id`; its items stay, without a
    /// category. Returns how many categories were removed (0 or 1).
    pub fn delete_category(&mut self, user_id: i32, category_id: i32) -> (r: u64)
        requires
            old(self).wf(),
        ensures
            final(self).wf(),
            final(self).account_records() == old(self).account_records(),
            match category_slot(old(self).category_records(), user_id, category_id) {
                None => r == 0 && final(self).category_records() == old(self).category_records()
                    && final(self).item_records() == old(self).item_records(),
                Some(k) => r == 1 && final(self).category_records() == old(self).category_records().remove(k)
                    && final(self).item_records() == detach_effect(old(self).item_records(), user_id, category_id),
            },
    {
        match find_category(&self.categories, user_id, category_id) {
            None => 0,
            Some(k) => {
                let ghost old_items = self.items@;
                let ghost old_cats = self.categories@;
                let mut i: usize = 0;
                while i < self.items.len()
                    invariant
                        old(self).wf(),
                        old_items == old(self).items@,
                        old_cats == old(self).categories@,
                        self.accounts@ == old(self).accounts@,
                        self.next_item_id == old(self).next_item_id,
                        self.next_category_id == old(self).next_category_id,
                        self.next_account_id == old(self).next_account_id,
                        self.categories@ == old_cats,
                        self.items@.len() == old_items.len(),
                        i <= self.items@.len(),
                        forall|j: int| 0 <= j < i ==> #[trigger] self.items@[j] == detached(old_items[j], user_id, category_id),
                        forall|j: int| i <= j < self.items@.len() ==> #[trigger] self.items@[j] == old_items[j],
                    decreases self.items@.len() - i,
                {
                    if self.items[i].owner == user_id && self.items[i].category_id == Some(category_id) {
                        let mut rec = self.items[i].clone();
                        rec.category_id = None;
                        self.items.set(i, rec);
                    }
                    i = i + 1;
                }
                assert(self.items@ =~= detach_effect(old_items, user_id, category_id));
                self.categories.remove(k);
                proof {
                    let items = self.items@;
                    let after = self.categories@;
                    assert(after == old_cats.remove(k as int));
                    assert forall|a: int, b: int|
                        0 <= a < items.len() && 0 <= b < items.len() && a != b implies items[a].id
                            != items[b].id by {
                        assert(old_items[a].id != old_items[b].id);
                    }
                    assert forall|a: int, b: int|
                        0 <= a < after.len() && 0 <= b < after.len() && a != b implies after[a].id
                            != after[b].id by {
                        let oa = if a < k { a } else { a + 1 };
                        let ob = if b < k { b } else { b + 1 };
                        assert(after[a] == old_cats[oa] && after[b] == old_cats[ob]);
                    }
                    assert forall|j: int|
                        0 <= j < items.len() && (#[trigger] items[j]).category_id is Some implies category_slot(
                            after,
                            items[j].owner,
                            items[j].category_id->0,
                        ) is Some by {
                        let it = old_items[j];
                        assert(items[j] == detached(it, user_id, category_id));
                        assert(it.category_id is Some);
                        let m = choose|m: int| holds_category(old_cats, it.owner, it.category_id->0, m);
                        assert(holds_category(old_cats, it.owner, it.category_id->0, m));
                        assert(m != k);
                        let nm = if m < k { m } else { m - 1 };
                        assert(after[nm] == old_cats[m]);
                        assert(holds_category(after, it.owner, it.category_id->0, nm));
                    }
                    assert forall|j: int| 0 <= j < items.len() implies #[trigger] items[j].quantity >= 0 by {
                        assert(old_items[j].quantity >= 0);
                    }
                    assert forall|j: int| 0 <= j < items.len() implies #[trigger] items[j].id < self.next_item_id by {
                        assert(old_items[j].id < self.next_item_id);
                    }
                    assert forall|j: int| 0 <= j < after.len() implies #[trigger] after[j].id
                        < self.next_category_id by {
                        let oj = if j < k { j } else { j + 1 };
                        assert(after[j] == old_cats[oj]);
                    }
                }
                1
            },
        }
    }

    /// The items of account `user_id` grouped by its categories (see `group_by_category`),
    /// from the items and categories as listed by name.
    pub fn get_items_grouped_by_category(&self, user_id: i32) -> (r: GroupedItems)
        requires
            self.wf(),
        ensures
            exists|items: Seq<Item>, cats: Seq<Category>|
                is_item_listing(items, selected_records(self.item_records(), user_id, false), self.category_records())
                    && is_category_listing(cats, owned_categories(self.category_records(), user_id))
                    && is_grouping(r, items, cats),
    {
        let items = self.get_all_items(user_id);
        let cats = self.get_all_categories(user_id);
        group_by_category(&items, &cats)
    }
}

impl Inventory {
    /// Opens an account whose password hash is `hashed_password`. Refused when the email is
    /// already registered; the store fails when no account id is left.
    pub fn create_account(&mut self, name: &str, email: &str, hashed_password: &str, now: Timestamp) -> (r: Result<Account, AppError>)
        requires
            old(self).wf(),
        ensures
            final(self).wf(),
            final(self).item_records() == old(self).item_records(),
            final(self).category_records() == old(self).category_records(),
            email_taken(old(self).account_records(), email@) ==> (r matches Err(AppError::BadRequest(_))),
            !email_taken(old(self).account_records(), email@) ==> (r is Ok <==> old(self).account_id_available()),
            r is Err ==> final(self).account_records() == old(self).account_records(),
            r is Ok ==> final(self).account_records() == old(self).account_records().push(r->Ok_0)
                && r->Ok_0.name@ == name@ && r->Ok_0.email@ == email@ && r->Ok_0.password@ == hashed_password@
                && r->Ok_0.created_at == now && r->Ok_0.updated_at == now,
    {
        let wanted = String::from_str(email);
        let mut i: usize = 0;
        while i < self.accounts.len()
            invariant
                *self == *old(self),
                old(self).wf(),
                wanted@ == email@,
                i <= self.accounts@.len(),
                forall|k: int| 0 <= k < i ==> (#[trigger] self.accounts@[k]).email@ != email@,
            decreases self.accounts@.len() - i,
        {
            if self.accounts[i].email == wanted {
                return Err(AppError::BadRequest(String::from_str("this email is already registered")));
            }
            i = i + 1;
        }
        if self.next_account_id == i32::MAX {
            return Err(AppError::StoreUnavailable(String::from_str("no account id is left")));
        }
        let id = self.next_account_id;
        let acct = Account {
            id,
            name: String::from_str(name),
            email: String::from_str(email),
            password: String::from_str(hashed_password),
            created_at: now,
            updated_at: now,
        };
        let ghost before = self.accounts@;
        self.accounts.push(acct.clone());
        self.next_account_id = id + 1;
        proof {
            let after = self.accounts@;
            assert forall|a: int, b: int|
                0 <= a < after.len() && 0 <= b < after.len() && a != b implies after[a].id
                    != after[b].id && after[a].email@ != after[b].email@ by {
                if a < before.len() && b < before.len() {
                    assert(before[a].id != before[b].id);
                } else if a < before.len() {
                    assert(before[a].id < id);
                    assert(before[a].email@ != email@);
                } else {
                    assert(before[b].id < id);
                    assert(before[b].email@ != email@);
                }
            }
            assert forall|j: int| 0 <= j < after.len() implies #[trigger] after[j].id
                < self.next_account_id by {
                if j < before.len() {
                    assert(before[j] == after[j]);
                }
            }
        }
        Ok(acct)
    }

    /// The account registered with `email`, if any.
    pub fn get_account_by_email(&self, email: &str) -> (r: Option<Account>)
        requires
            self.wf(),
        ensures
            r == account_by_email(self.account_records(), email@),
    {
        let wanted = String::from_str(email);
        let mut i: usize = 0;
        while i < self.accounts.len()
            invariant
                self.wf(),
                wanted@ == email@,
                i <= self.accounts@.len(),
                forall|k: int| 0 <= k < i ==> (#[trigger] self.accounts@[k]).email@ != email@,
            decreases self.accounts@.len() - i,
        {
            if self.accounts[i].email == wanted {
                proof {
                    let accts = self.accounts@;
                    let k = choose|k: int| 0 <= k < accts.len() && (#[trigger] accts[k]).email@ == email@;
                    if k != i {
                        assert(accts[k].email@ != accts[i as int].email@);
                    }
                }
                return Some(self.accounts[i].clone());
            }
            i = i + 1;
        }
        None
    }

    /// The account with id `id`, if any.
    pub fn get_user_by_id(&self, id: i32) -> (r: Option<Account>)
        requires
            self.wf(),
        ensures
            r == account_by_id(self.account_records(), id),
    {
        let mut i: usize = 0;
        while i < self.accounts.len()
            invariant
                self.wf(),
                i <= self.accounts@.len(),
                forall|k: int| 0 <= k < i ==> (#[trigger] self.accounts@[k]).id != id,
            decreases self.accounts@.len() - i,
        {
            if self.accounts[i].id == id {
                proof {
                    let accts = self.accounts@;
                    let k = choose|k: int| 0 <= k < accts.len() && (#[trigger] accts[k]).id == id;
                    if k != i {
                        assert(accts[k].id != accts[i as int].id);
                    }
                }
                return Some(self.accounts[i].clone());
            }
            i = i + 1;
        }
        None
    }
}

/// The stored items after the uses `calls`, each naming an account, an item and the time.
pub open spec fn after_uses(items: Seq<ItemRecord>, calls: Seq<(i32, i32, Timestamp)>) -> Seq<ItemRecord>
    decreases calls.len(),
{
    if calls.len() == 0 {
        items
    } else {
        let c = calls.last();
        use_effect(after_uses(items, calls.drop_last()), c.0, c.1, c.2)
    }
}

proof fn lemma_use_effect_shape(items: Seq<ItemRecord>, owner: i32, id: i32, now: Timestamp)
    requires
        item_ids_unique(items),
        quantities_non_negative(items),
    ensures
        item_ids_unique(use_effect(items, owner, id, now)),
        quantities_non_negative(use_effect(items, owner, id, now)),
        use_effect(items, owner, id, now).len() == items.len(),
        forall|j: int|
            0 <= j < items.len() ==> (#[trigger] use_effect(items, owner, id, now)[j]).id == items[j].id
                && use_effect(items, owner, id, now)[j].owner == items[j].owner,
{
    let after = use_effect(items, owner, id, now);
    assert forall|a: int, b: int|
        0 <= a < after.len() && 0 <= b < after.len() && a != b implies after[a].id != after[b].id by {
        assert(items[a].id != items[b].id);
    }
    assert forall|j: int| 0 <= j < after.len() implies #[trigger] after[j].quantity >= 0 by {
        assert(items[j].quantity >= 0);
    }
}

/// However many units are used, of whichever items and by whichever accounts, no quantity
/// ever drops below zero.
pub proof fn lemma_uses_keep_quantities_non_negative(items: Seq<ItemRecord>, calls: Seq<(i32, i32, Timestamp)>)
    requires
        item_ids_unique(items),
        quantities_non_negative(items),
    ensures
        quantities_non_negative(after_uses(items, calls)),
        item_ids_unique(after_uses(items, calls)),
    decreases calls.len(),
{
    if calls.len() > 0 {
        lemma_uses_keep_quantities_non_negative(items, calls.drop_last());
        let c = calls.last();
        lemma_use_effect_shape(after_uses(items, calls.drop_last()), c.0, c.1, c.2);
    }
}

/// `n` uses of one item that starts at quantity `q` leave it at `q - n`, or at zero when
/// `n` exceeds `q`: each use takes exactly one unit while there is one, none after.
pub proof fn lemma_repeated_uses_floor_at_zero(
    items: Seq<ItemRecord>,
    owner: i32,
    id: i32,
    calls: Seq<(i32, i32, Timestamp)>,
)
    requires
        item_ids_unique(items),
        quantities_non_negative(items),
        item_slot(items, owner, id) is Some,
        forall|j: int| 0 <= j < calls.len() ==> (#[trigger] calls[j]).0 == owner && calls[j].1 == id,
    ensures
        item_slot(after_uses(items, calls), owner, id) == item_slot(items, owner, id),
        ({
            let k = item_slot(items, owner, id)->0;
            let q = items[k].quantity as int;
            after_uses(items, calls)[k].quantity == (if q > calls.len() { q - calls.len() } else { 0 })
        }),
    decreases calls.len(),
{
    let k = item_slot(items, owner, id)->0;
    assert(holds_item(items, owner, id, k));
    if calls.len() > 0 {
        let prev = calls.drop_last();
        assert forall|j: int| 0 <= j < prev.len() implies (#[trigger] prev[j]).0 == owner && prev[j].1 == id by {
            assert(prev[j] == calls[j]);
        }
        lemma_repeated_uses_floor_at_zero(items, owner, id, prev);
        lemma_uses_keep_quantities_non_negative(items, prev);
        let mid = after_uses(items, prev);
        let c = calls.last();
        assert(c == calls[calls.len() - 1]);
        lemma_use_effect_shape(mid, owner, id, c.2);
        let after = use_effect(mid, owner, id, c.2);
        assert(holds_item(after, owner, id, k));
        lemma_item_slot_is(after, owner, id, k);
    }
}

/// Using an item at quantity zero changes nothing, and the item read back is the one before.
pub proof fn lemma_use_at_zero_changes_nothing(
    items: Seq<ItemRecord>,
    cats: Seq<CategoryRecord>,
    owner: i32,
    id: i32,
    now: Timestamp,
)
    requires
        item_slot(items, owner, id) is Some,
        items[item_slot(items, owner, id)->0].quantity == 0,
    ensures
        use_effect(items, owner, id, now) == items,
        read_item(use_effect(items, owner, id, now), cats, owner, id) == read_item(items, cats, owner, id),
{
}

/// Buying an amount that is not positive changes nothing, is never refused, and the item
/// read back is the one before.
pub proof fn lemma_purchase_non_positive_changes_nothing(
    items: Seq<ItemRecord>,
    cats: Seq<CategoryRecord>,
    owner: i32,
    id: i32,
    amount: i32,
    now: Timestamp,
)
    requires
        amount <= 0,
    ensures
        purchase_effect(items, owner, id, amount, now) == items,
        !purchase_overflows(items, owner, id, amount),
        read_item(purchase_effect(items, owner, id, amount, now), cats, owner, id) == read_item(
            items,
            cats,
            owner,
            id,
        ),
{
}

/// An account cannot reach another account's item by its id: it reads nothing, and using,
/// buying, changing or deleting through that id leaves every stored item as it was.
pub proof fn lemma_other_accounts_items_out_of_reach(
    items: Seq<ItemRecord>,
    cats: Seq<CategoryRecord>,
    account: i32,
    k: int,
    p: UpdateItemPayload,
    amount: i32,
    now: Timestamp,
)
    requires
        item_ids_unique(items),
        0 <= k < items.len(),
        items[k].owner != account,
    ensures
        read_item(items, cats, account, items[k].id) is None,
        use_effect(items, account, items[k].id, now) == items,
        purchase_effect(items, account, items[k].id, amount, now) == items,
        !purchase_overflows(items, account, items[k].id, amount),
        update_effect(items, account, items[k].id, p, now) == items,
        !update_refused(items, cats, account, items[k].id, p),
        delete_effect(items, account, items[k].id) == items,
{
    let id = items[k].id;
    assert forall|j: int| !holds_item(items, account, id, j) by {
        if holds_item(items, account, id, j) && j != k {
            assert(items[j].id != items[k].id);
        }
    }
}

} // verus!

//! The records kept for each account and the views derived from them.

use vstd::prelude::*;

verus! {

/// A point in time, in whole seconds since the Unix epoch.
#[derive(Clone, Copy, Debug, PartialEq, Eq, Structural)]
pub struct Timestamp {
    pub unix_seconds: i64,
}

/// A category that an account sorts its items into.
#[derive(Debug)]
pub struct Category {
    pub id: i32,
    pub name: String,
    pub color: String,
}

impl Clone for Category {
    fn clone(&self) -> (r: Self)
        ensures
            r == *self,
    {
        Category { id: self.id, name: self.name.clone(), color: self.color.clone() }
    }
}

/// An item of an account, with the category it refers to, if that category exists.
#[derive(Debug)]
pub struct Item {
    pub id: i32,
    pub name: String,
    pub quantity: i32,
    pub restock_threshold: i32,
    pub category: Option<Category>,
    pub created_at: Timestamp,
    pub updated_at: Timestamp,
}

fn clone_category_ref(c: &Option<Category>) -> (r: Option<Category>)
    ensures
        r == *c,
{
    match c {
        Some(cat) => Some(cat.clone()),
        None => None,
    }
}

impl Clone for Item {
    fn clone(&self) -> (r: Self)
        ensures
            r == *self,
    {
        Item {
            id: self.id,
            name: self.name.clone(),
            quantity: self.quantity,
            restock_threshold: self.restock_threshold,
            category: clone_category_ref(&self.category),
            created_at: self.created_at,
            updated_at: self.updated_at,
        }
    }
}

/// A category together with the items that refer to it and its precomputed text colour.
#[derive(Debug)]
pub struct CategoryWithItems {
    pub id: i32,
    pub name: String,
    pub color: String,
    pub text_color: String,
    pub items: Vec<Item>,
}

/// An account's items split by category; groups come in order of category name.
#[derive(Debug)]
pub struct GroupedItems {
    pub categorized: Vec<CategoryWithItems>,
    pub uncategorized: Vec<Item>,
}

/// What is needed to create a category.
#[derive(Debug)]
pub struct CreateCategoryPayload {
    pub name: String,
    pub color: String,
}

/// What is needed to create an item; the threshold defaults to 1.
#[derive(Debug)]
pub struct CreateItemPayload {
    pub name: String,
    pub quantity: i32,
    pub restock_threshold: Option<i32>,
    pub category_id: Option<i32>,
}

/// A partial change of an item: each field that is `None` keeps its value.
#[derive(Debug)]
pub struct UpdateItemPayload {
    pub name: Option<String>,
    pub quantity: Option<i32>,
    pub restock_threshold: Option<i32>,
    pub category_id: Option<i32>,
}

/// The amount bought of an item.
#[derive(Clone, Copy, Debug)]
pub struct PurchaseItemPayload {
    pub quantity: i32,
}

/// A restock reminder for one item.
#[derive(Debug)]
pub struct Notification {
    pub item_name: String,
    pub message: String,
}

/// A registered account; `password` holds the password's hash.
#[derive(Debug)]
pub struct Account {
    pub id: i32,
    pub name: String,
    pub email: String,
    pub password: String,
    pub created_at: Timestamp,
    pub updated_at: Timestamp,
}

impl Clone for Account {
    fn clone(&self) -> (r: Self)
        ensures
            r == *self,
    {
        Account {
            id: self.id,
            name: self.name.clone(),
            email: self.email.clone(),
            password: self.password.clone(),
            created_at: self.created_at,
            updated_at: self.updated_at,
        }
    }
}

/// What is needed to open an account.
#[derive(Debug)]
pub struct CreateAccountPayload {
    pub name: String,
    pub email: String,
    pub password: String,
}

/// The credentials given at login.
#[derive(Debug)]
pub struct LoginPayload {
    pub email: String,
    pub password: String,
}

} // verus!

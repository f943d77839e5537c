//! Partition of an account's items by category.

use vstd::prelude::*;

use crate::color::{get_text_color_for_bg, text_color_of};
use crate::model::{Category, CategoryWithItems, GroupedItems, Item};
use crate::order::{is_name_order, order_by_name, string_views};

verus! {

/// The item refers to the category with id `id`.
pub open spec fn refers_to(item: Item, id: i32) -> bool {
    item.category is Some && item.category->0.id == id
}

/// Some category of `cats` has the id `id`.
pub open spec fn is_known_category(cats: Seq<Category>, id: i32) -> bool {
    exists|k: int| 0 <= k < cats.len() && #[trigger] cats[k].id == id
}

/// The item's category reference resolves to one of `cats`.
pub open spec fn is_categorized(item: Item, cats: Seq<Category>) -> bool {
    item.category is Some && is_known_category(cats, item.category->0.id)
}

/// The items that refer to category `id`, in the order given.
pub open spec fn items_in_category(items: Seq<Item>, id: i32) -> Seq<Item>
    decreases items.len(),
{
    if items.len() == 0 {
        Seq::empty()
    } else {
        let rest = items_in_category(items.drop_last(), id);
        if refers_to(items.last(), id) {
            rest.push(items.last())
        } else {
            rest
        }
    }
}

/// The items whose category reference resolves to none of `cats`, in the order given.
pub open spec fn uncategorized_items(items: Seq<Item>, cats: Seq<Category>) -> Seq<Item>
    decreases items.len(),
{
    if items.len() == 0 {
        Seq::empty()
    } else {
        let rest = uncategorized_items(items.drop_last(), cats);
        if !is_categorized(items.last(), cats) {
            rest.push(items.last())
        } else {
            rest
        }
    }
}

pub open spec fn category_names(cats: Seq<Category>) -> Seq<Seq<char>> {
    cats.map_values(|c: Category| c.name@)
}

/// `g` is the group of category `c` over `items`.
pub open spec fn is_group_of(g: CategoryWithItems, c: Category, items: Seq<Item>) -> bool {
    &&& g.id == c.id
    &&& g.name == c.name
    &&& g.color == c.color
    &&& g.text_color@ == text_color_of(c.color@)
    &&& g.items@ == items_in_category(items, c.id)
}

/// `r` holds one group per category, in order of category name, and the uncategorized items.
pub open spec fn is_grouping(r: GroupedItems, items: Seq<Item>, cats: Seq<Category>) -> bool {
    &&& r.categorized@.len() == cats.len()
    &&& exists|order: Seq<usize>|
        is_name_order(category_names(cats), order) && forall|k: int|
            0 <= k < cats.len() ==> #[trigger] is_group_of(
                r.categorized@[k],
                cats[order[k] as int],
                items,
            )
    &&& r.uncategorized@ == uncategorized_items(items, cats)
}

fn collect_category(items: &Vec<Item>, id: i32) -> (r: Vec<Item>)
    ensures
        r@ == items_in_category(items@, id),
{
    let mut r: Vec<Item> = Vec::new();
    let mut i: usize = 0;
    while i < items.len()
        invariant
            i <= items@.len(),
            r@ == items_in_category(items@.subrange(0, i as int), id),
        decreases items@.len() - i,
    {
        let ghost prefix = items@.subrange(0, i as int + 1);
        assert(prefix.drop_last() =~= items@.subrange(0, i as int));
        assert(prefix.last() == items@[i as int]);
        match &items[i].category {
            Some(c) => {
                if c.id == id {
                    r.push(items[i].clone());
                }
            },
            None => {},
        }
        i = i + 1;
    }
    assert(items@.subrange(0, items@.len() as int) =~= items@);
    r
}

fn category_known(cats: &Vec<Category>, id: i32) -> (r: bool)
    ensures
        r == is_known_category(cats@, id),
{
    let mut i: usize = 0;
    while i < cats.len()
        invariant
            i <= cats@.len(),
            forall|k: int| 0 <= k < i ==> #[trigger] cats@[k].id != id,
        decreases cats@.len() - i,
    {
        if cats[i].id == id {
            return true;
        }
        i = i + 1;
    }
    false
}

fn collect_uncategorized(items: &Vec<Item>, cats: &Vec<Category>) -> (r: Vec<Item>)
    ensures
        r@ == uncategorized_items(items@, cats@),
{
    let mut r: Vec<Item> = Vec::new();
    let mut i: usize = 0;
    while i < items.len()
        invariant
            i <= items@.len(),
            r@ == uncategorized_items(items@.subrange(0, i as int), cats@),
        decreases items@.len() - i,
    {
        let ghost prefix = items@.subrange(0, i as int + 1);
        assert(prefix.drop_last() =~= items@.subrange(0, i as int));
        assert(prefix.last() == items@[i as int]);
        let known = match &items[i].category {
            Some(c) => category_known(cats, c.id),
            None => false,
        };
        if !known {
            r.push(items[i].clone());
        }
        i = i + 1;
    }
    assert(items@.subrange(0, items@.len() as int) =~= items@);
    r
}

/// Groups `items` by category: one group for each of `categories` (also when it holds no
/// item), sorted by category name, each with its items in the order given and its text
/// colour; items whose category is absent or unknown are listed as uncategorized.
pub fn group_by_category(items: &Vec<Item>, categories: &Vec<Category>) -> (r: GroupedItems)
    ensures
        is_grouping(r, items@, categories@),
{
    let mut names: Vec<String> = Vec::new();
    let mut i: usize = 0;
    while i < categories.len()
        invariant
            i <= categories@.len(),
            names@.len() == i,
            forall|k: int| 0 <= k < i ==> #[trigger] names@[k] == categories@[k].name,
        decreases categories@.len() - i,
    {
        names.push(categories[i].name.clone());
        i = i + 1;
    }
    assert(string_views(names@) =~= category_names(categories@));
    let order = order_by_name(&names);
    let mut groups: Vec<CategoryWithItems> = Vec::new();
    let mut k: usize = 0;
    while k < order.len()
        invariant
            order@.len() == categories@.len(),
            forall|j: int| 0 <= j < order@.len() ==> #[trigger] order@[j] < categories@.len(),
            k <= order@.len(),
            groups@.len() == k,
            forall|j: int|
                0 <= j < k ==> #[trigger] is_group_of(
                    groups@[j],
                    categories@[order@[j] as int],
                    items@,
                ),
        decreases order@.len() - k,
    {
        let c = &categories[order[k]];
        let g = CategoryWithItems {
            id: c.id,
            name: c.name.clone(),
            color: c.color.clone(),
            text_color: get_text_color_for_bg(c.color.as_str()),
            items: collect_category(items, c.id),
        };
        groups.push(g);
        k = k + 1;
    }
    let r = GroupedItems { categorized: groups, uncategorized: collect_uncategorized(items, categories) };
    assert(is_name_order(category_names(categories@), order@));
    r
}

} // verus!

use household_inventory::auth::{
    has_session_cookie, login, login_outcome, parse_i32, signup, strip_trailing_slash,
};
use household_inventory::color::get_text_color_for_bg;
use household_inventory::error::AppError;
use household_inventory::grouping::group_by_category;
use household_inventory::model::{
    Account, Category, CreateAccountPayload, CreateCategoryPayload, CreateItemPayload, Item,
    LoginPayload, PurchaseItemPayload, Timestamp, UpdateItemPayload,
};
use household_inventory::notify::{get_api_notifications, get_notifications, notifications_for};
use household_inventory::order::{name_less, order_by_name};
use household_inventory::store::Inventory;

fn at(s: i64) -> Timestamp {
    Timestamp { unix_seconds: s }
}

fn new_item(name: &str, quantity: i32, threshold: Option<i32>, category_id: Option<i32>) -> CreateItemPayload {
    CreateItemPayload {
        name: name.to_string(),
        quantity,
        restock_threshold: threshold,
        category_id,
    }
}

fn plain_item(id: i32, name: &str, category: Option<Category>) -> Item {
    Item {
        id,
        name: name.to_string(),
        quantity: 1,
        restock_threshold: 1,
        category,
        created_at: at(0),
        updated_at: at(0),
    }
}

fn category(id: i32, name: &str, color: &str) -> Category {
    Category { id, name: name.to_string(), color: color.to_string() }
}

#[test]
fn text_color_for_white_is_black() {
    assert_eq!(get_text_color_for_bg("#FFFFFF"), "#000000");
}

#[test]
fn text_color_for_black_is_white() {
    assert_eq!(get_text_color_for_bg("#000000"), "#FFFFFF");
}

#[test]
fn text_color_for_malformed_is_black() {
    assert_eq!(get_text_color_for_bg("bad"), "#000000");
    assert_eq!(get_text_color_for_bg(""), "#000000");
    assert_eq!(get_text_color_for_bg("#"), "#000000");
    assert_eq!(get_text_color_for_bg("#1234567"), "#000000");
    assert_eq!(get_text_color_for_bg("##123456"), "#000000");
}

#[test]
fn text_color_without_hash_parses() {
    assert_eq!(get_text_color_for_bg("123456"), "#FFFFFF");
}

#[test]
fn text_color_invalid_pair_reads_as_zero() {
    // R invalid (0), G = B = 0xFF: (587 * 255 + 114 * 255) / 1000 = 178 > 150.
    assert_eq!(get_text_color_for_bg("#ZZFFFF"), "#000000");
    // All pairs invalid: brightness 0.
    assert_eq!(get_text_color_for_bg("#GGGGGG"), "#FFFFFF");
}

#[test]
fn text_color_threshold_is_strict() {
    // Grey 0x96 = 150: brightness 150, not above 150.
    assert_eq!(get_text_color_for_bg("#969696"), "#FFFFFF");
    // Grey 0x97 = 151: brightness 151.
    assert_eq!(get_text_color_for_bg("#979797"), "#000000");
    assert_eq!(get_text_color_for_bg("#ffffff"), "#000000");
}

#[test]
fn grouping_single_category_scenario() {
    let cats = vec![category(1, "Pantry", "#FFFFFF")];
    let items = vec![
        plain_item(10, "Rice", Some(category(1, "Pantry", "#FFFFFF"))),
        plain_item(11, "Soap", None),
    ];
    let g = group_by_category(&items, &cats);
    assert_eq!(g.categorized.len(), 1);
    assert_eq!(g.categorized[0].name, "Pantry");
    assert_eq!(g.categorized[0].id, 1);
    assert_eq!(g.categorized[0].text_color, "#000000");
    assert_eq!(g.categorized[0].items.len(), 1);
    assert_eq!(g.categorized[0].items[0].id, 10);
    assert_eq!(g.uncategorized.len(), 1);
    assert_eq!(g.uncategorized[0].id, 11);
}

#[test]
fn grouping_sorts_groups_and_keeps_empty_ones() {
    let cats = vec![
        category(2, "pantry", "#000000"),
        category(3, "Fridge", "#FFFFFF"),
        category(4, "Bathroom", "#123456"),
    ];
    let items = vec![
        plain_item(20, "Milk", Some(category(3, "Fridge", "#FFFFFF"))),
        plain_item(21, "Beans", Some(category(2, "pantry", "#000000"))),
        plain_item(22, "Butter", Some(category(3, "Fridge", "#FFFFFF"))),
        plain_item(23, "Ghost", Some(category(99, "Gone", "#FFFFFF"))),
    ];
    let g = group_by_category(&items, &cats);
    let names: Vec<&str> = g.categorized.iter().map(|c| c.name.as_str()).collect();
    // Ordinal order: upper case before lower case.
    assert_eq!(names, vec!["Bathroom", "Fridge", "pantry"]);
    assert!(g.categorized[0].items.is_empty());
    assert_eq!(g.categorized[0].text_color, "#FFFFFF");
    let fridge: Vec<i32> = g.categorized[1].items.iter().map(|i| i.id).collect();
    assert_eq!(fridge, vec![20, 22]);
    assert_eq!(g.categorized[2].items[0].id, 21);
    assert_eq!(g.categorized[2].text_color, "#FFFFFF");
    assert_eq!(g.uncategorized.len(), 1);
    assert_eq!(g.uncategorized[0].id, 23);
}

#[test]
fn name_order_is_ordinal_and_stable() {
    assert!(name_less("Apple", "apple"));
    assert!(name_less("app", "apple"));
    assert!(!name_less("apple", "apple"));
    assert!(!name_less("b", "a"));
    let names = vec!["b".to_string(), "a".to_string(), "b".to_string(), "".to_string()];
    assert_eq!(order_by_name(&names), vec![3, 1, 0, 2]);
}

#[test]
fn use_item_decrements_by_one() {
    let mut inv = Inventory::new();
    let it = inv.create_item(1, new_item("Rice", 3, None, None), at(1)).unwrap();
    let used = inv.use_item(1, it.id, at(2)).unwrap();
    assert_eq!(used.quantity, 2);
    assert_eq!(used.updated_at, at(2));
    assert_eq!(used.created_at, at(1));
}

#[test]
fn use_item_at_zero_is_a_no_op() {
    let mut inv = Inventory::new();
    let it = inv.create_item(1, new_item("Rice", 0, None, None), at(1)).unwrap();
    let first = inv.use_item(1, it.id, at(2)).unwrap();
    assert_eq!(first.quantity, 0);
    assert_eq!(first.updated_at, at(1));
    let second = inv.use_item(1, it.id, at(3)).unwrap();
    assert_eq!(second.quantity, 0);
    assert_eq!(second.updated_at, at(1));
}

#[test]
fn repeated_uses_never_go_negative() {
    let mut inv = Inventory::new();
    let it = inv.create_item(1, new_item("Rice", 3, None, None), at(1)).unwrap();
    for t in 0..10 {
        let r = inv.use_item(1, it.id, at(2 + t)).unwrap();
        assert!(r.quantity >= 0);
    }
    assert_eq!(inv.get_item_by_id(1, it.id).unwrap().quantity, 0);
}

#[test]
fn use_item_missing_is_none() {
    let mut inv = Inventory::new();
    assert!(inv.use_item(1, 42, at(1)).is_none());
}

#[test]
fn purchase_adds_amount() {
    let mut inv = Inventory::new();
    let it = inv.create_item(1, new_item("Rice", 3, None, None), at(1)).unwrap();
    let r = inv.purchase_item(1, it.id, PurchaseItemPayload { quantity: 5 }, at(2)).unwrap().unwrap();
    assert_eq!(r.quantity, 8);
    assert_eq!(r.updated_at, at(2));
}

#[test]
fn purchase_non_positive_is_a_no_op() {
    let mut inv = Inventory::new();
    let it = inv.create_item(1, new_item("Rice", 3, None, None), at(1)).unwrap();
    let r = inv.purchase_item(1, it.id, PurchaseItemPayload { quantity: 0 }, at(2)).unwrap().unwrap();
    assert_eq!(r.quantity, 3);
    assert_eq!(r.updated_at, at(1));
    let r = inv.purchase_item(1, it.id, PurchaseItemPayload { quantity: -4 }, at(3)).unwrap().unwrap();
    assert_eq!(r.quantity, 3);
    assert_eq!(r.updated_at, at(1));
}

#[test]
fn purchase_missing_is_none() {
    let mut inv = Inventory::new();
    assert!(inv.purchase_item(1, 7, PurchaseItemPayload { quantity: 2 }, at(1)).unwrap().is_none());
}

#[test]
fn purchase_overflow_is_refused() {
    let mut inv = Inventory::new();
    let it = inv.create_item(1, new_item("Rice", i32::MAX - 1, None, None), at(1)).unwrap();
    let r = inv.purchase_item(1, it.id, PurchaseItemPayload { quantity: 2 }, at(2));
    assert!(matches!(r, Err(AppError::BadRequest(_))));
    assert_eq!(inv.get_item_by_id(1, it.id).unwrap().quantity, i32::MAX - 1);
    let r = inv.purchase_item(1, it.id, PurchaseItemPayload { quantity: 1 }, at(2)).unwrap().unwrap();
    assert_eq!(r.quantity, i32::MAX);
}

#[test]
fn create_item_defaults_threshold_to_one() {
    let mut inv = Inventory::new();
    let it = inv.create_item(1, new_item("Rice", 3, None, None), at(1)).unwrap();
    assert_eq!(it.restock_threshold, 1);
    assert_eq!(it.name, "Rice");
    assert!(it.category.is_none());
    let it = inv.create_item(1, new_item("Salt", 3, Some(0), None), at(1)).unwrap();
    assert_eq!(it.restock_threshold, 0);
}

#[test]
fn create_item_rejects_negative_quantity() {
    let mut inv = Inventory::new();
    let r = inv.create_item(1, new_item("Rice", -1, None, None), at(1));
    assert!(matches!(r, Err(AppError::BadRequest(_))));
    assert!(inv.get_all_items(1).is_empty());
}

#[test]
fn create_item_rejects_foreign_category() {
    let mut inv = Inventory::new();
    let c = inv
        .create_category(2, CreateCategoryPayload { name: "Pantry".to_string(), color: "#FFFFFF".to_string() })
        .unwrap();
    let r = inv.create_item(1, new_item("Rice", 1, None, Some(c.id)), at(1));
    assert!(matches!(r, Err(AppError::BadRequest(_))));
    let r = inv.create_item(1, new_item("Rice", 1, None, Some(999)), at(1));
    assert!(matches!(r, Err(AppError::BadRequest(_))));
    let ok = inv.create_item(2, new_item("Rice", 1, None, Some(c.id)), at(1)).unwrap();
    assert_eq!(ok.category.unwrap().name, "Pantry");
}

#[test]
fn update_item_merges_fields() {
    let mut inv = Inventory::new();
    let c = inv
        .create_category(1, CreateCategoryPayload { name: "Pantry".to_string(), color: "#FFFFFF".to_string() })
        .unwrap();
    let it = inv.create_item(1, new_item("Rice", 3, Some(2), Some(c.id)), at(1)).unwrap();
    let patch = UpdateItemPayload { name: None, quantity: Some(9), restock_threshold: None, category_id: None };
    let r = inv.update_item(1, it.id, patch, at(5)).unwrap().unwrap();
    assert_eq!(r.name, "Rice");
    assert_eq!(r.quantity, 9);
    assert_eq!(r.restock_threshold, 2);
    assert_eq!(r.category.unwrap().id, c.id);
    assert_eq!(r.updated_at, at(5));
    let patch = UpdateItemPayload { name: Some("Brown rice".to_string()), quantity: None, restock_threshold: Some(0), category_id: None };
    let r = inv.update_item(1, it.id, patch, at(6)).unwrap().unwrap();
    assert_eq!(r.name, "Brown rice");
    assert_eq!(r.quantity, 9);
    assert_eq!(r.restock_threshold, 0);
}

#[test]
fn update_item_rejects_negative_quantity() {
    let mut inv = Inventory::new();
    let it = inv.create_item(1, new_item("Rice", 3, None, None), at(1)).unwrap();
    let patch = UpdateItemPayload { name: None, quantity: Some(-1), restock_threshold: None, category_id: None };
    let r = inv.update_item(1, it.id, patch, at(2));
    assert!(matches!(r, Err(AppError::BadRequest(_))));
    assert_eq!(inv.get_item_by_id(1, it.id).unwrap().quantity, 3);
}

#[test]
fn update_item_missing_is_none() {
    let mut inv = Inventory::new();
    let patch = UpdateItemPayload { name: None, quantity: Some(-1), restock_threshold: None, category_id: None };
    assert!(inv.update_item(1, 5, patch, at(2)).unwrap().is_none());
}

#[test]
fn delete_item_counts_rows() {
    let mut inv = Inventory::new();
    let it = inv.create_item(1, new_item("Rice", 3, None, None), at(1)).unwrap();
    assert_eq!(inv.delete_item(1, it.id), 1);
    assert_eq!(inv.delete_item(1, it.id), 0);
    assert!(inv.get_item_by_id(1, it.id).is_none());
}

#[test]
fn items_below_threshold_is_strict() {
    let mut inv = Inventory::new();
    inv.create_item(1, new_item("Low", 2, Some(5), None), at(1)).unwrap();
    inv.create_item(1, new_item("Equal", 5, Some(5), None), at(1)).unwrap();
    inv.create_item(1, new_item("Disabled", 0, Some(0), None), at(1)).unwrap();
    let low = inv.get_items_to_restock(1);
    assert_eq!(low.len(), 1);
    assert_eq!(low[0].name, "Low");
}

#[test]
fn list_items_sorted_by_name_and_scoped() {
    let mut inv = Inventory::new();
    inv.create_item(1, new_item("pears", 1, None, None), at(1)).unwrap();
    inv.create_item(1, new_item("Apples", 1, None, None), at(1)).unwrap();
    inv.create_item(2, new_item("Bananas", 1, None, None), at(1)).unwrap();
    inv.create_item(1, new_item("Milk", 1, None, None), at(1)).unwrap();
    let names: Vec<String> = inv.get_all_items(1).into_iter().map(|i| i.name).collect();
    assert_eq!(names, vec!["Apples", "Milk", "pears"]);
    assert_eq!(inv.get_all_items(2).len(), 1);
    assert!(inv.get_all_items(3).is_empty());
}

#[test]
fn accounts_cannot_reach_each_other() {
    let mut inv = Inventory::new();
    let theirs = inv.create_item(2, new_item("Secret", 4, None, None), at(1)).unwrap();
    assert!(inv.get_item_by_id(1, theirs.id).is_none());
    assert!(inv.use_item(1, theirs.id, at(2)).is_none());
    assert!(inv.purchase_item(1, theirs.id, PurchaseItemPayload { quantity: 3 }, at(2)).unwrap().is_none());
    let patch = UpdateItemPayload { name: Some("Mine".to_string()), quantity: Some(0), restock_threshold: None, category_id: None };
    assert!(inv.update_item(1, theirs.id, patch, at(2)).unwrap().is_none());
    assert_eq!(inv.delete_item(1, theirs.id), 0);
    let still = inv.get_item_by_id(2, theirs.id).unwrap();
    assert_eq!(still.name, "Secret");
    assert_eq!(still.quantity, 4);
}

#[test]
fn categories_listed_sorted_and_scoped() {
    let mut inv = Inventory::new();
    for (owner, name) in [(1, "Pantry"), (1, "Fridge"), (2, "Garage")] {
        inv.create_category(owner, CreateCategoryPayload { name: name.to_string(), color: "#FFFFFF".to_string() })
            .unwrap();
    }
    let names: Vec<String> = inv.get_all_categories(1).into_iter().map(|c| c.name).collect();
    assert_eq!(names, vec!["Fridge", "Pantry"]);
}

#[test]
fn update_category_merges_fields() {
    let mut inv = Inventory::new();
    let c = inv
        .create_category(1, CreateCategoryPayload { name: "Pantry".to_string(), color: "#FFFFFF".to_string() })
        .unwrap();
    let r = inv.update_category(1, c.id, None, Some("#000000".to_string())).unwrap();
    assert_eq!(r.name, "Pantry");
    assert_eq!(r.color, "#000000");
    assert!(inv.update_category(2, c.id, Some("X".to_string()), None).is_none());
    assert_eq!(inv.get_category_by_id(1, c.id).unwrap().name, "Pantry");
}

#[test]
fn delete_category_keeps_items_uncategorized() {
    let mut inv = Inventory::new();
    let c = inv
        .create_category(1, CreateCategoryPayload { name: "Pantry".to_string(), color: "#FFFFFF".to_string() })
        .unwrap();
    let it = inv.create_item(1, new_item("Rice", 3, None, Some(c.id)), at(1)).unwrap();
    assert_eq!(inv.delete_category(2, c.id), 0);
    assert_eq!(inv.delete_category(1, c.id), 1);
    let after = inv.get_item_by_id(1, it.id).unwrap();
    assert!(after.category.is_none());
    assert!(inv.get_category_by_id(1, c.id).is_none());
}

#[test]
fn grouped_view_of_inventory() {
    let mut inv = Inventory::new();
    let c = inv
        .create_category(1, CreateCategoryPayload { name: "Pantry".to_string(), color: "#FFFFFF".to_string() })
        .unwrap();
    inv.create_category(1, CreateCategoryPayload { name: "Attic".to_string(), color: "#000000".to_string() })
        .unwrap();
    inv.create_item(1, new_item("Rice", 3, None, Some(c.id)), at(1)).unwrap();
    inv.create_item(1, new_item("Beans", 3, None, Some(c.id)), at(1)).unwrap();
    inv.create_item(1, new_item("Soap", 3, None, None), at(1)).unwrap();
    let g = inv.get_items_grouped_by_category(1);
    assert_eq!(g.categorized.len(), 2);
    assert_eq!(g.categorized[0].name, "Attic");
    assert!(g.categorized[0].items.is_empty());
    let pantry: Vec<String> = g.categorized[1].items.iter().map(|i| i.name.clone()).collect();
    assert_eq!(pantry, vec!["Beans", "Rice"]);
    assert_eq!(g.uncategorized[0].name, "Soap");
}

#[test]
fn notifications_fail_open() {
    assert!(get_notifications(Err(AppError::StoreUnavailable("down".to_string()))).is_empty());
    assert!(get_api_notifications(Err(AppError::StoreUnavailable("down".to_string()))).is_empty());
}

#[test]
fn notification_messages() {
    let mut item = plain_item(1, "Rice", None);
    item.quantity = 2;
    item.restock_threshold = 15;
    let api = get_api_notifications(Ok(vec![item.clone()]));
    assert_eq!(api.len(), 1);
    assert_eq!(api[0].item_name, "Rice");
    assert_eq!(api[0].message, "Item 'Rice' needs restocking. Current: 2, Threshold: 15.");
    let page = get_notifications(Ok(vec![item]));
    assert_eq!(page[0].message, "Aktualna ilość: 2, próg uzupełnienia: 15. Proszę uzupełnij!");
}

#[test]
fn notification_negative_threshold_text() {
    let mut item = plain_item(1, "Salt", None);
    item.quantity = 0;
    item.restock_threshold = -3;
    let api = get_api_notifications(Ok(vec![item]));
    assert_eq!(api[0].message, "Item 'Salt' needs restocking. Current: 0, Threshold: -3.");
}

#[test]
fn notifications_for_account() {
    let mut inv = Inventory::new();
    inv.create_item(1, new_item("Rice", 0, None, None), at(1)).unwrap();
    inv.create_item(1, new_item("Salt", 5, None, None), at(1)).unwrap();
    inv.create_item(2, new_item("Beans", 0, None, None), at(1)).unwrap();
    let n = notifications_for(&inv, 1);
    assert_eq!(n.len(), 1);
    assert_eq!(n[0].item_name, "Rice");
    assert_eq!(n[0].message, "Aktualna ilość: 0, próg uzupełnienia: 1. Proszę uzupełnij!");
}

#[test]
fn error_status_and_message() {
    assert_eq!(AppError::ItemNotFound.status_code(), 404);
    assert_eq!(AppError::ItemNotFound.message(), "Item not found");
    let bad = AppError::BadRequest("Authentication required".to_string());
    assert_eq!(bad.status_code(), 400);
    assert_eq!(bad.message(), "Authentication required");
    let store = AppError::StoreUnavailable("connection reset".to_string());
    assert_eq!(store.status_code(), 500);
    assert_eq!(store.message(), "Database error");
    let tpl = AppError::TemplateError("missing".to_string());
    assert_eq!(tpl.status_code(), 500);
    assert_eq!(tpl.message(), "Template rendering error");
    let other = AppError::InternalServerError("boom".to_string());
    assert_eq!(other.status_code(), 500);
    assert_eq!(other.message(), "boom");
}

#[test]
fn session_id_parsing() {
    assert_eq!(parse_i32("42"), Some(42));
    assert_eq!(parse_i32("+7"), Some(7));
    assert_eq!(parse_i32("-12"), Some(-12));
    assert_eq!(parse_i32("2147483647"), Some(i32::MAX));
    assert_eq!(parse_i32("-2147483648"), Some(i32::MIN));
    assert_eq!(parse_i32("2147483648"), None);
    assert_eq!(parse_i32("99999999999999999999"), None);
    assert_eq!(parse_i32(""), None);
    assert_eq!(parse_i32("-"), None);
    assert_eq!(parse_i32("12a"), None);
    assert_eq!(parse_i32(" 1"), None);
}

#[test]
fn session_cookie_detection() {
    assert!(has_session_cookie("group=true; session=3"));
    assert!(has_session_cookie("session="));
    assert!(!has_session_cookie("sess=3"));
    assert!(!has_session_cookie(""));
}

#[test]
fn trailing_slash_redirects() {
    assert_eq!(strip_trailing_slash("/web/", None), Some("/web".to_string()));
    assert_eq!(strip_trailing_slash("/web///", Some("a=1")), Some("/web?a=1".to_string()));
    assert_eq!(strip_trailing_slash("/", None), None);
    assert_eq!(strip_trailing_slash("/web", Some("a=1")), None);
}

#[test]
fn login_outcomes() {
    let acct = Account {
        id: 5,
        name: "Ann".to_string(),
        email: "ann@example.com".to_string(),
        password: "x".to_string(),
        created_at: at(0),
        updated_at: at(0),
    };
    assert_eq!(login_outcome(Some(acct.clone()), Some(true)).unwrap(), 5);
    assert!(matches!(login_outcome(Some(acct.clone()), Some(false)), Err(AppError::BadRequest(_))));
    assert!(matches!(login_outcome(Some(acct), None), Err(AppError::InternalServerError(_))));
    assert!(matches!(login_outcome(None, Some(true)), Err(AppError::BadRequest(_))));
}

#[test]
fn signup_then_login() {
    let mut inv = Inventory::new();
    let payload = CreateAccountPayload {
        name: "Ann".to_string(),
        email: "ann@example.com".to_string(),
        password: "hunter2".to_string(),
    };
    let acct = signup(&mut inv, &payload, at(1)).unwrap();
    assert_eq!(acct.email, "ann@example.com");
    assert_ne!(acct.password, "hunter2");
    assert_eq!(acct.password.len(), 60);
    assert!(signup(&mut inv, &payload, at(2)).is_err());
    let ok = login(&inv, &LoginPayload { email: "ann@example.com".to_string(), password: "hunter2".to_string() });
    assert_eq!(ok.unwrap(), acct.id);
    let wrong = login(&inv, &LoginPayload { email: "ann@example.com".to_string(), password: "nope".to_string() });
    assert!(matches!(wrong, Err(AppError::BadRequest(_))));
    let nobody = login(&inv, &LoginPayload { email: "bob@example.com".to_string(), password: "hunter2".to_string() });
    assert!(matches!(nobody, Err(AppError::BadRequest(_))));
}

#[test]
fn accounts_by_email_and_id() {
    let mut inv = Inventory::new();
    let a = inv.create_account("Ann", "ann@example.com", "hash", at(1)).unwrap();
    assert!(matches!(inv.create_account("Ann2", "ann@example.com", "hash", at(1)), Err(AppError::BadRequest(_))));
    assert_eq!(inv.get_account_by_email("ann@example.com").unwrap().id, a.id);
    assert!(inv.get_account_by_email("bob@example.com").is_none());
    assert_eq!(inv.get_user_by_id(a.id).unwrap().name, "Ann");
    assert!(inv.get_user_by_id(a.id + 1).is_none());
}

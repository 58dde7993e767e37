use food_ordering_bot::keyboard::{Button, InlineKeyboard};
use food_ordering_bot::order::Order;
use food_ordering_bot::user::User;

fn user(id: i64, name: &str) -> User {
    User::new(id, name.to_string())
}

fn button(text: &str, data: &str) -> Button {
    Button { text: text.to_string(), callback_data: data.to_string() }
}

fn waffles() -> Order {
    Order::new("waffles".to_string(), user(1, "Alice"))
}

#[test]
fn new_order_is_empty() {
    let order = waffles();
    assert_eq!(order.name(), "waffles");
    assert_eq!(order.owner(), &user(1, "Alice"));
    assert_eq!(order.selection_count(), 0);
    assert_eq!(order.item_names(), Vec::<String>::new());
    assert_eq!(order.to_string(), "Orders for waffles:\n\nNone");
    assert_eq!(order.generate_inline_buttons(), Vec::<Button>::new());
    assert_eq!(order.generate_reply_markup(), InlineKeyboard { rows: vec![] });
}

#[test]
fn add_item_reports_whether_it_replaced_a_selection() {
    let mut order = waffles();
    assert!(!order.add_item(user(1, "Alice"), "chocolate".to_string()));
    assert!(!order.add_item(user(2, "Bob"), "chocolate".to_string()));
    assert!(order.add_item(user(1, "Alice"), "vanilla".to_string()));
    assert!(order.add_item(user(1, "Alice"), "vanilla".to_string()));
    assert_eq!(order.selection_count(), 2);
}

#[test]
fn a_user_has_one_selection_at_most() {
    let mut order = waffles();
    for item in ["chocolate", "vanilla", "plain", "chocolate", "banana"] {
        order.add_item(user(7, "Carol"), item.to_string());
        assert_eq!(order.find_user_item(&user(7, "Carol")), Some(item.to_string()));
        assert_eq!(order.selection_count(), 1);
        assert_eq!(order.item_names(), vec![item.to_string()]);
        assert_eq!(order.user_names(item), vec!["Carol".to_string()]);
    }
}

#[test]
fn users_are_told_apart_by_identifier() {
    let mut order = waffles();
    order.add_item(user(1, "Alice"), "chocolate".to_string());
    order.add_item(user(2, "Alice"), "vanilla".to_string());
    assert_eq!(order.find_user_item(&user(1, "Someone")), Some("chocolate".to_string()));
    assert_eq!(order.find_user_item(&user(2, "Alice")), Some("vanilla".to_string()));
    assert_eq!(order.find_user_item(&user(3, "Alice")), None);
    assert!(order.add_item(user(1, "Alicia"), "chocolate".to_string()));
    assert_eq!(order.user_names("chocolate"), vec!["Alicia".to_string()]);
}

#[test]
fn remove_item_returns_the_item() {
    let mut order = waffles();
    order.add_item(user(1, "Alice"), "chocolate".to_string());
    order.add_item(user(2, "Bob"), "vanilla".to_string());
    assert_eq!(order.remove_item(&user(3, "Carol")), None);
    assert_eq!(order.selection_count(), 2);
    assert_eq!(order.remove_item(&user(1, "Alice")), Some("chocolate".to_string()));
    assert_eq!(order.remove_item(&user(1, "Alice")), None);
    assert_eq!(order.find_user_item(&user(1, "Alice")), None);
    assert_eq!(order.find_user_item(&user(2, "Bob")), Some("vanilla".to_string()));
}

#[test]
fn an_item_without_users_is_gone() {
    let mut order = waffles();
    order.add_item(user(1, "Alice"), "chocolate".to_string());
    order.add_item(user(2, "Bob"), "vanilla".to_string());
    order.remove_item(&user(1, "Alice"));
    assert_eq!(order.item_names(), vec!["vanilla".to_string()]);
    assert_eq!(order.to_string(), "1 orders for waffles:\n\n1 vanilla: Bob");
    assert_eq!(order.generate_inline_buttons(), vec![button("vanilla", "waffles vanilla")]);
    order.add_item(user(2, "Bob"), "plain".to_string());
    assert_eq!(order.item_names(), vec!["plain".to_string()]);
    assert_eq!(order.generate_inline_buttons(), vec![button("plain", "waffles plain")]);
    order.remove_item(&user(2, "Bob"));
    assert_eq!(order.to_string(), "Orders for waffles:\n\nNone");
    assert_eq!(order.generate_inline_buttons(), Vec::<Button>::new());
}

#[test]
fn summary_sorts_items_and_names() {
    let mut order = waffles();
    order.add_item(user(3, "Zoe"), "vanilla".to_string());
    order.add_item(user(1, "Bob"), "chocolate".to_string());
    order.add_item(user(2, "Alice"), "chocolate".to_string());
    order.add_item(user(4, "Bob"), "chocolate".to_string());
    order.add_item(user(5, "Mia"), "banana split".to_string());
    assert_eq!(
        order.to_string(),
        "5 orders for waffles:\n\n1 banana split: Mia\n3 chocolate: Alice, Bob, Bob\n1 vanilla: Zoe"
    );
    assert_eq!(order.user_names("chocolate"), vec!["Alice", "Bob", "Bob"]);
    assert_eq!(order.user_names("plain"), Vec::<String>::new());
}

#[test]
fn summary_counts_in_decimal() {
    let mut order = waffles();
    for id in 0..12 {
        order.add_item(user(id, "N"), "plain".to_string());
    }
    assert_eq!(
        order.to_string(),
        "12 orders for waffles:\n\n12 plain: N, N, N, N, N, N, N, N, N, N, N, N"
    );
}

#[test]
fn buttons_come_by_item_name_two_to_a_row() {
    let mut order = waffles();
    order.add_item(user(1, "A"), "vanilla".to_string());
    order.add_item(user(2, "B"), "chocolate".to_string());
    order.add_item(user(3, "C"), "large plain".to_string());
    assert_eq!(order.generate_inline_buttons(), vec![
        button("chocolate", "waffles chocolate"),
        button("large plain", "waffles large plain"),
        button("vanilla", "waffles vanilla"),
    ]);
    assert_eq!(order.generate_reply_markup(), InlineKeyboard {
        rows: vec![
            vec![button("chocolate", "waffles chocolate"), button("large plain", "waffles large plain")],
            vec![button("vanilla", "waffles vanilla")],
        ],
    });
    order.add_item(user(4, "D"), "apple".to_string());
    let rows = order.generate_reply_markup().rows;
    assert_eq!(rows.len(), 2);
    assert_eq!(rows[0].len(), 2);
    assert_eq!(rows[1].len(), 2);
    assert_eq!(rows[0][0], button("apple", "waffles apple"));
}

#[test]
fn in_rows_of_two_lays_out_any_number() {
    let mut buttons: Vec<Button> = Vec::new();
    for n in 0..7 {
        let rows = InlineKeyboard::in_rows_of_two(&buttons).rows;
        assert_eq!(rows.len(), (n + 1) / 2);
        let flat: Vec<Button> = rows.iter().flat_map(|r| r.iter().cloned()).collect();
        assert_eq!(flat, buttons);
        for (k, row) in rows.iter().enumerate() {
            assert_eq!(row.len(), if 2 * k + 2 <= n { 2 } else { 1 });
        }
        buttons.push(button(&format!("b{}", n), "d"));
    }
}

#[test]
fn clone_keeps_the_order() {
    let mut order = waffles();
    order.add_item(user(1, "Alice"), "chocolate".to_string());
    let copy = order.clone();
    assert_eq!(copy, order);
    order.add_item(user(2, "Bob"), "vanilla".to_string());
    assert_eq!(copy.selection_count(), 1);
    assert_ne!(copy, order);
}

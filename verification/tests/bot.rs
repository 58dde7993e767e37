use food_ordering_bot::bot::{
    decide_tap, is_view_command, is_view_command_text, Bot, CommandResult, TapDecision,
};
use food_ordering_bot::command::{normalize, parse_command, Command};
use food_ordering_bot::keyboard::{Button, InlineKeyboard};
use food_ordering_bot::user::User;

const CHAT: i64 = -1001;
const OTHER_CHAT: i64 = 42;
const NO_ORDERS: &str = "There are no orders in progress. To start an order, use /start_order";
const TAP_HINT: &str = "\nYou can also tap on an existing item to update or cancel your order.";

fn user(id: i64, name: &str) -> User {
    User::new(id, name.to_string())
}

fn button(text: &str, data: &str) -> Button {
    Button { text: text.to_string(), callback_data: data.to_string() }
}

fn keyboard(rows: Vec<Vec<Button>>) -> Option<InlineKeyboard> {
    Some(InlineKeyboard { rows })
}

/// Interprets `message` as `sender` in `chat` and carries the command out.
fn say(bot: &mut Bot, chat: i64, sender: &User, message: &str) -> CommandResult {
    let parsed = {
        let names = bot.get_active_order_names(chat);
        parse_command(message, &names)
    };
    match parsed {
        Ok(Command::StartOrder(name)) => bot.start_order(chat, sender.clone(), name),
        Ok(Command::EndOrder(name)) => bot.end_order(chat, sender, &name),
        Ok(Command::AddItem(name, item)) => bot.add_item(chat, sender.clone(), &name, item),
        Ok(Command::RemoveItem(name)) => bot.remove_item(chat, sender, &name),
        Ok(Command::ViewOrders) => bot.view_orders(chat),
        Ok(Command::Help) => CommandResult::success("help".to_string()),
        Err(message) => CommandResult::failure(message),
    }
}

#[test]
fn command_result_builders() {
    assert_eq!(CommandResult::success("ok".to_string()), CommandResult {
        success: true,
        response: "ok".to_string(),
        reply_markup: None,
    });
    assert_eq!(CommandResult::failure("no".to_string()), CommandResult {
        success: false,
        response: "no".to_string(),
        reply_markup: None,
    });
}

#[test]
fn start_in_an_empty_conversation() {
    let mut bot = Bot::new();
    assert!(!bot.has_active_orders());
    assert_eq!(bot.get_active_order_names(CHAT), Vec::<&str>::new());
    let alice = user(1, "Alice");
    let res = say(&mut bot, CHAT, &alice, "/start waffles");
    assert_eq!(res, CommandResult::success(
        "Order started for waffles.\nUse /order <item> to order, /view_orders to view active orders, /end_order when done, or start another order.".to_string()
    ));
    assert!(bot.has_active_orders());
    assert_eq!(bot.get_active_order_names(CHAT), vec!["waffles"]);
    assert_eq!(bot.get_active_order_names(OTHER_CHAT), Vec::<&str>::new());
    // the sender owns the order: only they can end it
    assert!(!say(&mut bot, CHAT, &user(2, "Bob"), "/end").success);
    assert!(say(&mut bot, CHAT, &alice, "/end").success);
}

#[test]
fn start_again_under_the_same_name() {
    let mut bot = Bot::new();
    let alice = user(1, "Alice");
    say(&mut bot, CHAT, &alice, "/start waffles");
    say(&mut bot, CHAT, &alice, "/order chocolate");
    let res = say(&mut bot, CHAT, &user(2, "Bob"), "/start waffles");
    assert_eq!(res, CommandResult::failure(
        "There is already an order for waffles in progress.".to_string()
    ));
    assert_eq!(bot.get_active_order_names(CHAT), vec!["waffles"]);
    assert_eq!(bot.current_item(CHAT, &alice, "waffles"), Some("chocolate".to_string()));
    // another conversation may use the name
    assert!(say(&mut bot, OTHER_CHAT, &alice, "/start waffles").success);
}

#[test]
fn start_a_second_order() {
    let mut bot = Bot::new();
    let alice = user(1, "Alice");
    say(&mut bot, CHAT, &alice, "/start waffles");
    let res = say(&mut bot, CHAT, &alice, "/start Ice Cream");
    assert_eq!(res, CommandResult::success(
        "Order started for ice-cream.\nUse /order ice-cream <item> to order, /view_orders to view active orders and /end_order ice-cream when done.".to_string()
    ));
    assert_eq!(bot.get_active_order_names(CHAT), vec!["waffles", "ice-cream"]);
}

#[test]
fn order_without_a_name_while_two_orders_are_open() {
    let mut bot = Bot::new();
    let alice = user(1, "Alice");
    say(&mut bot, CHAT, &alice, "/start waffles");
    say(&mut bot, CHAT, &alice, "/start pizza");
    let res = say(&mut bot, CHAT, &alice, "/order chocolate");
    assert_eq!(res, CommandResult::failure(
        "Specify the order name and item you wish to order. For example, /order waffles chocolate".to_string()
    ));
    assert_eq!(bot.current_item(CHAT, &alice, "waffles"), None);
    assert_eq!(bot.current_item(CHAT, &alice, "pizza"), None);
}

#[test]
fn order_then_cancel() {
    let mut bot = Bot::new();
    let alice = user(1, "Alice");
    say(&mut bot, CHAT, &alice, "/start waffles");
    let res = say(&mut bot, CHAT, &alice, "/order waffles chocolate");
    assert_eq!(res, CommandResult {
        success: true,
        response: format!(
            "1 orders for waffles:\n\n1 chocolate: Alice\nUse /order <item> to update your order and /end_order when done.{}",
            TAP_HINT
        ),
        reply_markup: keyboard(vec![vec![button("chocolate", "waffles chocolate")]]),
    });
    let res = say(&mut bot, CHAT, &alice, "/cancel waffles");
    assert_eq!(res, CommandResult {
        success: true,
        response: format!(
            "Orders for waffles:\n\nNone\nUse /order <item> to order, and /end_order when done.{}",
            TAP_HINT
        ),
        reply_markup: keyboard(vec![]),
    });
    assert_eq!(bot.current_item(CHAT, &alice, "waffles"), None);
    assert_eq!(bot.get_active_order_names(CHAT), vec!["waffles"]);
    let res = say(&mut bot, CHAT, &alice, "/cancel");
    assert_eq!(res, CommandResult::failure(
        "You have either not placed any orders for waffles, or order waffles does not exist.".to_string()
    ));
}

#[test]
fn only_the_owner_ends_an_order() {
    let mut bot = Bot::new();
    let alice = user(1, "Alice");
    let bob = user(2, "Bob");
    say(&mut bot, CHAT, &alice, "/start pizza");
    say(&mut bot, CHAT, &bob, "/order margherita");
    let res = say(&mut bot, CHAT, &bob, "/end pizza");
    assert_eq!(res, CommandResult::failure("Only Alice may end their order for pizza.".to_string()));
    assert_eq!(bot.get_active_order_names(CHAT), vec!["pizza"]);
    let res = say(&mut bot, CHAT, &alice, "/end pizza");
    assert_eq!(res, CommandResult::success("1 orders for pizza:\n\n1 margherita: Bob".to_string()));
    assert_eq!(bot.get_active_order_names(CHAT), Vec::<&str>::new());
    assert!(!bot.has_active_orders());
    assert_eq!(say(&mut bot, CHAT, &alice, "/view"), CommandResult::failure(NO_ORDERS.to_string()));
}

#[test]
fn ending_one_of_two_orders_keeps_the_conversation() {
    let mut bot = Bot::new();
    let alice = user(1, "Alice");
    say(&mut bot, CHAT, &alice, "/start waffles");
    say(&mut bot, CHAT, &alice, "/start pizza");
    assert!(bot.end_order(CHAT, &alice, "waffles").success);
    assert!(bot.has_active_orders());
    assert_eq!(bot.get_active_order_names(CHAT), vec!["pizza"]);
    assert_eq!(
        bot.end_order(CHAT, &alice, "waffles"),
        CommandResult::failure("Order waffles not found.".to_string())
    );
}

#[test]
fn commands_in_a_conversation_without_orders() {
    let mut bot = Bot::new();
    let alice = user(1, "Alice");
    bot.start_order(OTHER_CHAT, alice.clone(), "waffles".to_string());
    let none = CommandResult::failure(NO_ORDERS.to_string());
    assert_eq!(bot.end_order(CHAT, &alice, "waffles"), none);
    assert_eq!(bot.add_item(CHAT, alice.clone(), "waffles", "chocolate".to_string()), none);
    assert_eq!(bot.remove_item(CHAT, &alice, "waffles"), none);
    assert_eq!(bot.view_orders(CHAT), none);
    assert_eq!(bot.get_active_order_names(OTHER_CHAT), vec!["waffles"]);
}

#[test]
fn add_item_to_an_order_that_is_not_open() {
    let mut bot = Bot::new();
    let alice = user(1, "Alice");
    bot.start_order(CHAT, alice.clone(), "waffles".to_string());
    assert_eq!(
        bot.add_item(CHAT, alice.clone(), "pizza", "margherita".to_string()),
        CommandResult::failure("Order pizza not found.".to_string())
    );
    assert_eq!(
        bot.remove_item(CHAT, &alice, "pizza"),
        CommandResult::failure(
            "You have either not placed any orders for pizza, or order pizza does not exist.".to_string()
        )
    );
}

#[test]
fn view_shows_all_orders() {
    let mut bot = Bot::new();
    let alice = user(1, "Alice");
    say(&mut bot, CHAT, &alice, "/start waffles");
    say(&mut bot, CHAT, &alice, "/start pizza");
    say(&mut bot, CHAT, &alice, "/order waffles chocolate");
    say(&mut bot, CHAT, &user(2, "Bob"), "/order pizza margherita");
    let res = say(&mut bot, CHAT, &alice, "/view");
    assert_eq!(res, CommandResult {
        success: true,
        response: format!(
            "There are 2 orders.\n1 orders for waffles:\n\n1 chocolate: Alice\n\n1 orders for pizza:\n\n1 margherita: Bob\n\nUse /order <item> to order, /cancel to cancel your order and /end_order when done.{}",
            TAP_HINT
        ),
        reply_markup: keyboard(vec![vec![
            button("chocolate", "waffles chocolate"),
            button("margherita", "pizza margherita"),
        ]]),
    });
}

#[test]
fn decide_tap_compares_with_the_current_selection() {
    assert_eq!(decide_tap(Some("chocolate"), "chocolate"), TapDecision::Cancel);
    assert_eq!(decide_tap(Some("vanilla"), "chocolate"), TapDecision::Select);
    assert_eq!(decide_tap(None, "chocolate"), TapDecision::Select);
}

#[test]
fn tap_on_the_own_selection_cancels_it() {
    let mut bot = Bot::new();
    let alice = user(1, "Alice");
    say(&mut bot, CHAT, &alice, "/start waffles");
    say(&mut bot, CHAT, &alice, "/order chocolate");
    let (res, answer) = bot.handle_callback_query(CHAT, alice.clone(), "waffles chocolate", false);
    assert_eq!(answer, "Cancelled order of chocolate for waffles.");
    assert_eq!(res, CommandResult {
        success: true,
        response: format!(
            "Orders for waffles:\n\nNone\nUse /order <item> to order, and /end_order when done.{}",
            TAP_HINT
        ),
        reply_markup: keyboard(vec![]),
    });
    assert_eq!(bot.current_item(CHAT, &alice, "waffles"), None);
}

#[test]
fn tap_on_another_item_selects_it() {
    let mut bot = Bot::new();
    let alice = user(1, "Alice");
    let bob = user(2, "Bob");
    say(&mut bot, CHAT, &alice, "/start waffles");
    say(&mut bot, CHAT, &alice, "/order large chocolate");
    say(&mut bot, CHAT, &bob, "/order vanilla");
    let (res, answer) = bot.handle_callback_query(CHAT, bob.clone(), " Waffles Large Chocolate ", false);
    assert_eq!(answer, "Updated order for waffles to large chocolate.");
    assert_eq!(res, CommandResult {
        success: true,
        response: format!(
            "2 orders for waffles:\n\n2 large chocolate: Alice, Bob\nUse /order <item> to update your order and /end_order when done.{}",
            TAP_HINT
        ),
        reply_markup: keyboard(vec![vec![button("large chocolate", "waffles large chocolate")]]),
    });
    assert_eq!(bot.current_item(CHAT, &bob, "waffles"), Some("large chocolate".to_string()));
}

#[test]
fn tap_under_the_view_of_all_orders_shows_all_orders_again() {
    let mut bot = Bot::new();
    let alice = user(1, "Alice");
    say(&mut bot, CHAT, &alice, "/start waffles");
    say(&mut bot, CHAT, &alice, "/start pizza");
    say(&mut bot, CHAT, &alice, "/order pizza margherita");
    let (res, answer) = bot.handle_callback_query(CHAT, alice.clone(), "waffles chocolate", true);
    assert_eq!(answer, "Updated order for waffles to chocolate.");
    assert_eq!(res, bot.view_orders(CHAT));
    assert_eq!(res.reply_markup, keyboard(vec![vec![
        button("chocolate", "waffles chocolate"),
        button("margherita", "pizza margherita"),
    ]]));
    let (res, answer) = bot.handle_callback_query(CHAT, alice.clone(), "waffles chocolate", true);
    assert_eq!(answer, "Cancelled order of chocolate for waffles.");
    assert_eq!(res, bot.view_orders(CHAT));
}

#[test]
fn tap_that_fails_changes_nothing() {
    let mut bot = Bot::new();
    let alice = user(1, "Alice");
    say(&mut bot, CHAT, &alice, "/start waffles");
    let (res, answer) = bot.handle_callback_query(CHAT, alice.clone(), "nonsense", false);
    assert_eq!(res, CommandResult::failure("Unrecognized callback query".to_string()));
    assert_eq!(answer, "Invalid order or item name");
    let (res, answer) = bot.handle_callback_query(CHAT, alice.clone(), "pizza margherita", true);
    assert_eq!(res, CommandResult::failure("Order pizza not found.".to_string()));
    assert_eq!(answer, "Order pizza not found.");
    let (res, answer) = bot.handle_callback_query(OTHER_CHAT, alice.clone(), "waffles chocolate", false);
    assert_eq!(res, CommandResult::failure(NO_ORDERS.to_string()));
    assert_eq!(answer, NO_ORDERS);
    assert_eq!(bot.get_active_order_names(CHAT), vec!["waffles"]);
    assert_eq!(bot.current_item(CHAT, &alice, "waffles"), None);
}

#[test]
fn tap_on_a_payload_in_normal_form() {
    let mut bot = Bot::new();
    let alice = user(1, "Alice");
    say(&mut bot, CHAT, &alice, "/start waffles");
    // the text is trimmed before the mention is taken out
    let payload = normalize(" waffles chocolate cone @food_ordering_bot ");
    assert_eq!(payload.iter().collect::<String>(), "waffles chocolate cone ");
    let (res, answer) =
        bot.handle_callback(CHAT, alice.clone(), " waffles chocolate cone@food_ordering_bot", false);
    assert!(res.success);
    assert_eq!(answer, "Updated order for waffles to chocolate cone.");
    assert_eq!(bot.current_item(CHAT, &alice, "waffles"), Some("chocolate cone".to_string()));
    // case is not changed here: the payload names no open order
    let (res, answer) = bot.handle_callback(CHAT, alice.clone(), "Waffles plain", false);
    assert_eq!(res, CommandResult::failure("Order Waffles not found.".to_string()));
    assert_eq!(answer, "Order Waffles not found.");
}

#[test]
fn default_bot_has_no_orders() {
    let bot = Bot::default();
    assert!(!bot.has_active_orders());
}

const HELP: &str = "/start <order name> - starts an order. For example, /start waffles.
    /view - shows active orders.

    The following commands will ask for the order name, if there are multiple active orders.

    /order [order name] <item> - adds an item to an order, or replaces the previously chosen one.
    /cancel [order-name] - removes your previously selected item from an order.
    /end [order-name] - stops an order.

    For feature requests, bug reports and source: https://github.com/Neurrone/food-ordering-bot";

#[test]
fn execute_carries_out_each_command() {
    let mut bot = Bot::new();
    let alice = user(1, "Alice");
    assert_eq!(
        bot.execute(CHAT, alice.clone(), Command::Help),
        CommandResult::success(HELP.to_string())
    );
    assert!(!bot.has_active_orders());
    assert_eq!(
        bot.execute(CHAT, alice.clone(), Command::ViewOrders),
        CommandResult::failure(NO_ORDERS.to_string())
    );
    assert!(bot.execute(CHAT, alice.clone(), Command::StartOrder("waffles".to_string())).success);
    assert!(bot
        .execute(CHAT, alice.clone(), Command::AddItem("waffles".to_string(), "plain".to_string()))
        .success);
    assert_eq!(bot.current_item(CHAT, &alice, "waffles"), Some("plain".to_string()));
    assert_eq!(bot.execute(CHAT, alice.clone(), Command::ViewOrders), bot.view_orders(CHAT));
    assert!(bot.execute(CHAT, alice.clone(), Command::RemoveItem("waffles".to_string())).success);
    assert_eq!(bot.current_item(CHAT, &alice, "waffles"), None);
    assert!(!bot.execute(CHAT, user(2, "Bob"), Command::EndOrder("waffles".to_string())).success);
    assert!(bot.execute(CHAT, alice.clone(), Command::EndOrder("waffles".to_string())).success);
    assert!(!bot.has_active_orders());
}

#[test]
fn handle_message_reads_against_the_open_orders() {
    let mut bot = Bot::new();
    let alice = user(1, "Alice");
    assert_eq!(
        bot.handle_message(CHAT, alice.clone(), "hello"),
        CommandResult::failure("Use /help for supported commands.".to_string())
    );
    assert_eq!(
        bot.handle_message(CHAT, alice.clone(), "/order chocolate"),
        CommandResult::failure(
            "There are no active orders. Start one by using /start <order name>.".to_string()
        )
    );
    assert_eq!(bot.handle_message(CHAT, alice.clone(), "/HELP"), CommandResult::success(HELP.to_string()));
    assert!(bot.handle_message(CHAT, alice.clone(), "/Start Waffles").success);
    assert!(bot.handle_message(OTHER_CHAT, alice.clone(), "/start pizza").success);
    // the only order of this chat is inferred; that of the other chat is not seen
    assert!(bot.handle_message(CHAT, alice.clone(), "/order pizza").success);
    assert_eq!(bot.current_item(CHAT, &alice, "waffles"), Some("pizza".to_string()));
    assert_eq!(bot.current_item(OTHER_CHAT, &alice, "pizza"), None);
    assert_eq!(
        bot.handle_message(CHAT, alice.clone(), "/end pizza"),
        CommandResult::failure("Order pizza not found.".to_string())
    );
    assert_eq!(
        bot.handle_message(CHAT, alice.clone(), "/end"),
        CommandResult::success("1 orders for waffles:\n\n1 pizza: Alice".to_string())
    );
    assert_eq!(bot.get_active_order_names(CHAT), Vec::<&str>::new());
    assert_eq!(bot.get_active_order_names(OTHER_CHAT), vec!["pizza"]);
}

#[test]
fn is_view_command_ignores_case_and_surrounding_whitespace() {
    assert!(is_view_command("/view"));
    assert!(is_view_command("  /VIEW\n"));
    assert!(!is_view_command("/view all"));
    assert!(!is_view_command("/view@food_ordering_bot"));
    assert!(!is_view_command("view"));
    assert!(!is_view_command(""));
    assert!(is_view_command_text(" /view "));
    assert!(!is_view_command_text("/View"));
}

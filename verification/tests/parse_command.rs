use food_ordering_bot::command::{parse_command, Command};
use food_ordering_bot::command::Command::{AddItem, EndOrder, RemoveItem, StartOrder};

const NO_ORDERS: &[&str] = &[];
const WAFFLES: &[&str] = &["waffles"];
const PIZZA: &[&str] = &["pizza"];
const WAFFLES_AND_PIZZA: &[&str] = &["waffles", "pizza"];

#[test]
fn parse_unrecognized_command_errors() {
    assert!(parse_command("/invalid_command", NO_ORDERS).is_err());
    assert!(parse_command("hi", NO_ORDERS).is_err());
    assert!(parse_command("hi", WAFFLES).is_err());
}

#[test]
fn parse_start() {
    assert_eq!(
        parse_command("/start ", NO_ORDERS),
        Err("Specify the name of the order. For example, /start waffles".into())
    );
    assert_eq!(
        parse_command("/start waffles", NO_ORDERS),
        Ok(StartOrder("waffles".into()))
    );
    assert_eq!(
        parse_command("/Start WAFFLES ", NO_ORDERS),
        parse_command("/start waffles", NO_ORDERS),
        "whitespace and capitalization are ignored"
    );
    assert_eq!(
        parse_command("/start waffles @food_ordering_bot", NO_ORDERS),
        parse_command("/start waffles", NO_ORDERS),
        "@mentions are ignored"
    );
    assert_eq!(
        parse_command("/start ice cream", NO_ORDERS),
        Ok(StartOrder("ice-cream".into())),
        "Spaces in orders are automatically replaced with -"
    );
    assert_eq!(
        parse_command("/start ice-cream", NO_ORDERS),
        Ok(StartOrder("ice-cream".into())),
        "order names may contain -"
    );
}

#[test]
fn parse_end() {
    assert_eq!(
        parse_command("/end", NO_ORDERS),
        Err("There are no active orders. Start one by using /start <order name>.".into())
    );

    assert_eq!(
        parse_command("/end waffles", WAFFLES),
        Ok(EndOrder("waffles".into()))
    );
    assert_eq!(
        parse_command("/end", WAFFLES),
        Ok(EndOrder("waffles".into())),
        "order name may be omitted if there is only 1 active order"
    );
    assert_eq!(
        parse_command("/end ice-cream", WAFFLES),
        Err("Order ice-cream not found.".into())
    );

    // multiple active orders
    assert_eq!(parse_command("/end", WAFFLES_AND_PIZZA), Err("Since there are multiple active orders, Specify the name of the order. For example, /end waffles".into()));
    assert_eq!(
        parse_command("/end waffles", WAFFLES_AND_PIZZA),
        Ok(EndOrder("waffles".into()))
    );
    assert_eq!(
        parse_command("/end pizza", WAFFLES_AND_PIZZA),
        Ok(EndOrder("pizza".into()))
    );

    assert_eq!(
        parse_command("/End Waffles ", WAFFLES),
        parse_command("/end waffles", WAFFLES),
        "whitespace and capitalization are ignored"
    );
    assert_eq!(
        parse_command("/end Waffles", NO_ORDERS),
        Err("There are no active orders. Start one by using /start <order name>.".into())
    );
    assert_eq!(
        parse_command("/end Waffles", PIZZA),
        Err("Order waffles not found.".into())
    );
}

#[test]
fn parse_order() {
    // no active orders
    assert_eq!(
        parse_command("/order", NO_ORDERS),
        Err("There are no active orders. Start one by using /start <order name>.".into())
    );
    assert_eq!(
        parse_command("/order chocolate", NO_ORDERS),
        Err("There are no active orders. Start one by using /start <order name>.".into())
    );
    assert_eq!(
        parse_command("/order waffles chocolate", NO_ORDERS),
        Err("There are no active orders. Start one by using /start <order name>.".into())
    );

    // one active order
    assert_eq!(
        parse_command("/order", WAFFLES),
        Err(
            "Specify the name of the item you wish to order. For example, /order chocolate"
                .into()
        ),
    );
    assert_eq!(
        parse_command("/order chocolate", WAFFLES),
        Ok(AddItem("waffles".into(), "chocolate".into())),
        "Order name may be omitted if there is only 1 active order"
    );
    assert_eq!(
        parse_command("/order Large Chocolate ", WAFFLES),
        Ok(AddItem("waffles".into(), "large chocolate".into())),
        "capitalization is ignored, and multi-word items are allowed"
    );
    assert_eq!(
        parse_command("/order waffles chocolate", WAFFLES),
        Ok(AddItem("waffles".into(), "chocolate".into())),
        "Order name may be specified even when there is only 1 active order"
    );
    assert_eq!(
        parse_command("/order waffles Large Chocolate", WAFFLES),
        Ok(AddItem("waffles".into(), "large chocolate".into())),
        "capitalization is ignored, and multi-word items are allowed"
    );

    // 2 active orders
    assert_eq!(
        parse_command("/order", WAFFLES_AND_PIZZA),
        Err("Specify the order name and item you wish to order. For example, /order waffles chocolate".into()),
    );
    assert_eq!(
        parse_command("/order chocolate", WAFFLES_AND_PIZZA),
        Err("Specify the order name and item you wish to order. For example, /order waffles chocolate".into()),
    );
    assert_eq!(
        parse_command("/order waffles", WAFFLES_AND_PIZZA),
        Err("Specify the order name and item you wish to order. For example, /order waffles chocolate".into()),
    );
    assert_eq!(
        parse_command("/order waffles chocolate", WAFFLES_AND_PIZZA),
        Ok(AddItem("waffles".into(), "chocolate".into())),
    );
    assert_eq!(
        parse_command("/order  waffles LARGE  CHOCOLATE ", WAFFLES_AND_PIZZA),
        Ok(AddItem("waffles".into(), "large chocolate".into())),
    );
    assert_eq!(
        parse_command("/order pizza Barbecue chicken", WAFFLES_AND_PIZZA),
        Ok(AddItem("pizza".into(), "barbecue chicken".into())),
    );
    assert_eq!(
        parse_command("/order ice-cream chocolate cone", WAFFLES_AND_PIZZA),
        Err("Order ice-cream not found. Specify the order name and item you wish to order. For example, /order waffles chocolate".into()),
    );
}

#[test]
fn parse_cancel() {
    assert_eq!(
        parse_command("/cancel", NO_ORDERS),
        Err("There are no active orders. Start one by using /start <order name>.".into())
    );
    assert_eq!(
        parse_command("/cancel", NO_ORDERS),
        parse_command("/cancel waffles", NO_ORDERS)
    );

    // 1 active order
    assert_eq!(
        parse_command("/cancel", WAFFLES),
        Ok(RemoveItem("waffles".into()))
    );
    assert_eq!(
        parse_command("/cancel Waffles", WAFFLES),
        Ok(RemoveItem("waffles".into()))
    );
    assert_eq!(
        parse_command("/cancel ice-cream", WAFFLES),
        Err("Order ice-cream not found.".into())
    );

    // 2 active orders
    assert_eq!(
        parse_command("/cancel", WAFFLES_AND_PIZZA),
        Err("As there are multiple active orders, Specify the name of the order. For example, /cancel waffles".into())
    );
    assert_eq!(
        parse_command("/cancel PIZZA ", WAFFLES_AND_PIZZA),
        Ok(RemoveItem("pizza".into()))
    );
    assert_eq!(
        parse_command("/cancel ice-cream", WAFFLES_AND_PIZZA),
        Err("Order ice-cream not found.".into())
    );
}

#[test]
fn parse_view_and_help() {
    assert_eq!(parse_command("/view", NO_ORDERS), Ok(Command::ViewOrders));
    assert_eq!(parse_command("/VIEW  ", WAFFLES), Ok(Command::ViewOrders));
    assert_eq!(parse_command("/help", NO_ORDERS), Ok(Command::Help));
    assert_eq!(parse_command("/help@food_ordering_bot", WAFFLES_AND_PIZZA), Ok(Command::Help));
}

#[test]
fn parse_refuses_what_is_no_command() {
    assert_eq!(
        parse_command("hi", NO_ORDERS),
        Err("Use /help for supported commands.".into())
    );
    assert_eq!(
        parse_command("", NO_ORDERS),
        Err("Use /help for supported commands.".into())
    );
    assert_eq!(
        parse_command(" /start waffles", NO_ORDERS),
        Err("Use /help for supported commands.".into())
    );
    assert_eq!(
        parse_command("/invalid_command", NO_ORDERS),
        Err("Use /help for a list of recognized commands.".into())
    );
    assert_eq!(
        parse_command("/", WAFFLES),
        Err("Use /help for a list of recognized commands.".into())
    );
    assert_eq!(
        parse_command("/@food_ordering_bot", WAFFLES),
        Err("Use /help for a list of recognized commands.".into())
    );
}

#[test]
fn parse_is_blind_to_case_whitespace_and_mentions() {
    let plain = parse_command("/order waffles large chocolate", WAFFLES_AND_PIZZA);
    assert_eq!(plain, Ok(AddItem("waffles".into(), "large chocolate".into())));
    for message in [
        "/ORDER Waffles Large CHOCOLATE",
        "/order   waffles\tlarge \u{a0} chocolate  ",
        "/order@food_ordering_bot waffles large chocolate",
        "/order waffles large chocolate @Food_Ordering_Bot",
        "/order waffles @food_ordering_bot large chocolate\n",
    ] {
        assert_eq!(parse_command(message, WAFFLES_AND_PIZZA), plain, "{:?}", message);
    }
}

#[test]
fn parse_infers_the_only_order() {
    assert_eq!(parse_command("/end", PIZZA), Ok(EndOrder("pizza".into())));
    assert_eq!(parse_command("/cancel", PIZZA), Ok(RemoveItem("pizza".into())));
    assert_eq!(
        parse_command("/order margherita", PIZZA),
        Ok(AddItem("pizza".into(), "margherita".into()))
    );
    assert_eq!(parse_command("/order pizza", PIZZA), Ok(AddItem("pizza".into(), "".into())));
    assert_eq!(
        parse_command("/order waffles pizza", PIZZA),
        Ok(AddItem("pizza".into(), "waffles pizza".into()))
    );
    assert_eq!(
        parse_command("/end pizza now", PIZZA),
        Err("Order pizza not found.".into())
    );
    assert_eq!(
        parse_command("/start a b c", PIZZA),
        Ok(StartOrder("a-b-c".into()))
    );
}

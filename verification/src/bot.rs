//! The dispatcher: one registry of orders for each conversation, and for each
//! command the change it makes and the reply it gives.
//!
//! The dispatcher is modelled by a map from the identifier of a conversation
//! to its registry. A conversation is in the map exactly as long as an order
//! is open in it.
use std::collections::HashMap;
use vstd::prelude::*;
use crate::command::{
    normalize, normalized, parse_command, parsed_message, Command, CommandView,
};
use crate::conversation_orders::{ConversationOrders, ConversationView};
use crate::keyboard::{rows_of_two, ButtonView, InlineKeyboard};
use crate::order::optional_text;
use crate::text::{
    find_first, first_index, from_chars, lemma_first_index, lowercase, same_text, texts, to_chars,
    to_lowercase, trim, trim_chars,
};
use crate::user::{User, UserView};

verus! {

/// The identifier of a conversation.
pub type ChatId = i64;

/// The reply to a command.
#[derive(Debug, PartialEq, Eq)]
pub struct CommandResult {
    /// Whether the command was carried out.
    pub success: bool,
    /// The text for the sender.
    pub response: String,
    /// The buttons to show under the text, if any.
    pub reply_markup: Option<InlineKeyboard>,
}

/// A reply as a mathematical value.
pub struct CommandResultView {
    pub success: bool,
    pub response: Seq<char>,
    pub reply_markup: Option<Seq<Seq<ButtonView>>>,
}

impl View for CommandResult {
    type V = CommandResultView;

    open spec fn view(&self) -> CommandResultView {
        CommandResultView {
            success: self.success,
            response: self.response@,
            reply_markup: match self.reply_markup {
                Some(keyboard) => Some(keyboard@),
                None => None,
            },
        }
    }
}

/// The reply that a command was carried out, without buttons.
pub open spec fn succeeded(response: Seq<char>) -> CommandResultView {
    CommandResultView { success: true, response, reply_markup: None }
}

/// The reply that a command was not carried out.
pub open spec fn failed(response: Seq<char>) -> CommandResultView {
    CommandResultView { success: false, response, reply_markup: None }
}

/// The reply that a command was carried out, with buttons two to a row.
pub open spec fn shown(response: Seq<char>, buttons: Seq<ButtonView>) -> CommandResultView {
    CommandResultView { success: true, response, reply_markup: Some(rows_of_two(buttons)) }
}

/// The reply to a command in a conversation without open orders.
pub open spec fn no_orders_in_progress() -> CommandResultView {
    failed("There are no orders in progress. To start an order, use /start_order"@)
}

impl CommandResult {
    /// The reply that a command was carried out.
    pub fn success(response: String) -> (r: CommandResult)
        ensures
            r@ == succeeded(response@),
    {
        CommandResult { success: true, response, reply_markup: None }
    }

    /// The reply that a command was not carried out.
    pub fn failure(response: String) -> (r: CommandResult)
        ensures
            r@ == failed(response@),
    {
        CommandResult { success: false, response, reply_markup: None }
    }

    /// The reply to a command in a conversation without open orders.
    fn no_orders_in_progress() -> (r: CommandResult)
        ensures
            r@ == no_orders_in_progress(),
    {
        CommandResult::failure(
            "There are no orders in progress. To start an order, use /start_order".to_owned(),
        )
    }
}

/// The usage text.
pub open spec fn help_text() -> Seq<char> {
    "/start <order name> - starts an order. For example, /start waffles.\n    /view - shows active orders.\n\n    The following commands will ask for the order name, if there are multiple active orders.\n\n    /order [order name] <item> - adds an item to an order, or replaces the previously chosen one.\n    /cancel [order-name] - removes your previously selected item from an order.\n    /end [order-name] - stops an order.\n\n    For feature requests, bug reports and source: https://github.com/Neurrone/food-ordering-bot"@
}

/// Whether a text in lowercase is, but for surrounding whitespace, the
/// command that shows all orders.
pub open spec fn is_view_text(text: Seq<char>) -> bool {
    trim(text) == "/view"@
}

/// Whether `text`, already in lowercase, is the command that shows all
/// orders, but for surrounding whitespace.
pub fn is_view_command_text(text: &str) -> (r: bool)
    ensures
        r == is_view_text(text@),
{
    let chars = to_chars(text);
    let trimmed = trim_chars(&chars);
    let trimmed_text = from_chars(&trimmed, 0, trimmed.len());
    assert(trimmed@.subrange(0, trimmed@.len() as int) =~= trimmed@);
    same_text(trimmed_text.as_str(), "/view")
}

/// Whether `text` is the command that shows all orders, whatever its case
/// and the whitespace around it. A tap on a button under the reply to such a
/// message is answered with all the orders.
pub fn is_view_command(text: &str) -> (r: bool)
    ensures
        r == is_view_text(lowercase(text@)),
{
    let lowered = to_lowercase(text);
    is_view_command_text(lowered.as_str())
}

/// What a tap on a button means.
#[derive(Debug, Clone, Copy, PartialEq, Eq)]
pub enum TapDecision {
    /// The button shows what the user has selected: the tap withdraws it.
    Cancel,
    /// The tap selects what the button shows.
    Select,
}

/// What a tap on the button of `tapped` means for a user whose selection is
/// `current`.
pub open spec fn tap_decision(current: Option<Seq<char>>, tapped: Seq<char>) -> TapDecision {
    if current == Some(tapped) {
        TapDecision::Cancel
    } else {
        TapDecision::Select
    }
}

/// Decides what a tap on the button of `tapped` means for a user whose
/// selection is `current`.
pub fn decide_tap(current: Option<&str>, tapped: &str) -> (r: TapDecision)
    ensures
        r == tap_decision(
            match current {
                Some(item) => Some(item@),
                None => None,
            },
            tapped@,
        ),
{
    match current {
        Some(item) => if same_text(item, tapped) {
            TapDecision::Cancel
        } else {
            TapDecision::Select
        },
        None => TapDecision::Select,
    }
}

/// The payload of a button in its two parts: the name of the order before
/// the first space, the item behind it. A payload without a space has none.
pub open spec fn payload_parts(payload: Seq<char>) -> Option<(Seq<char>, Seq<char>)> {
    let at = first_index(payload, ' ');
    if at < payload.len() {
        Some((payload.take(at), payload.skip(at + 1)))
    } else {
        None
    }
}

/// What the dispatcher answers to a tap: the reply, and the short
/// acknowledgement for the user who tapped.
pub struct TapReply {
    pub result: CommandResultView,
    pub answer: Seq<char>,
}

/// The dispatcher as a mathematical value.
pub struct BotView {
    pub chats: Map<ChatId, ConversationView>,
}

impl BotView {
    /// Every registry is well formed and holds an order.
    pub open spec fn wf(self) -> bool {
        forall|chat: ChatId|
            #[trigger] self.chats.contains_key(chat) ==> {
                &&& self.chats[chat].wf()
                &&& self.chats[chat].orders.len() > 0
            }
    }

    /// The registry of `chat`; the empty one where no order is open in it.
    pub open spec fn registry(self, chat: ChatId) -> ConversationView {
        if self.chats.contains_key(chat) {
            self.chats[chat]
        } else {
            ConversationView { orders: Seq::empty() }
        }
    }

    /// The dispatcher with `registry` for `chat`; without an entry for `chat`
    /// where the registry is empty.
    pub open spec fn with_registry(self, chat: ChatId, registry: ConversationView) -> BotView {
        if registry.orders.len() == 0 {
            BotView { chats: self.chats.remove(chat) }
        } else {
            BotView { chats: self.chats.insert(chat, registry) }
        }
    }

    /// The dispatcher after `creater` has asked to start the order `name`.
    pub open spec fn started(self, chat: ChatId, creater: UserView, name: Seq<char>) -> BotView {
        self.with_registry(chat, self.registry(chat).started(creater, name))
    }

    /// The reply to the request to start the order `name`.
    pub open spec fn start_reply(self, chat: ChatId, name: Seq<char>) -> CommandResultView {
        if !self.chats.contains_key(chat) {
            succeeded(
                "Order started for "@ + name
                    + ".\nUse /order <item> to order, /view_orders to view active orders, /end_order when done, or start another order."@,
            )
        } else if self.chats[chat].has(name) {
            failed("There is already an order for "@ + name + " in progress."@)
        } else {
            succeeded(
                "Order started for "@ + name + ".\nUse /order "@ + name
                    + " <item> to order, /view_orders to view active orders and /end_order "@
                    + name + " when done."@,
            )
        }
    }

    /// The dispatcher after the user `id` has asked to end the order `name`.
    pub open spec fn ended(self, chat: ChatId, id: int, name: Seq<char>) -> BotView {
        if self.chats.contains_key(chat) {
            self.with_registry(chat, self.chats[chat].ended(id, name))
        } else {
            self
        }
    }

    /// The reply to the request of the user `id` to end the order `name`: on
    /// success, the last summary of the order.
    pub open spec fn end_reply(self, chat: ChatId, id: int, name: Seq<char>) -> CommandResultView {
        if !self.chats.contains_key(chat) {
            no_orders_in_progress()
        } else {
            match self.chats[chat].ending(id, name) {
                Ok(order) => succeeded(order.summary()),
                Err(message) => failed(message),
            }
        }
    }

    /// The dispatcher after `user` has selected `item` in the order `name`.
    pub open spec fn selected(self, chat: ChatId, user: UserView, name: Seq<char>, item: Seq<char>)
        -> BotView {
        if self.chats.contains_key(chat) {
            self.with_registry(chat, self.chats[chat].selected(name, user, item))
        } else {
            self
        }
    }

    /// The reply to the selection of `item` by `user` in the order `name`:
    /// on success, the summary and the buttons of the order as it then is.
    pub open spec fn select_reply(
        self,
        chat: ChatId,
        user: UserView,
        name: Seq<char>,
        item: Seq<char>,
    ) -> CommandResultView {
        if !self.chats.contains_key(chat) {
            no_orders_in_progress()
        } else if !self.chats[chat].has(name) {
            failed("Order "@ + name + " not found."@)
        } else {
            let order = self.chats[chat].order(name).with_selection(user, item);
            shown(
                order.summary()
                    + "\nUse /order <item> to update your order and /end_order when done.\nYou can also tap on an existing item to update or cancel your order."@,
                order.buttons(),
            )
        }
    }

    /// The dispatcher after the user `id` has withdrawn their selection from
    /// the order `name`.
    pub open spec fn withdrawn(self, chat: ChatId, id: int, name: Seq<char>) -> BotView {
        if self.chats.contains_key(chat) {
            self.with_registry(chat, self.chats[chat].withdrawn(name, id))
        } else {
            self
        }
    }

    /// The reply to the withdrawal of the selection of the user `id` from the
    /// order `name`: on success, the summary and the buttons of the order as
    /// it then is.
    pub open spec fn withdraw_reply(self, chat: ChatId, id: int, name: Seq<char>)
        -> CommandResultView {
        if !self.chats.contains_key(chat) {
            no_orders_in_progress()
        } else if !(self.chats[chat].has(name) && self.chats[chat].order(name).holds(id)) {
            failed(
                "You have either not placed any orders for "@ + name + ", or order "@ + name
                    + " does not exist."@,
            )
        } else {
            let order = self.chats[chat].order(name).without_user(id);
            shown(
                order.summary()
                    + "\nUse /order <item> to order, and /end_order when done.\nYou can also tap on an existing item to update or cancel your order."@,
                order.buttons(),
            )
        }
    }

    /// The reply to the request to see the orders of `chat`: the summary of
    /// the conversation and the buttons of all its orders.
    pub open spec fn view_reply(self, chat: ChatId) -> CommandResultView {
        if !self.chats.contains_key(chat) {
            no_orders_in_progress()
        } else {
            shown(
                self.chats[chat].summary()
                    + "\n\nUse /order <item> to order, /cancel to cancel your order and /end_order when done.\nYou can also tap on an existing item to update or cancel your order."@,
                self.chats[chat].buttons(),
            )
        }
    }

    /// The dispatcher after `sender` has given `command` in `chat`.
    pub open spec fn executed(self, chat: ChatId, sender: UserView, command: CommandView)
        -> BotView {
        match command {
            CommandView::StartOrder(name) => self.started(chat, sender, name),
            CommandView::EndOrder(name) => self.ended(chat, sender.id, name),
            CommandView::AddItem(name, item) => self.selected(chat, sender, name, item),
            CommandView::RemoveItem(name) => self.withdrawn(chat, sender.id, name),
            CommandView::ViewOrders => self,
            CommandView::Help => self,
        }
    }

    /// The reply to `command`, given by `sender` in `chat`.
    pub open spec fn reply(self, chat: ChatId, sender: UserView, command: CommandView)
        -> CommandResultView {
        match command {
            CommandView::StartOrder(name) => self.start_reply(chat, name),
            CommandView::EndOrder(name) => self.end_reply(chat, sender.id, name),
            CommandView::AddItem(name, item) => self.select_reply(chat, sender, name, item),
            CommandView::RemoveItem(name) => self.withdraw_reply(chat, sender.id, name),
            CommandView::ViewOrders => self.view_reply(chat),
            CommandView::Help => succeeded(help_text()),
        }
    }

    /// The dispatcher after `sender` has written `message` in `chat`: the
    /// message is read against the orders that are open in the chat, and a
    /// message that is no command changes nothing.
    pub open spec fn after_message(self, chat: ChatId, sender: UserView, message: Seq<char>)
        -> BotView {
        match parsed_message(message, self.registry(chat).names()) {
            Ok(command) => self.executed(chat, sender, command),
            Err(_) => self,
        }
    }

    /// The reply to `message`, written by `sender` in `chat`: that of the
    /// command it stands for, or why it stands for none.
    pub open spec fn message_reply(self, chat: ChatId, sender: UserView, message: Seq<char>)
        -> CommandResultView {
        match parsed_message(message, self.registry(chat).names()) {
            Ok(command) => self.reply(chat, sender, command),
            Err(refusal) => failed(refusal.message),
        }
    }

    /// What the user `id` has selected in the order `name` of `chat`, if the
    /// order is open and the user has selected something.
    pub open spec fn current_item(self, chat: ChatId, id: int, name: Seq<char>) -> Option<
        Seq<char>,
    > {
        if self.chats.contains_key(chat) && self.chats[chat].has(name) {
            self.chats[chat].order(name).item_of(id)
        } else {
            None
        }
    }

    /// What a tap of `user` on the button with `payload` means.
    pub open spec fn tap_meaning(self, chat: ChatId, user: UserView, payload: Seq<char>)
        -> TapDecision {
        match payload_parts(payload) {
            Some((name, item)) => tap_decision(self.current_item(chat, user.id, name), item),
            None => TapDecision::Select,
        }
    }

    /// The dispatcher after `user` has tapped the button with `payload`.
    pub open spec fn tapped(self, chat: ChatId, user: UserView, payload: Seq<char>) -> BotView {
        match payload_parts(payload) {
            Some((name, item)) => match self.tap_meaning(chat, user, payload) {
                TapDecision::Cancel => self.withdrawn(chat, user.id, name),
                TapDecision::Select => self.selected(chat, user, name, item),
            },
            None => self,
        }
    }

    /// The answer to a tap of `user` on the button with `payload`. Where the
    /// tap was carried out and the message that bears the button shows all
    /// the orders (`of_all`), the reply shows all the orders again.
    pub open spec fn tap_reply(self, chat: ChatId, user: UserView, payload: Seq<char>, of_all: bool)
        -> TapReply {
        match payload_parts(payload) {
            Some((name, item)) => {
                let meaning = self.tap_meaning(chat, user, payload);
                let result = match meaning {
                    TapDecision::Cancel => self.withdraw_reply(chat, user.id, name),
                    TapDecision::Select => self.select_reply(chat, user, name, item),
                };
                if result.success {
                    TapReply {
                        result: if of_all {
                            self.tapped(chat, user, payload).view_reply(chat)
                        } else {
                            result
                        },
                        answer: match meaning {
                            TapDecision::Cancel => "Cancelled order of "@ + item + " for "@ + name
                                + "."@,
                            TapDecision::Select => "Updated order for "@ + name + " to "@ + item
                                + "."@,
                        },
                    }
                } else {
                    TapReply { result, answer: result.response }
                }
            },
            None => TapReply {
                result: failed("Unrecognized callback query"@),
                answer: "Invalid order or item name"@,
            },
        }
    }
}

/// The registries in `m` as mathematical values.
spec fn registry_views(m: Map<ChatId, ConversationOrders>) -> Map<ChatId, ConversationView> {
    Map::new(|chat: ChatId| m.contains_key(chat), |chat: ChatId| m[chat]@)
}

/// The dispatcher of the food orders of all conversations.
pub struct Bot {
    active_orders: HashMap<ChatId, ConversationOrders>,
}

impl View for Bot {
    type V = BotView;

    closed spec fn view(&self) -> BotView {
        BotView { chats: registry_views(self.active_orders@) }
    }
}

/// Puts `registry` back under `chat`, unless it is empty.
fn put_back(
    chats: &mut HashMap<ChatId, ConversationOrders>,
    chat: ChatId,
    registry: ConversationOrders,
)
    requires
        !old(chats)@.contains_key(chat),
    ensures
        registry_views(final(chats)@) == (BotView {
            chats: registry_views(old(chats)@),
        }).with_registry(chat, registry@).chats,
{
    if !registry.is_empty() {
        chats.insert(chat, registry);
    }
}

/// Takes the registry of `chat` out of `chats`.
fn take_out(chats: &mut HashMap<ChatId, ConversationOrders>, chat: ChatId) -> (r: Option<
    ConversationOrders,
>)
    ensures
        !final(chats)@.contains_key(chat),
        match r {
            Some(registry) => old(chats)@.contains_key(chat) && registry == old(chats)@[chat]
                && registry_views(old(chats)@) == registry_views(final(chats)@).insert(
                chat,
                registry@,
            ),
            None => !old(chats)@.contains_key(chat) && final(chats)@ == old(chats)@,
        },
{
    chats.remove(&chat)
}

impl Default for Bot {
    fn default() -> (r: Bot)
        ensures
            r@.chats == Map::<ChatId, ConversationView>::empty(),
            r@.wf(),
    {
        Bot::new()
    }
}

impl Bot {
    #[verifier::type_invariant]
    spec fn inv(self) -> bool {
        self@.wf()
    }

    /// A dispatcher without conversations.
    pub fn new() -> (r: Bot)
        ensures
            r@.chats == Map::<ChatId, ConversationView>::empty(),
            r@.wf(),
    {
        Bot { active_orders: HashMap::new() }
    }

    /// Starts the order `order_name` in `chat` for `creater`, unless an order
    /// of that name is open there.
    pub fn start_order(&mut self, chat: ChatId, creater: User, order_name: String) -> (r:
        CommandResult)
        ensures
            r@ == old(self)@.start_reply(chat, order_name@),
            final(self)@ == old(self)@.started(chat, creater@, order_name@),
            final(self)@.wf(),
    {
        proof {
            use_type_invariant(&*self);
        }
        let ghost before = self@;
        let mut chats: HashMap<ChatId, ConversationOrders> = HashMap::new();
        std::mem::swap(&mut chats, &mut self.active_orders);
        let result = match take_out(&mut chats, chat) {
            Some(mut registry) => {
                let name = order_name.clone();
                if registry.add_order(creater, order_name) {
                    let mut text = "Order started for ".to_owned();
                    text.append(name.as_str());
                    text.append(".\nUse /order ");
                    text.append(name.as_str());
                    text.append(
                        " <item> to order, /view_orders to view active orders and /end_order ",
                    );
                    text.append(name.as_str());
                    text.append(" when done.");
                    put_back(&mut chats, chat, registry);
                    CommandResult::success(text)
                } else {
                    let mut text = "There is already an order for ".to_owned();
                    text.append(name.as_str());
                    text.append(" in progress.");
                    put_back(&mut chats, chat, registry);
                    CommandResult::failure(text)
                }
            },
            None => {
                let mut text = "Order started for ".to_owned();
                text.append(order_name.as_str());
                text.append(
                    ".\nUse /order <item> to order, /view_orders to view active orders, /end_order when done, or start another order.",
                );
                let mut registry = ConversationOrders::new();
                registry.add_order(creater, order_name);
                put_back(&mut chats, chat, registry);
                CommandResult::success(text)
            },
        };
        assert(registry_views(chats@) =~= before.started(chat, creater@, order_name@).chats);
        self.active_orders = chats;
        result
    }

    /// Ends the order `order_name` of `chat` for `user`, who must be the one
    /// who started it. Once its last order has ended, the conversation is
    /// forgotten.
    pub fn end_order(&mut self, chat: ChatId, user: &User, order_name: &str) -> (r: CommandResult)
        ensures
            r@ == old(self)@.end_reply(chat, user.id as int, order_name@),
            final(self)@ == old(self)@.ended(chat, user.id as int, order_name@),
            final(self)@.wf(),
    {
        proof {
            use_type_invariant(&*self);
        }
        let ghost before = self@;
        let mut chats: HashMap<ChatId, ConversationOrders> = HashMap::new();
        std::mem::swap(&mut chats, &mut self.active_orders);
        let result = match take_out(&mut chats, chat) {
            Some(mut registry) => {
                let outcome = registry.remove_order(user, order_name);
                put_back(&mut chats, chat, registry);
                match outcome {
                    Ok(completed_order) => CommandResult::success(completed_order.to_string()),
                    Err(message) => CommandResult::failure(message),
                }
            },
            None => CommandResult::no_orders_in_progress(),
        };
        assert(registry_views(chats@) =~= before.ended(chat, user.id as int, order_name@).chats);
        self.active_orders = chats;
        result
    }

    /// Selects `item` for `user` in the order `order_name` of `chat`, in
    /// place of what the user had selected there.
    pub fn add_item(&mut self, chat: ChatId, user: User, order_name: &str, item: String) -> (r:
        CommandResult)
        ensures
            r@ == old(self)@.select_reply(chat, user@, order_name@, item@),
            final(self)@ == old(self)@.selected(chat, user@, order_name@, item@),
            final(self)@.wf(),
    {
        proof {
            use_type_invariant(&*self);
        }
        let ghost before = self@;
        let mut chats: HashMap<ChatId, ConversationOrders> = HashMap::new();
        std::mem::swap(&mut chats, &mut self.active_orders);
        let result = match take_out(&mut chats, chat) {
            Some(mut registry) => {
                let updated = registry.add_item(order_name, user, item);
                put_back(&mut chats, chat, registry);
                match updated {
                    Some(updated_order) => {
                        let mut text = updated_order.to_string();
                        text.append(
                            "\nUse /order <item> to update your order and /end_order when done.\nYou can also tap on an existing item to update or cancel your order.",
                        );
                        CommandResult {
                            success: true,
                            response: text,
                            reply_markup: Some(updated_order.generate_reply_markup()),
                        }
                    },
                    None => {
                        let mut text = "Order ".to_owned();
                        text.append(order_name);
                        text.append(" not found.");
                        CommandResult::failure(text)
                    },
                }
            },
            None => CommandResult::no_orders_in_progress(),
        };
        assert(registry_views(chats@) =~= before.selected(chat, user@, order_name@, item@).chats);
        self.active_orders = chats;
        result
    }

    /// Withdraws the selection of `user` from the order `order_name` of
    /// `chat`.
    pub fn remove_item(&mut self, chat: ChatId, user: &User, order_name: &str) -> (r:
        CommandResult)
        ensures
            r@ == old(self)@.withdraw_reply(chat, user.id as int, order_name@),
            final(self)@ == old(self)@.withdrawn(chat, user.id as int, order_name@),
            final(self)@.wf(),
    {
        proof {
            use_type_invariant(&*self);
        }
        let ghost before = self@;
        let mut chats: HashMap<ChatId, ConversationOrders> = HashMap::new();
        std::mem::swap(&mut chats, &mut self.active_orders);
        let result = match take_out(&mut chats, chat) {
            Some(mut registry) => {
                let updated = registry.remove_item(order_name, user);
                put_back(&mut chats, chat, registry);
                match updated {
                    Some(updated_order) => {
                        let mut text = updated_order.to_string();
                        text.append(
                            "\nUse /order <item> to order, and /end_order when done.\nYou can also tap on an existing item to update or cancel your order.",
                        );
                        CommandResult {
                            success: true,
                            response: text,
                            reply_markup: Some(updated_order.generate_reply_markup()),
                        }
                    },
                    None => {
                        let mut text = "You have either not placed any orders for ".to_owned();
                        text.append(order_name);
                        text.append(", or order ");
                        text.append(order_name);
                        text.append(" does not exist.");
                        CommandResult::failure(text)
                    },
                }
            },
            None => CommandResult::no_orders_in_progress(),
        };
        assert(registry_views(chats@) =~= before.withdrawn(chat, user.id as int, order_name@).chats);
        self.active_orders = chats;
        result
    }

    /// Shows all the orders that are open in `chat`.
    pub fn view_orders(&mut self, chat: ChatId) -> (r: CommandResult)
        ensures
            r@ == old(self)@.view_reply(chat),
            final(self)@ == old(self)@,
            final(self)@.wf(),
    {
        proof {
            use_type_invariant(&*self);
        }
        match self.active_orders.get(&chat) {
            Some(registry) => {
                let mut text = registry.to_string();
                text.append(
                    "\n\nUse /order <item> to order, /cancel to cancel your order and /end_order when done.\nYou can also tap on an existing item to update or cancel your order.",
                );
                CommandResult {
                    success: true,
                    response: text,
                    reply_markup: Some(registry.generate_reply_markup()),
                }
            },
            None => CommandResult::no_orders_in_progress(),
        }
    }

    /// What `user` has selected in the order `order_name` of `chat`, if
    /// anything.
    pub fn current_item(&self, chat: ChatId, user: &User, order_name: &str) -> (r: Option<String>)
        ensures
            optional_text(r) == self@.current_item(
                chat,
                user.id as int,
                order_name@,
            ),
    {
        match self.active_orders.get(&chat) {
            Some(registry) => match registry.get(order_name) {
                Some(order) => order.find_user_item(user),
                None => None,
            },
            None => None,
        }
    }

    /// Handles a tap of `user` on a button whose payload, in its normal form,
    /// is `payload`.
    fn tap(
        &mut self,
        chat: ChatId,
        user: User,
        payload: &Vec<char>,
        is_message_output_of_view_orders: bool,
    ) -> (r: (CommandResult, String))
        ensures
            r.0@ == old(self)@.tap_reply(
                chat,
                user@,
                payload@,
                is_message_output_of_view_orders,
            ).result,
            r.1@ == old(self)@.tap_reply(
                chat,
                user@,
                payload@,
                is_message_output_of_view_orders,
            ).answer,
            final(self)@ == old(self)@.tapped(chat, user@, payload@),
            final(self)@.wf(),
    {
        proof {
            use_type_invariant(&*self);
        }
        let sep = find_first(payload, ' ');
        if sep >= payload.len() {
            return (
                CommandResult::failure("Unrecognized callback query".to_owned()),
                "Invalid order or item name".to_owned(),
            );
        }
        let order_name = from_chars(payload, 0, sep);
        let item = from_chars(payload, sep + 1, payload.len());
        let current = self.current_item(chat, &user, order_name.as_str());
        let decision = decide_tap(
            match &current {
                Some(held) => Some(held.as_str()),
                None => None,
            },
            item.as_str(),
        );
        let res = match decision {
            TapDecision::Cancel => self.remove_item(chat, &user, order_name.as_str()),
            TapDecision::Select => self.add_item(chat, user, order_name.as_str(), item.clone()),
        };
        if res.success {
            let answer = match decision {
                TapDecision::Cancel => {
                    let mut text = "Cancelled order of ".to_owned();
                    text.append(item.as_str());
                    text.append(" for ");
                    text.append(order_name.as_str());
                    text.append(".");
                    text
                },
                TapDecision::Select => {
                    let mut text = "Updated order for ".to_owned();
                    text.append(order_name.as_str());
                    text.append(" to ");
                    text.append(item.as_str());
                    text.append(".");
                    text
                },
            };
            if is_message_output_of_view_orders {
                (self.view_orders(chat), answer)
            } else {
                (res, answer)
            }
        } else {
            let answer = res.response.clone();
            (res, answer)
        }
    }

    /// Handles a tap of `user` on a button whose payload is `data`, given in
    /// lowercase. The payload is read in its normal form (see `normalized`):
    /// the name of an order, a space and an item. A tap on what the user has
    /// selected withdraws the selection; any other tap selects the item.
    /// Returns the reply and the short acknowledgement for the user. Where
    /// the tap was carried out and the message that bears the button shows
    /// all the orders, the reply shows all the orders again.
    pub fn handle_callback(
        &mut self,
        chat: ChatId,
        user: User,
        data: &str,
        is_message_output_of_view_orders: bool,
    ) -> (r: (CommandResult, String))
        ensures
            r.0@ == old(self)@.tap_reply(
                chat,
                user@,
                normalized(data@),
                is_message_output_of_view_orders,
            ).result,
            r.1@ == old(self)@.tap_reply(
                chat,
                user@,
                normalized(data@),
                is_message_output_of_view_orders,
            ).answer,
            final(self)@ == old(self)@.tapped(chat, user@, normalized(data@)),
            final(self)@.wf(),
    {
        let payload = normalize(data);
        self.tap(chat, user, &payload, is_message_output_of_view_orders)
    }

    /// Handles a tap of `user` on a button whose payload is `data`, read
    /// without regard to case, surrounding whitespace and mentions of the bot.
    pub fn handle_callback_query(
        &mut self,
        chat: ChatId,
        user: User,
        data: &str,
        is_message_output_of_view_orders: bool,
    ) -> (r: (CommandResult, String))
        ensures
            r.0@ == old(self)@.tap_reply(
                chat,
                user@,
                normalized(lowercase(data@)),
                is_message_output_of_view_orders,
            ).result,
            r.1@ == old(self)@.tap_reply(
                chat,
                user@,
                normalized(lowercase(data@)),
                is_message_output_of_view_orders,
            ).answer,
            final(self)@ == old(self)@.tapped(chat, user@, normalized(lowercase(data@))),
            final(self)@.wf(),
    {
        let lowered = to_lowercase(data);
        self.handle_callback(chat, user, lowered.as_str(), is_message_output_of_view_orders)
    }

    /// Carries out `command`, given by `sender` in `chat`, and replies.
    pub fn execute(&mut self, chat: ChatId, sender: User, command: Command) -> (r: CommandResult)
        ensures
            r@ == old(self)@.reply(chat, sender@, command@),
            final(self)@ == old(self)@.executed(chat, sender@, command@),
            final(self)@.wf(),
    {
        match command {
            Command::StartOrder(name) => self.start_order(chat, sender, name),
            Command::EndOrder(name) => self.end_order(chat, &sender, name.as_str()),
            Command::AddItem(name, item) => self.add_item(chat, sender, name.as_str(), item),
            Command::RemoveItem(name) => self.remove_item(chat, &sender, name.as_str()),
            Command::ViewOrders => self.view_orders(chat),
            Command::Help => {
                proof {
                    use_type_invariant(&*self);
                }
                CommandResult::success(
                    "/start <order name> - starts an order. For example, /start waffles.\n    /view - shows active orders.\n\n    The following commands will ask for the order name, if there are multiple active orders.\n\n    /order [order name] <item> - adds an item to an order, or replaces the previously chosen one.\n    /cancel [order-name] - removes your previously selected item from an order.\n    /end [order-name] - stops an order.\n\n    For feature requests, bug reports and source: https://github.com/Neurrone/food-ordering-bot".to_owned(),
                )
            },
        }
    }

    /// Reads `message`, written by `sender` in `chat`, against the orders that
    /// are open in the chat, carries the command out and replies. A message
    /// that is no command is answered with the reason and changes nothing.
    pub fn handle_message(&mut self, chat: ChatId, sender: User, message: &str) -> (r:
        CommandResult)
        ensures
            r@ == old(self)@.message_reply(chat, sender@, message@),
            final(self)@ == old(self)@.after_message(chat, sender@, message@),
            final(self)@.wf(),
    {
        let parsed = {
            let names = self.get_active_order_names(chat);
            parse_command(message, names.as_slice())
        };
        match parsed {
            Ok(command) => self.execute(chat, sender, command),
            Err(refusal) => {
                proof {
                    use_type_invariant(&*self);
                }
                CommandResult::failure(refusal)
            },
        }
    }

    /// The names of the orders that are open in `chat`, in the order in which
    /// they were started.
    pub fn get_active_order_names(&self, chat: ChatId) -> (r: Vec<&str>)
        ensures
            texts(r@) == self@.registry(chat).names(),
    {
        match self.active_orders.get(&chat) {
            Some(registry) => registry.order_names(),
            None => {
                let names: Vec<&str> = Vec::new();
                names
            },
        }
    }

    /// Whether an order is open in any conversation.
    pub fn has_active_orders(&self) -> (r: bool)
        ensures
            r == exists|chat: ChatId| self@.chats.contains_key(chat),
    {
        let empty = self.active_orders.is_empty();
        proof {
            let m = self.active_orders@;
            if empty {
                assert forall|chat: ChatId| !self@.chats.contains_key(chat) by {
                    if m.contains_key(chat) {
                        vstd::set_lib::lemma_set_empty_equivalency_len(m.dom());
                    }
                }
            } else {
                vstd::set_lib::lemma_set_empty_equivalency_len(m.dom());
                let chat = choose|chat: ChatId| m.dom().contains(chat);
                assert(self@.chats.contains_key(chat));
            }
        }
        !empty
    }
}

/// The payload of a button leads back to the button: where the name of the
/// order holds no space, the name, a space and the item part again into the
/// name and the item.
pub proof fn lemma_payload_parts(name: Seq<char>, item: Seq<char>)
    requires
        !name.contains(' '),
    ensures
        payload_parts(name + " "@ + item) == Some((name, item)),
{
    reveal_strlit(" ");
    lemma_first_index(name + " "@ + item, ' ', name.len() as int);
}

/// A command that is refused changes nothing.
pub proof fn lemma_refused_command(bot: BotView, chat: ChatId, sender: UserView, command: CommandView)
    requires
        bot.wf(),
        !bot.reply(chat, sender, command).success,
    ensures
        bot.executed(chat, sender, command) == bot,
{
    if bot.chats.contains_key(chat) {
        let registry = bot.chats[chat];
        match command {
            CommandView::RemoveItem(name) => {
                // the user has no selection to withdraw, so the order stays
                // as it is
                if registry.has(name) {
                    assert(registry.orders.update(
                        registry.position(name),
                        registry.order(name).without_user(sender.id),
                    ) =~= registry.orders);
                }
            },
            _ => {},
        }
    }
    assert(bot.executed(chat, sender, command).chats =~= bot.chats);
}

/// A tap that is refused changes nothing.
pub proof fn lemma_refused_tap(
    bot: BotView,
    chat: ChatId,
    user: UserView,
    payload: Seq<char>,
    of_all: bool,
)
    requires
        bot.wf(),
        !bot.tap_reply(chat, user, payload, of_all).result.success,
    ensures
        bot.tapped(chat, user, payload) == bot,
{
    match payload_parts(payload) {
        Some((name, item)) => {
            // what the user holds can always be withdrawn, so the tap was
            // to select
            lemma_refused_command(bot, chat, user, CommandView::AddItem(name, item));
        },
        None => {},
    }
}

} // verus!

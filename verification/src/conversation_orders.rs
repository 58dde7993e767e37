//! The orders that are open in one conversation.
//!
//! The registry is modelled by the sequence of its orders, in the order in
//! which they were started. No two of them bear the same name.
use vstd::prelude::*;
use crate::keyboard::{button_views, rows_of_two, Button, ButtonView, InlineKeyboard};
use crate::order::{Order, OrderView};
use crate::text::{as_slices, decimal, decimal_string, join, joined, same_text, texts, views};
use crate::user::{User, UserView};

verus! {

/// The buttons of all the orders, order by order.
pub open spec fn all_buttons(orders: Seq<OrderView>) -> Seq<ButtonView>
    decreases orders.len(),
{
    if orders.len() == 0 {
        Seq::empty()
    } else {
        all_buttons(orders.drop_last()) + orders.last().buttons()
    }
}

/// The registry of a conversation as a mathematical value.
pub struct ConversationView {
    pub orders: Seq<OrderView>,
}

impl ConversationView {
    /// Every order is well formed, and no two orders bear the same name.
    pub open spec fn wf(self) -> bool {
        &&& forall|i: int| 0 <= i < self.orders.len() ==> (#[trigger] self.orders[i]).wf()
        &&& forall|i: int, j: int|
            0 <= i < j < self.orders.len() ==> self.orders[i].name != self.orders[j].name
    }

    /// Whether an order of this name is open.
    pub open spec fn has(self, name: Seq<char>) -> bool {
        exists|i: int| 0 <= i < self.orders.len() && self.orders[i].name == name
    }

    /// Where the order of this name stands, if it is open.
    pub open spec fn position(self, name: Seq<char>) -> int {
        choose|i: int| 0 <= i < self.orders.len() && self.orders[i].name == name
    }

    /// The order of this name, if it is open.
    pub open spec fn order(self, name: Seq<char>) -> OrderView {
        self.orders[self.position(name)]
    }

    /// The names of the open orders, in the order in which they were started.
    pub open spec fn names(self) -> Seq<Seq<char>> {
        Seq::new(self.orders.len(), |i: int| self.orders[i].name)
    }

    /// The registry after `owner` has started an order under `name`: the new
    /// order comes last and has no selections. Where the name is taken,
    /// nothing changes.
    pub open spec fn started(self, owner: UserView, name: Seq<char>) -> ConversationView {
        if self.has(name) {
            self
        } else {
            ConversationView {
                orders: self.orders.push(OrderView { name, owner, selections: Seq::empty() }),
            }
        }
    }

    /// What becomes of the request of the user `id` to end the order `name`:
    /// the order, where it is open and the user owns it; else the refusal.
    pub open spec fn ending(self, id: int, name: Seq<char>) -> Result<OrderView, Seq<char>> {
        if !self.has(name) {
            Err("Order "@ + name + " not found."@)
        } else if self.order(name).owner.id != id {
            Err(
                "Only "@ + self.order(name).owner.first_name + " may end their order for "@ + name
                    + "."@,
            )
        } else {
            Ok(self.order(name))
        }
    }

    /// The registry after the user `id` has asked to end the order `name`.
    pub open spec fn ended(self, id: int, name: Seq<char>) -> ConversationView {
        if self.ending(id, name) is Ok {
            ConversationView { orders: self.orders.remove(self.position(name)) }
        } else {
            self
        }
    }

    /// The registry with `order` in the place of the order `name`.
    pub open spec fn replaced(self, name: Seq<char>, order: OrderView) -> ConversationView {
        ConversationView { orders: self.orders.update(self.position(name), order) }
    }

    /// The registry after `user` has selected `item` in the order `name`.
    pub open spec fn selected(self, name: Seq<char>, user: UserView, item: Seq<char>)
        -> ConversationView {
        if self.has(name) {
            self.replaced(name, self.order(name).with_selection(user, item))
        } else {
            self
        }
    }

    /// The registry after the user `id` has withdrawn their selection from
    /// the order `name`.
    pub open spec fn withdrawn(self, name: Seq<char>, id: int) -> ConversationView {
        if self.has(name) {
            self.replaced(name, self.order(name).without_user(id))
        } else {
            self
        }
    }

    /// The summaries of the orders.
    pub open spec fn summaries(self) -> Seq<Seq<char>> {
        Seq::new(self.orders.len(), |i: int| self.orders[i].summary())
    }

    /// The summary of the conversation: the summaries of its orders, an empty
    /// line between each two, under a line that counts them where there is
    /// more than one.
    pub open spec fn summary(self) -> Seq<char> {
        if self.orders.len() == 0 {
            "There are no active orders."@
        } else if self.orders.len() > 1 {
            "There are "@ + decimal(self.orders.len()) + " orders.\n"@ + joined(
                self.summaries(),
                "\n\n"@,
            )
        } else {
            joined(self.summaries(), "\n\n"@)
        }
    }

    /// The buttons of the conversation: those of all its orders.
    pub open spec fn buttons(self) -> Seq<ButtonView> {
        all_buttons(self.orders)
    }
}

/// The orders in `v` as mathematical values.
spec fn order_views(v: Seq<Order>) -> Seq<OrderView> {
    Seq::new(v.len(), |i: int| v[i]@)
}

/// The orders that are open in a conversation.
#[derive(Debug, PartialEq, Eq)]
pub struct ConversationOrders {
    orders: Vec<Order>,
}

impl View for ConversationOrders {
    type V = ConversationView;

    closed spec fn view(&self) -> ConversationView {
        ConversationView { orders: order_views(self.orders@) }
    }
}

/// Whether `r` is the order `v`, or the same refusal as `v`.
pub open spec fn is_ending(r: Result<Order, String>, v: Result<OrderView, Seq<char>>) -> bool {
    match (r, v) {
        (Ok(order), Ok(view)) => order@ == view,
        (Err(message), Err(text)) => message@ == text,
        _ => false,
    }
}

/// Whether `r` is the order `expected`, where `present` holds, and nothing
/// where it does not.
pub open spec fn is_snapshot(r: Option<Order>, present: bool, expected: OrderView) -> bool {
    match r {
        Some(order) => present && order@ == expected,
        None => !present,
    }
}

/// Where in `orders` the order `name` stands.
fn position_of(orders: &Vec<Order>, name: &str) -> (r: Option<usize>)
    ensures
        match r {
            Some(i) => i < orders@.len() && orders@[i as int]@.name == name@,
            None => forall|j: int| 0 <= j < orders@.len() ==> orders@[j]@.name != name@,
        },
{
    let mut i: usize = 0;
    while i < orders.len()
        invariant
            i <= orders@.len(),
            forall|j: int| 0 <= j < i ==> orders@[j]@.name != name@,
        decreases orders@.len() - i,
    {
        if same_text(orders[i].name(), name) {
            return Some(i);
        }
        i += 1;
    }
    None
}

impl ConversationOrders {
    #[verifier::type_invariant]
    spec fn inv(self) -> bool {
        self@.wf()
    }

    /// The registry of a conversation in which no order is open.
    pub fn new() -> (r: ConversationOrders)
        ensures
            r@.orders == Seq::<OrderView>::empty(),
            r@.wf(),
    {
        let r = ConversationOrders { orders: Vec::new() };
        r
    }

    /// The number of open orders.
    pub fn len(&self) -> (r: usize)
        ensures
            r == self@.orders.len(),
    {
        self.orders.len()
    }

    /// Whether no order is open.
    pub fn is_empty(&self) -> (r: bool)
        ensures
            r == (self@.orders.len() == 0),
    {
        self.orders.len() == 0
    }

    /// The open order of this name, if there is one.
    pub fn get(&self, order_name: &str) -> (r: Option<&Order>)
        ensures
            match r {
                Some(order) => self@.has(order_name@) && order@ == self@.order(order_name@),
                None => !self@.has(order_name@),
            },
    {
        proof {
            use_type_invariant(self);
        }
        match position_of(&self.orders, order_name) {
            Some(i) => {
                assert(self@.orders[i as int].name == order_name@);
                Some(&self.orders[i])
            },
            None => None,
        }
    }

    /// The names of the open orders, in the order in which they were started.
    pub fn order_names(&self) -> (r: Vec<&str>)
        ensures
            texts(r@) == self@.names(),
    {
        let mut names: Vec<&str> = Vec::new();
        let mut i: usize = 0;
        while i < self.orders.len()
            invariant
                i <= self.orders@.len(),
                names@.len() == i,
                forall|j: int| 0 <= j < i ==> names@[j]@ == self@.orders[j].name,
            decreases self.orders@.len() - i,
        {
            names.push(self.orders[i].name());
            i += 1;
        }
        names
    }

    /// Starts an order under `order_name` for `creater`, unless an order of
    /// that name is open. Returns whether the order was started.
    pub fn add_order(&mut self, creater: User, order_name: String) -> (added: bool)
        ensures
            added == !old(self)@.has(order_name@),
            final(self)@ == old(self)@.started(creater@, order_name@),
            final(self)@.wf(),
    {
        proof {
            use_type_invariant(&*self);
        }
        let ghost before = self@;
        match position_of(&self.orders, order_name.as_str()) {
            Some(i) => {
                assert(before.orders[i as int].name == order_name@);
                false
            },
            None => {
                let mut orders: Vec<Order> = Vec::new();
                std::mem::swap(&mut orders, &mut self.orders);
                let order = Order::new(order_name, creater);
                assert(order_views(orders@.push(order)) =~= before.orders.push(order@));
                orders.push(order);
                self.orders = orders;
                true
            },
        }
    }

    /// Ends the order `order_name` for `user` and hands it out. Only the user
    /// who started an order may end it: anyone else is told who that is, and
    /// the order stays open.
    pub fn remove_order(&mut self, user: &User, order_name: &str) -> (r: Result<Order, String>)
        ensures
            is_ending(r, old(self)@.ending(user.id as int, order_name@)),
            final(self)@ == old(self)@.ended(user.id as int, order_name@),
            final(self)@.wf(),
    {
        proof {
            use_type_invariant(&*self);
        }
        let ghost before = self@;
        match position_of(&self.orders, order_name) {
            Some(i) => {
                assert(before.orders[i as int].name == order_name@);
                if self.orders[i].owner().id == user.id {
                    let mut orders: Vec<Order> = Vec::new();
                    std::mem::swap(&mut orders, &mut self.orders);
                    let order = orders.remove(i);
                    assert(order_views(orders@) =~= before.orders.remove(i as int));
                    self.orders = orders;
                    Ok(order)
                } else {
                    let mut message = "Only ".to_owned();
                    message.append(self.orders[i].owner().first_name.as_str());
                    message.append(" may end their order for ");
                    message.append(order_name);
                    message.append(".");
                    Err(message)
                }
            },
            None => {
                let mut message = "Order ".to_owned();
                message.append(order_name);
                message.append(" not found.");
                Err(message)
            },
        }
    }

    /// Selects `item` for `user` in the order `order_name`, in place of what
    /// the user had selected there. Returns a copy of the order as it then
    /// is, or nothing where no order of that name is open.
    pub fn add_item(&mut self, order_name: &str, user: User, item: String) -> (r: Option<Order>)
        ensures
            final(self)@ == old(self)@.selected(order_name@, user@, item@),
            is_snapshot(
                r,
                old(self)@.has(order_name@),
                old(self)@.order(order_name@).with_selection(user@, item@),
            ),
            final(self)@.wf(),
    {
        proof {
            use_type_invariant(&*self);
        }
        let ghost before = self@;
        match position_of(&self.orders, order_name) {
            Some(i) => {
                assert(before.orders[i as int].name == order_name@);
                let mut orders: Vec<Order> = Vec::new();
                std::mem::swap(&mut orders, &mut self.orders);
                let mut order = orders.remove(i);
                order.add_item(user, item);
                let snapshot = order.clone();
                assert(order_views(orders@.insert(i as int, order)) =~= before.orders.update(
                    i as int,
                    order@,
                ));
                orders.insert(i, order);
                self.orders = orders;
                Some(snapshot)
            },
            None => None,
        }
    }

    /// Withdraws the selection of `user` from the order `order_name`. Returns
    /// a copy of the order as it then is, or nothing where no order of that
    /// name is open or the user had selected nothing in it.
    pub fn remove_item(&mut self, order_name: &str, user: &User) -> (r: Option<Order>)
        ensures
            final(self)@ == old(self)@.withdrawn(order_name@, user.id as int),
            is_snapshot(
                r,
                old(self)@.has(order_name@) && old(self)@.order(order_name@).holds(user.id as int),
                old(self)@.order(order_name@).without_user(user.id as int),
            ),
            final(self)@.wf(),
    {
        proof {
            use_type_invariant(&*self);
        }
        let ghost before = self@;
        match position_of(&self.orders, order_name) {
            Some(i) => {
                assert(before.orders[i as int].name == order_name@);
                let mut orders: Vec<Order> = Vec::new();
                std::mem::swap(&mut orders, &mut self.orders);
                let mut order = orders.remove(i);
                let removed = order.remove_item(user);
                let snapshot = order.clone();
                assert(order_views(orders@.insert(i as int, order)) =~= before.orders.update(
                    i as int,
                    order@,
                ));
                orders.insert(i, order);
                self.orders = orders;
                match removed {
                    Some(_) => Some(snapshot),
                    None => None,
                }
            },
            None => None,
        }
    }

    /// The buttons of all the open orders, order by order.
    pub fn generate_inline_buttons(&self) -> (r: Vec<Button>)
        ensures
            button_views(r@) == self@.buttons(),
    {
        let ghost all = self@.orders;
        let mut buttons: Vec<Button> = Vec::new();
        let mut i: usize = 0;
        while i < self.orders.len()
            invariant
                all == self@.orders,
                i <= all.len(),
                button_views(buttons@) == all_buttons(all.take(i as int)),
            decreases all.len() - i,
        {
            assert(all.take(i + 1).drop_last() =~= all.take(i as int));
            let mut more = self.orders[i].generate_inline_buttons();
            buttons.append(&mut more);
            i += 1;
        }
        assert(all.take(all.len() as int) =~= all);
        buttons
    }

    /// The buttons of all the open orders, two to a row.
    pub fn generate_reply_markup(&self) -> (r: InlineKeyboard)
        ensures
            r@ == rows_of_two(self@.buttons()),
    {
        let buttons = self.generate_inline_buttons();
        InlineKeyboard::in_rows_of_two(&buttons)
    }

    /// The summary of the conversation, as it is shown in the chat.
    pub fn to_string(&self) -> (r: String)
        ensures
            r@ == self@.summary(),
    {
        if self.orders.len() == 0 {
            return "There are no active orders.".to_owned();
        }
        let mut summaries: Vec<String> = Vec::new();
        let mut i: usize = 0;
        while i < self.orders.len()
            invariant
                i <= self.orders@.len(),
                summaries@.len() == i,
                forall|j: int| 0 <= j < i ==> summaries@[j]@ == self@.summaries()[j],
            decreases self.orders@.len() - i,
        {
            summaries.push(self.orders[i].to_string());
            i += 1;
        }
        assert(views(summaries@) =~= self@.summaries());
        let slices = as_slices(&summaries);
        let body = join(slices.as_slice(), "\n\n");
        if summaries.len() > 1 {
            let mut text = "There are ".to_owned();
            text.append(decimal_string(summaries.len()).as_str());
            text.append(" orders.\n");
            text.append(body.as_str());
            text
        } else {
            body
        }
    }
}

/// In a well-formed registry an order stands where its name stands.
pub proof fn lemma_position(registry: ConversationView, i: int)
    requires
        registry.wf(),
        0 <= i < registry.orders.len(),
    ensures
        registry.has(registry.orders[i].name),
        registry.position(registry.orders[i].name) == i,
        registry.order(registry.orders[i].name) == registry.orders[i],
{
}

/// Names are unique: starting an order under a name that is taken changes
/// nothing. Under a free name it adds one order, which is empty and belongs
/// to the one who started it, and leaves the other orders as they are.
pub proof fn lemma_unique_names(registry: ConversationView, owner: UserView, name: Seq<char>)
    requires
        registry.wf(),
    ensures
        registry.started(owner, name).wf(),
        registry.started(owner, name).has(name),
        registry.has(name) ==> registry.started(owner, name) == registry,
        !registry.has(name) ==> {
            &&& registry.started(owner, name).orders.len() == registry.orders.len() + 1
            &&& registry.started(owner, name).order(name) == (OrderView {
                name,
                owner,
                selections: Seq::empty(),
            })
            &&& forall|other: Seq<char>|
                registry.has(other) ==> registry.started(owner, name).has(other)
                    && registry.started(owner, name).order(other) == registry.order(other)
        },
{
    let after = registry.started(owner, name);
    if !registry.has(name) {
        // the new order comes last, behind the others
        assert(after.wf());
        lemma_position(after, registry.orders.len() as int);
        assert forall|other: Seq<char>| registry.has(other) implies after.has(other)
            && after.order(other) == registry.order(other) by {
            lemma_position(after, registry.position(other));
        }
    }
}

/// Only the owner ends an order. Anyone else is refused with a message that
/// names the owner, and nothing changes. The owner gets the order, which is
/// then no longer open, while the others still are.
pub proof fn lemma_owner_exclusivity(registry: ConversationView, id: int, name: Seq<char>)
    requires
        registry.wf(),
        registry.has(name),
    ensures
        registry.ended(id, name).wf(),
        registry.order(name).owner.id != id ==> {
            &&& registry.ending(id, name) == Err::<OrderView, Seq<char>>(
                "Only "@ + registry.order(name).owner.first_name + " may end their order for "@
                    + name + "."@,
            )
            &&& registry.ended(id, name) == registry
        },
        registry.order(name).owner.id == id ==> {
            &&& registry.ending(id, name) == Ok::<OrderView, Seq<char>>(registry.order(name))
            &&& !registry.ended(id, name).has(name)
            &&& registry.ended(id, name).orders.len() == registry.orders.len() - 1
            &&& forall|other: Seq<char>|
                other != name && registry.has(other) ==> registry.ended(id, name).has(other)
                    && registry.ended(id, name).order(other) == registry.order(other)
        },
{
    let after = registry.ended(id, name);
    if registry.order(name).owner.id == id {
        // the other orders keep their order: those behind the one that has
        // ended move up by one
        let p = registry.position(name);
        assert(after.wf());
        assert(!after.has(name));
        assert forall|other: Seq<char>| other != name && registry.has(other) implies after.has(
            other,
        ) && after.order(other) == registry.order(other) by {
            let q = registry.position(other);
            lemma_position(after, if q < p { q } else { q - 1 });
        }
    }
}

} // verus!

//! One order: its name, its owner, and what each participant has selected.
//!
//! An order is modelled by the sequence of its selections, one for each
//! participant who has selected something, in the order in which they were
//! made. An item exists in an order exactly as long as somebody has selected
//! it, so an item that loses its last participant is gone.
use vstd::prelude::*;
use crate::keyboard::{button_views, rows_of_two, Button, ButtonView, InlineKeyboard};
use crate::sorted::{
    insert_sorted, inserted, lemma_inserted_contains, lemma_inserted_sorted,
    lemma_inserted_strictly_sorted, sorted, strictly_sorted,
};
use crate::text::{as_slices, decimal, decimal_string, join, joined, same_text, views};
use crate::user::{User, UserView};

verus! {

/// What one participant has selected.
#[derive(Debug, PartialEq, Eq)]
struct Selection {
    user: User,
    item: String,
}

/// A selection as a mathematical value.
pub struct SelectionView {
    pub user: UserView,
    pub item: Seq<char>,
}

impl View for Selection {
    type V = SelectionView;

    closed spec fn view(&self) -> SelectionView {
        SelectionView { user: self.user@, item: self.item@ }
    }
}

spec fn selection_views(v: Seq<Selection>) -> Seq<SelectionView> {
    Seq::new(v.len(), |i: int| v[i]@)
}

/// The text of an optional string.
pub open spec fn optional_text(s: Option<String>) -> Option<Seq<char>> {
    match s {
        Some(t) => Some(t@),
        None => None,
    }
}

/// The names of the items that somebody has selected, each once, in
/// lexicographic order.
pub open spec fn item_names(selections: Seq<SelectionView>) -> Seq<Seq<char>>
    decreases selections.len(),
{
    if selections.len() == 0 {
        Seq::empty()
    } else {
        let before = item_names(selections.drop_last());
        let item = selections.last().item;
        if before.contains(item) {
            before
        } else {
            inserted(before, item)
        }
    }
}

/// The display names of the participants who have selected `item`, in
/// lexicographic order; a name stands once for each participant who bears it.
pub open spec fn user_names(selections: Seq<SelectionView>, item: Seq<char>) -> Seq<Seq<char>>
    decreases selections.len(),
{
    if selections.len() == 0 {
        Seq::empty()
    } else {
        let before = user_names(selections.drop_last(), item);
        if selections.last().item == item {
            inserted(before, selections.last().user.first_name)
        } else {
            before
        }
    }
}

/// The line of the summary for one item: how many have selected it, its
/// name, and who they are.
pub open spec fn item_line(selections: Seq<SelectionView>, item: Seq<char>) -> Seq<char> {
    decimal(user_names(selections, item).len()) + " "@ + item + ": "@ + joined(
        user_names(selections, item),
        ", "@,
    )
}

/// The lines of the summary, one for each item, by item name.
pub open spec fn item_lines(selections: Seq<SelectionView>) -> Seq<Seq<char>> {
    Seq::new(
        item_names(selections).len(),
        |k: int| item_line(selections, item_names(selections)[k]),
    )
}

/// An order as a mathematical value.
pub struct OrderView {
    pub name: Seq<char>,
    pub owner: UserView,
    pub selections: Seq<SelectionView>,
}

impl OrderView {
    /// No participant has more than one selection.
    pub open spec fn wf(self) -> bool {
        forall|i: int, j: int|
            0 <= i < j < self.selections.len() ==> self.selections[i].user.id
                != self.selections[j].user.id
    }

    /// Whether the user `id` has a selection.
    pub open spec fn holds(self, id: int) -> bool {
        exists|i: int| 0 <= i < self.selections.len() && self.selections[i].user.id == id
    }

    /// Where the selection of the user `id` stands, if the user has one.
    pub open spec fn position(self, id: int) -> int {
        choose|i: int| 0 <= i < self.selections.len() && self.selections[i].user.id == id
    }

    /// The item that the user `id` has selected, if any.
    pub open spec fn item_of(self, id: int) -> Option<Seq<char>> {
        if self.holds(id) {
            Some(self.selections[self.position(id)].item)
        } else {
            None
        }
    }

    /// The users who have selected `item`.
    pub open spec fn users_of(self, item: Seq<char>) -> Set<int> {
        Set::new(|id: int| self.item_of(id) == Some(item))
    }

    /// The items of the order: those that somebody has selected.
    pub open spec fn items(self) -> Set<Seq<char>> {
        Set::new(
            |item: Seq<char>|
                exists|i: int|
                    0 <= i < self.selections.len() && self.selections[i].item == item,
        )
    }

    /// The order after the user `id` has withdrawn their selection.
    pub open spec fn without_user(self, id: int) -> OrderView {
        if self.holds(id) {
            OrderView { selections: self.selections.remove(self.position(id)), ..self }
        } else {
            self
        }
    }

    /// The order after `user` has selected `item`: the selection takes the
    /// place of the one that the user had before, if any.
    pub open spec fn with_selection(self, user: UserView, item: Seq<char>) -> OrderView {
        OrderView {
            selections: self.without_user(user.id).selections.push(SelectionView { user, item }),
            ..self
        }
    }

    /// The buttons of the order: one for each item, by item name. A tap sends
    /// back the name of the order, a space and the name of the item.
    pub open spec fn buttons(self) -> Seq<ButtonView> {
        Seq::new(
            item_names(self.selections).len(),
            |k: int|
                ButtonView {
                    text: item_names(self.selections)[k],
                    callback_data: self.name + " "@ + item_names(self.selections)[k],
                },
        )
    }

    /// The summary of the order, as it is shown in the chat.
    pub open spec fn summary(self) -> Seq<char> {
        if self.selections.len() == 0 {
            "Orders for "@ + self.name + ":\n\nNone"@
        } else {
            decimal(self.selections.len()) + " orders for "@ + self.name + ":\n\n"@ + joined(
                item_lines(self.selections),
                "\n"@,
            )
        }
    }
}

/// An order that is open in a conversation.
#[derive(Debug, PartialEq, Eq)]
pub struct Order {
    name: String,
    owner: User,
    selections: Vec<Selection>,
}

impl View for Order {
    type V = OrderView;

    closed spec fn view(&self) -> OrderView {
        OrderView {
            name: self.name@,
            owner: self.owner@,
            selections: selection_views(self.selections@),
        }
    }
}

/// Where in `selections` the selection of the user `id` stands.
fn position_of(selections: &Vec<Selection>, id: i64) -> (r: Option<usize>)
    ensures
        match r {
            Some(i) => i < selections@.len() && selections@[i as int].user.id == id,
            None => forall|j: int| 0 <= j < selections@.len() ==> selections@[j].user.id != id,
        },
{
    let mut i: usize = 0;
    while i < selections.len()
        invariant
            i <= selections@.len(),
            forall|j: int| 0 <= j < i ==> selections@[j].user.id != id,
        decreases selections@.len() - i,
    {
        if selections[i].user.id == id {
            return Some(i);
        }
        i += 1;
    }
    None
}

/// Whether one of `names` holds the text of `name`.
fn holds_text(names: &Vec<String>, name: &str) -> (r: bool)
    ensures
        r == views(names@).contains(name@),
{
    let mut i: usize = 0;
    while i < names.len()
        invariant
            i <= names@.len(),
            forall|j: int| 0 <= j < i ==> views(names@)[j] != name@,
        decreases names@.len() - i,
    {
        if same_text(names[i].as_str(), name) {
            assert(views(names@)[i as int] == name@);
            return true;
        }
        i += 1;
    }
    false
}

impl Order {
    #[verifier::type_invariant]
    spec fn inv(self) -> bool {
        self@.wf()
    }

    /// A new order without selections.
    pub fn new(name: String, owner: User) -> (r: Order)
        ensures
            r@ == (OrderView { name: name@, owner: owner@, selections: Seq::empty() }),
            r@.wf(),
    {
        let r = Order { name, owner, selections: Vec::new() };
        assert(r@.selections =~= Seq::empty());
        r
    }

    /// The name of the order.
    pub fn name(&self) -> (r: &str)
        ensures
            r@ == self@.name,
    {
        self.name.as_str()
    }

    /// The user who started the order.
    pub fn owner(&self) -> (r: &User)
        ensures
            r@ == self@.owner,
    {
        &self.owner
    }

    /// The number of participants who have selected something.
    pub fn selection_count(&self) -> (r: usize)
        ensures
            r == self@.selections.len(),
    {
        self.selections.len()
    }

    /// Selects `item` for `user`, in place of what the user had selected
    /// before. Returns whether there was such an earlier selection.
    pub fn add_item(&mut self, user: User, item: String) -> (overrode: bool)
        ensures
            overrode == old(self)@.holds(user.id as int),
            final(self)@ == old(self)@.with_selection(user@, item@),
            final(self)@.wf(),
    {
        proof {
            use_type_invariant(&*self);
        }
        let ghost before = self@;
        let mut selections: Vec<Selection> = Vec::new();
        std::mem::swap(&mut selections, &mut self.selections);
        let found = position_of(&selections, user.id);
        match found {
            Some(i) => {
                assert(before.selections[i as int].user.id == user.id);
                selections.remove(i);
            },
            None => {},
        }
        let ghost middle = selection_views(selections@);
        assert(middle == before.without_user(user.id as int).selections);
        let selection = Selection { user, item };
        assert(selection_views(selections@.push(selection)) =~= middle.push(selection@));
        selections.push(selection);
        self.selections = selections;
        found.is_some()
    }

    /// The item that `user` has selected, if any.
    pub fn find_user_item(&self, user: &User) -> (r: Option<String>)
        ensures
            optional_text(r) == self@.item_of(user.id as int),
    {
        proof {
            use_type_invariant(self);
        }
        match position_of(&self.selections, user.id) {
            Some(i) => {
                assert(self@.selections[i as int].user.id == user.id);
                Some(self.selections[i].item.clone())
            },
            None => None,
        }
    }

    /// Withdraws the selection of `user`. Returns the item that the user had
    /// selected, if any.
    pub fn remove_item(&mut self, user: &User) -> (removed: Option<String>)
        ensures
            optional_text(removed) == old(self)@.item_of(user.id as int),
            final(self)@ == old(self)@.without_user(user.id as int),
            final(self)@.wf(),
    {
        proof {
            use_type_invariant(&*self);
        }
        let ghost before = self@;
        let mut selections: Vec<Selection> = Vec::new();
        std::mem::swap(&mut selections, &mut self.selections);
        let removed = match position_of(&selections, user.id) {
            Some(i) => {
                assert(before.selections[i as int].user.id == user.id);
                let selection = selections.remove(i);
                assert(selection_views(selections@) =~= before.selections.remove(i as int));
                Some(selection.item)
            },
            None => None,
        };
        self.selections = selections;
        removed
    }

    /// The names of the items of the order, each once, in lexicographic order.
    pub fn item_names(&self) -> (r: Vec<String>)
        ensures
            views(r@) == item_names(self@.selections),
    {
        let ghost all = self@.selections;
        let mut names: Vec<String> = Vec::new();
        let mut i: usize = 0;
        while i < self.selections.len()
            invariant
                all == self@.selections,
                i <= all.len(),
                views(names@) == item_names(all.take(i as int)),
            decreases all.len() - i,
        {
            assert(all.take(i + 1).drop_last() =~= all.take(i as int));
            let item = &self.selections[i].item;
            if !holds_text(&names, item.as_str()) {
                insert_sorted(&mut names, item.clone());
            }
            i += 1;
        }
        assert(all.take(all.len() as int) =~= all);
        names
    }

    /// The display names of the participants who have selected `item`, in
    /// lexicographic order.
    pub fn user_names(&self, item: &str) -> (r: Vec<String>)
        ensures
            views(r@) == user_names(self@.selections, item@),
    {
        let ghost all = self@.selections;
        let mut names: Vec<String> = Vec::new();
        let mut i: usize = 0;
        while i < self.selections.len()
            invariant
                all == self@.selections,
                i <= all.len(),
                views(names@) == user_names(all.take(i as int), item@),
            decreases all.len() - i,
        {
            assert(all.take(i + 1).drop_last() =~= all.take(i as int));
            if same_text(self.selections[i].item.as_str(), item) {
                insert_sorted(&mut names, self.selections[i].user.first_name.clone());
            }
            i += 1;
        }
        assert(all.take(all.len() as int) =~= all);
        names
    }

    /// The line of the summary for `item`.
    fn item_line(&self, item: &str) -> (r: String)
        ensures
            r@ == item_line(self@.selections, item@),
    {
        let names = self.user_names(item);
        let mut line = decimal_string(names.len());
        line.append(" ");
        line.append(item);
        line.append(": ");
        let slices = as_slices(&names);
        let list = join(slices.as_slice(), ", ");
        line.append(list.as_str());
        line
    }

    /// The summary of the order: a heading with the number of selections,
    /// then one line for each item, by item name, with the number and the
    /// names of those who selected it. An order without selections says so.
    pub fn to_string(&self) -> (r: String)
        ensures
            r@ == self@.summary(),
    {
        if self.selections.len() == 0 {
            let mut text = "Orders for ".to_owned();
            text.append(self.name.as_str());
            text.append(":\n\nNone");
            return text;
        }
        let items = self.item_names();
        let mut lines: Vec<String> = Vec::new();
        let mut k: usize = 0;
        while k < items.len()
            invariant
                views(items@) == item_names(self@.selections),
                k <= items@.len(),
                lines@.len() == k,
                forall|j: int| 0 <= j < k ==> lines@[j]@ == item_lines(self@.selections)[j],
            decreases items@.len() - k,
        {
            let line = self.item_line(items[k].as_str());
            lines.push(line);
            k += 1;
        }
        assert(views(lines@) =~= item_lines(self@.selections));
        let mut text = decimal_string(self.selections.len());
        text.append(" orders for ");
        text.append(self.name.as_str());
        text.append(":\n\n");
        let slices = as_slices(&lines);
        let body = join(slices.as_slice(), "\n");
        text.append(body.as_str());
        text
    }

    /// The buttons of the order, one for each item, by item name.
    pub fn generate_inline_buttons(&self) -> (r: Vec<Button>)
        ensures
            button_views(r@) == self@.buttons(),
    {
        let items = self.item_names();
        let mut buttons: Vec<Button> = Vec::new();
        let mut k: usize = 0;
        while k < items.len()
            invariant
                views(items@) == item_names(self@.selections),
                k <= items@.len(),
                buttons@.len() == k,
                forall|j: int| 0 <= j < k ==> buttons@[j]@ == self@.buttons()[j],
            decreases items@.len() - k,
        {
            let mut data = self.name.clone();
            data.append(" ");
            data.append(items[k].as_str());
            buttons.push(Button { text: items[k].clone(), callback_data: data });
            k += 1;
        }
        buttons
    }

    /// The buttons of the order, two to a row.
    pub fn generate_reply_markup(&self) -> (r: InlineKeyboard)
        ensures
            r@ == rows_of_two(self@.buttons()),
    {
        let buttons = self.generate_inline_buttons();
        InlineKeyboard::in_rows_of_two(&buttons)
    }
}

impl Clone for Order {
    fn clone(&self) -> (r: Self)
        ensures
            r@ == self@,
            r@.wf(),
    {
        proof {
            use_type_invariant(self);
        }
        let mut selections: Vec<Selection> = Vec::new();
        let mut i: usize = 0;
        while i < self.selections.len()
            invariant
                i <= self.selections@.len(),
                selections@.len() == i,
                forall|j: int| 0 <= j < i ==> selections@[j]@ == self.selections@[j]@,
            decreases self.selections@.len() - i,
        {
            selections.push(
                Selection {
                    user: self.selections[i].user.clone(),
                    item: self.selections[i].item.clone(),
                },
            );
            i += 1;
        }
        assert(selection_views(selections@) =~= selection_views(self.selections@));
        Order { name: self.name.clone(), owner: self.owner.clone(), selections }
    }
}

/// The names of the items are in lexicographic order, none of them twice,
/// and they are the items that occur in a selection.
pub proof fn lemma_item_names(selections: Seq<SelectionView>)
    ensures
        strictly_sorted(item_names(selections)),
        forall|item: Seq<char>|
            item_names(selections).contains(item) <==> exists|i: int|
                0 <= i < selections.len() && selections[i].item == item,
    decreases selections.len(),
{
    if selections.len() > 0 {
        let init = selections.drop_last();
        let before = item_names(init);
        let last = selections.last().item;
        lemma_item_names(init);
        if !before.contains(last) {
            lemma_inserted_strictly_sorted(before, last);
        }
        assert forall|item: Seq<char>|
            item_names(selections).contains(item) <==> exists|i: int|
                0 <= i < selections.len() && selections[i].item == item by {
            if !before.contains(last) {
                lemma_inserted_contains(before, last, item);
            }
            if exists|i: int| 0 <= i < selections.len() && selections[i].item == item {
                let i = choose|i: int| 0 <= i < selections.len() && selections[i].item == item;
                if i < selections.len() - 1 {
                    assert(init[i].item == item);
                }
            }
        }
    }
}

/// How many of the selections are for `item`.
pub open spec fn selection_count(selections: Seq<SelectionView>, item: Seq<char>) -> nat
    decreases selections.len(),
{
    if selections.len() == 0 {
        0
    } else if selections.last().item == item {
        selection_count(selections.drop_last(), item) + 1
    } else {
        selection_count(selections.drop_last(), item)
    }
}

/// The names of those who selected `item` are in lexicographic order, one
/// for each selection of the item, and they are the names in those selections.
pub proof fn lemma_user_names(selections: Seq<SelectionView>, item: Seq<char>)
    ensures
        sorted(user_names(selections, item)),
        user_names(selections, item).len() == selection_count(selections, item),
        forall|name: Seq<char>|
            user_names(selections, item).contains(name) <==> exists|i: int|
                0 <= i < selections.len() && selections[i].item == item
                    && selections[i].user.first_name == name,
    decreases selections.len(),
{
    if selections.len() > 0 {
        let init = selections.drop_last();
        let before = user_names(init, item);
        let last = selections.last();
        lemma_user_names(init, item);
        if last.item == item {
            lemma_inserted_sorted(before, last.user.first_name);
            lemma_inserted_contains(before, last.user.first_name, last.user.first_name);
        }
        assert forall|name: Seq<char>|
            user_names(selections, item).contains(name) <==> exists|i: int|
                0 <= i < selections.len() && selections[i].item == item
                    && selections[i].user.first_name == name by {
            if last.item == item {
                lemma_inserted_contains(before, last.user.first_name, name);
            }
            if exists|i: int|
                0 <= i < selections.len() && selections[i].item == item
                    && selections[i].user.first_name == name {
                let i = choose|i: int|
                    0 <= i < selections.len() && selections[i].item == item
                        && selections[i].user.first_name == name;
                if i < selections.len() - 1 {
                    assert(init[i] == selections[i]);
                }
            }
        }
    }
}

/// In a well-formed order the selection of a user stands where the user's
/// identifier stands.
pub proof fn lemma_position(order: OrderView, i: int)
    requires
        order.wf(),
        0 <= i < order.selections.len(),
    ensures
        order.holds(order.selections[i].user.id),
        order.position(order.selections[i].user.id) == i,
        order.item_of(order.selections[i].user.id) == Some(order.selections[i].item),
{
}

/// An item exists exactly as long as somebody has selected it.
pub proof fn lemma_items_have_users(order: OrderView, item: Seq<char>)
    requires
        order.wf(),
    ensures
        order.items().contains(item) <==> exists|id: int| order.users_of(item).contains(id),
{
    if order.items().contains(item) {
        let i = choose|i: int| 0 <= i < order.selections.len() && order.selections[i].item == item;
        lemma_position(order, i);
        assert(order.users_of(item).contains(order.selections[i].user.id));
    }
}

/// Withdrawing a selection keeps the order well formed, takes the user's
/// selection away and leaves those of the others as they are.
pub proof fn lemma_without_user(order: OrderView, id: int)
    requires
        order.wf(),
    ensures
        order.without_user(id).wf(),
        order.without_user(id).item_of(id) is None,
        forall|other: int| other != id ==> order.without_user(id).item_of(other) == order.item_of(other),
        order.without_user(id).name == order.name,
        order.without_user(id).owner == order.owner,
{
    let after = order.without_user(id);
    if order.holds(id) {
        // the selections keep their order: those behind the one that is
        // withdrawn move up by one
        let p = order.position(id);
        assert(after.wf());
        assert(!after.holds(id));
        assert forall|other: int| other != id implies after.item_of(other) == order.item_of(other) by {
            if order.holds(other) {
                let q = order.position(other);
                lemma_position(after, if q < p { q } else { q - 1 });
            }
            if after.holds(other) {
                let i = after.position(other);
                lemma_position(order, if i < p { i } else { i + 1 });
            }
        }
    }
}

/// At most one selection for each user: after `user` has selected `item`,
/// the order is well formed, `item` is what the user has selected, the user
/// is among those who selected `item` and among those of no other item, and
/// the selections of the others are as they were.
pub proof fn lemma_with_selection(order: OrderView, user: UserView, item: Seq<char>)
    requires
        order.wf(),
    ensures
        order.with_selection(user, item).wf(),
        order.with_selection(user, item).item_of(user.id) == Some(item),
        forall|other: Seq<char>|
            order.with_selection(user, item).users_of(other).contains(user.id) <==> other == item,
        forall|other: int|
            other != user.id ==> order.with_selection(user, item).item_of(other) == order.item_of(
                other,
            ),
{
    let middle = order.without_user(user.id);
    let after = order.with_selection(user, item);
    let n = middle.selections.len() as int;
    lemma_without_user(order, user.id);
    // the new selection comes last, behind those of the others
    assert(after.wf());
    lemma_position(after, n);
    assert forall|other: int| other != user.id implies after.item_of(other) == order.item_of(
        other,
    ) by {
        if middle.holds(other) {
            lemma_position(after, middle.position(other));
        }
        if after.holds(other) {
            lemma_position(middle, after.position(other));
        }
    }
}

/// The order after `user` has selected the given items one after the other.
pub open spec fn after_selections(order: OrderView, user: UserView, items: Seq<Seq<char>>)
    -> OrderView
    decreases items.len(),
{
    if items.len() == 0 {
        order
    } else {
        after_selections(order, user, items.drop_last()).with_selection(user, items.last())
    }
}

/// However many items a user selects one after the other, the user ends up
/// among those who selected the last of them, and of no other item.
pub proof fn lemma_one_selection_per_user(order: OrderView, user: UserView, items: Seq<Seq<char>>)
    requires
        order.wf(),
        items.len() > 0,
    ensures
        after_selections(order, user, items).wf(),
        forall|item: Seq<char>|
            after_selections(order, user, items).users_of(item).contains(user.id) <==> item
                == items.last(),
    decreases items.len(),
{
    let before = after_selections(order, user, items.drop_last());
    if items.len() > 1 {
        lemma_one_selection_per_user(order, user, items.drop_last());
    }
    lemma_with_selection(before, user, items.last());
}

/// An item goes with its last user: where the user `id` alone has selected
/// `item`, the order has no such item once the user has withdrawn. Neither
/// the names of its items, nor its buttons, nor the lines of its summary
/// mention the item any more.
pub proof fn lemma_item_goes_with_last_user(order: OrderView, id: int, item: Seq<char>)
    requires
        order.wf(),
        forall|other: int| order.users_of(item).contains(other) <==> other == id,
    ensures
        !order.without_user(id).items().contains(item),
        !item_names(order.without_user(id).selections).contains(item),
        forall|k: int|
            0 <= k < order.without_user(id).buttons().len() ==> (#[trigger] order.without_user(
                id,
            ).buttons()[k]).text != item,
        item_lines(order.without_user(id).selections).len() == order.without_user(
            id,
        ).buttons().len(),
{
    let after = order.without_user(id);
    lemma_without_user(order, id);
    assert(!after.items().contains(item)) by {
        if after.items().contains(item) {
            let i = choose|i: int| 0 <= i < after.selections.len() && after.selections[i].item == item;
            let other = after.selections[i].user.id;
            lemma_position(after, i);
            assert(order.users_of(item).contains(other));
        }
    }
    lemma_item_names(after.selections);
    assert forall|k: int| 0 <= k < after.buttons().len() implies (#[trigger] after.buttons()[k]).text
        != item by {
        assert(item_names(after.selections).contains(item_names(after.selections)[k]));
    }
}

} // verus!

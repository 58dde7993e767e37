//! The buttons that are shown under a message, as plain data: what each
//! button says and what it sends back when it is tapped.
use vstd::prelude::*;

verus! {

/// One button: its caption, and the payload that a tap on it sends back.
#[derive(Debug, PartialEq, Eq)]
pub struct Button {
    pub text: String,
    pub callback_data: String,
}

/// A button as a mathematical value.
pub struct ButtonView {
    pub text: Seq<char>,
    pub callback_data: Seq<char>,
}

impl View for Button {
    type V = ButtonView;

    open spec fn view(&self) -> ButtonView {
        ButtonView { text: self.text@, callback_data: self.callback_data@ }
    }
}

impl Clone for Button {
    fn clone(&self) -> (r: Self)
        ensures
            r@ == self@,
    {
        Button { text: self.text.clone(), callback_data: self.callback_data.clone() }
    }
}

/// The buttons in `v` as mathematical values.
pub open spec fn button_views(v: Seq<Button>) -> Seq<ButtonView> {
    Seq::new(v.len(), |i: int| v[i]@)
}

/// The rows in `v` as mathematical values.
pub open spec fn row_views(v: Seq<Vec<Button>>) -> Seq<Seq<ButtonView>> {
    Seq::new(v.len(), |i: int| button_views(v[i]@))
}

/// A grid of buttons, row by row from the top.
#[derive(Debug, PartialEq, Eq)]
pub struct InlineKeyboard {
    pub rows: Vec<Vec<Button>>,
}

impl View for InlineKeyboard {
    type V = Seq<Seq<ButtonView>>;

    open spec fn view(&self) -> Seq<Seq<ButtonView>> {
        row_views(self.rows@)
    }
}

/// The number of rows that `n` buttons fill, two to a row.
pub open spec fn row_count(n: nat) -> nat {
    (n + 1) / 2
}

/// The buttons laid out two to a row, in their order; where their number is
/// odd, the last row holds one.
pub open spec fn rows_of_two(buttons: Seq<ButtonView>) -> Seq<Seq<ButtonView>> {
    Seq::new(
        row_count(buttons.len()),
        |r: int|
            buttons.subrange(
                2 * r,
                if 2 * r + 2 <= buttons.len() {
                    2 * r + 2
                } else {
                    buttons.len() as int
                },
            ),
    )
}

impl InlineKeyboard {
    /// Lays the buttons out two to a row, in their order.
    pub fn in_rows_of_two(buttons: &Vec<Button>) -> (k: InlineKeyboard)
        ensures
            k@ == rows_of_two(button_views(buttons@)),
    {
        let ghost all = button_views(buttons@);
        let n = buttons.len();
        let mut rows: Vec<Vec<Button>> = Vec::new();
        let mut i: usize = 0;
        while i < n
            invariant
                n == buttons@.len(),
                all == button_views(buttons@),
                i <= n,
                i % 2 == 0 || i == n,
                rows@.len() == (i + 1) / 2,
                forall|r: int| 0 <= r < rows@.len() ==> button_views(#[trigger] rows@[r]@) == rows_of_two(all)[r],
            decreases n - i,
        {
            let mut row: Vec<Button> = Vec::new();
            row.push(buttons[i].clone());
            if n - i >= 2 {
                row.push(buttons[i + 1].clone());
                rows.push(row);
                i += 2;
            } else {
                rows.push(row);
                i = n;
            }
        }
        InlineKeyboard { rows }
    }
}

/// The layout keeps every button, in order, and fills the rows from the
/// top: each row holds one or two buttons, and the button `i` stands in the
/// row `i / 2` at the place `i % 2`.
pub proof fn lemma_rows_of_two(buttons: Seq<ButtonView>)
    ensures
        rows_of_two(buttons).len() == row_count(buttons.len()),
        forall|r: int|
            0 <= r < rows_of_two(buttons).len() ==> 1 <= (#[trigger] rows_of_two(buttons)[r]).len()
                <= 2,
        forall|i: int|
            0 <= i < buttons.len() ==> 0 <= i / 2 < rows_of_two(buttons).len() && 0 <= i % 2
                < rows_of_two(buttons)[i / 2].len() && rows_of_two(buttons)[i / 2][i % 2]
                == #[trigger] buttons[i],
{
}

} // verus!

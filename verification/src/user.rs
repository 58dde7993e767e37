//! The people who take part in an order.
use vstd::prelude::*;

verus! {

/// A member of a chat: an identity and a display name. Two users are the
/// same person where their identifiers agree, whatever their names.
#[derive(Debug, PartialEq, Eq)]
pub struct User {
    /// The identifier that the chat service gave the user.
    pub id: i64,
    /// The name under which the user is shown.
    pub first_name: String,
}

/// A user as a mathematical value.
pub struct UserView {
    pub id: int,
    pub first_name: Seq<char>,
}

impl View for User {
    type V = UserView;

    open spec fn view(&self) -> UserView {
        UserView { id: self.id as int, first_name: self.first_name@ }
    }
}

impl Clone for User {
    fn clone(&self) -> (r: Self)
        ensures
            r@ == self@,
    {
        User { id: self.id, first_name: self.first_name.clone() }
    }
}

impl User {
    /// The user with the given identifier and display name.
    pub fn new(id: i64, first_name: String) -> (r: User)
        ensures
            r@ == (UserView { id: id as int, first_name: first_name@ }),
    {
        User { id, first_name }
    }
}

} // verus!

use vstd::prelude::*;

verus! {

/// A registered user.
#[derive(Debug, Clone, PartialEq, Eq)]
pub struct User {
    /// The user's number, counted from 1 in order of registration.
    pub id: u64,
    /// The name the user registered with.
    pub username: String,
}

impl View for User {
    type V = (u64, Seq<char>);

    open spec fn view(&self) -> (u64, Seq<char>) {
        (self.id, self.username@)
    }
}

/// The body of a request that registers a user.
#[derive(Debug, Clone, PartialEq, Eq)]
pub struct CreateUserPayload {
    /// The name to register.
    pub username: String,
}

} // verus!

use vstd::prelude::*;

use crate::models::user::{CreateUserPayload, User};
use crate::state::{ids_sequential, AppState, UsersView};

verus! {

/// Registers the user that `payload` names: it gets the next number, counted
/// from 1, and is appended to the registry.
pub fn create_user(state: &mut AppState, payload: CreateUserPayload) -> (user: User)
    requires
        old(state).users_view().len() < u64::MAX,
    ensures
        user@ == ((old(state).users_view().len() + 1) as u64, payload.username@),
        final(state).users_view() == old(state).users_view().push(user@),
        ids_sequential(final(state).users_view()),
{
    state.register(payload.username)
}

/// All registered users, in order of registration.
pub fn get_all_users(state: &AppState) -> (users: Vec<User>)
    ensures
        users@.map_values(|u: User| u@) == state.users_view(),
        ids_sequential(state.users_view()),
{
    state.snapshot()
}

/// No two registered users share a number.
pub proof fn law_user_ids_distinct(users: UsersView)
    requires
        ids_sequential(users),
    ensures
        forall|i: int, j: int|
            0 <= i < users.len() && 0 <= j < users.len() && i != j ==> users[i].0 != users[j].0,
{
}

/// What a listing gives back after a registration: the users listed before,
/// in the same order, followed by the user just registered, whose number is
/// one more than the count before.
pub proof fn law_listing_after_create(before: UsersView, after: UsersView, user: (u64, Seq<char>))
    requires
        ids_sequential(before),
        after == before.push(user),
        ids_sequential(after),
    ensures
        after.len() == before.len() + 1,
        after.take(before.len() as int) == before,
        after.last() == user,
        user.0 == before.len() + 1,
{
    assert(after.take(before.len() as int) =~= before);
    assert(after[before.len() as int] == user);
}

} // verus!

use vstd::prelude::*;

use crate::models::user::User;

verus! {

/// The users, each as its number and name, in order of registration.
pub type UsersView = Seq<(u64, Seq<char>)>;

/// Each user's number is its position in the list plus one.
pub open spec fn ids_sequential(users: UsersView) -> bool {
    forall|i: int| 0 <= i < users.len() ==> #[trigger] users[i].0 == i + 1
}

/// The in-memory user registry that the service shares between requests.
pub struct AppState {
    pub(crate) users: Vec<User>,
}

impl AppState {
    #[verifier::type_invariant]
    spec fn numbered_in_order(self) -> bool {
        forall|i: int| 0 <= i < self.users@.len() ==> #[trigger] self.users@[i].id == i + 1
    }

    /// The registered users.
    pub closed spec fn users_view(self) -> UsersView {
        self.users@.map_values(|u: User| u@)
    }

    /// An empty registry.
    pub fn new() -> (res: AppState)
        ensures
            res.users_view() == Seq::<(u64, Seq<char>)>::empty(),
    {
        let res = AppState { users: Vec::new() };
        assert(res.users_view() =~= Seq::<(u64, Seq<char>)>::empty());
        res
    }

    /// How many users are registered.
    pub fn user_count(&self) -> (n: usize)
        ensures
            n == self.users_view().len(),
    {
        self.users.len()
    }

    /// Registers a user under the next number and returns the record.
    pub fn register(&mut self, username: String) -> (user: User)
        requires
            old(self).users_view().len() < u64::MAX,
        ensures
            user@ == ((old(self).users_view().len() + 1) as u64, username@),
            final(self).users_view() == old(self).users_view().push(user@),
            ids_sequential(final(self).users_view()),
    {
        proof {
            use_type_invariant(&*self);
        }
        let id: u64 = (self.users.len() as u64) + 1;
        let user = User { id, username: username.clone() };
        let stored = User { id, username };
        let mut users: Vec<User> = Vec::new();
        std::mem::swap(&mut users, &mut self.users);
        users.push(stored);
        self.users = users;
        proof {
            use_type_invariant(&*self);
        }
        assert(self.users_view() =~= old(self).users_view().push(user@));
        user
    }

    /// A copy of the registered users, in order of registration.
    pub fn snapshot(&self) -> (res: Vec<User>)
        ensures
            res@.map_values(|u: User| u@) == self.users_view(),
            ids_sequential(self.users_view()),
    {
        proof {
            use_type_invariant(self);
        }
        let mut res: Vec<User> = Vec::new();
        let mut i: usize = 0;
        while i < self.users.len()
            invariant
                i <= self.users@.len(),
                res@.len() == i,
                forall|k: int| 0 <= k < i ==> #[trigger] res@[k]@ == self.users@[k]@,
            decreases self.users@.len() - i,
        {
            let u = &self.users[i];
            res.push(User { id: u.id, username: u.username.clone() });
            i = i + 1;
        }
        assert(res@.map_values(|u: User| u@) =~= self.users_view());
        res
    }
}

} // verus!

//! User accounts.

use vstd::prelude::*;
use crate::records::{user_row, User, UserView};
use crate::store::{Store, StoreView};
use crate::table::row_storable;

verus! {

/// The user that a successful call stores.
pub open spec fn new_user(before: StoreView, username: Seq<char>) -> UserView {
    UserView { id: before.next_id, username }
}

/// Registers a new user.
///
/// There is a user exactly when an identifier was left and the user's row
/// takes no more bytes than stable memory holds in one value
/// (`row_storable`). A row beyond that uses up the identifier.
pub fn register_user(store: &mut Store, username: String) -> (r: Option<User>)
    requires
        old(store).wf(),
    ensures
        final(store).wf(),
        match r {
            Some(u) => {
                &&& old(store)@.next_id < u64::MAX
                &&& u@ == new_user(old(store)@, username@)
                &&& row_storable(user_row(u@))
                &&& final(store)@ == (StoreView {
                    users: old(store)@.users.insert(u.id, u@),
                    ..old(store)@.bumped()
                })
            },
            None => if old(store)@.next_id == u64::MAX {
                final(store)@ == old(store)@
            } else {
                &&& !row_storable(user_row(new_user(old(store)@, username@)))
                &&& final(store)@ == old(store)@.bumped()
            },
        },
{
    let id = match store.next_id() {
        Some(id) => id,
        None => {
            return None;
        },
    };
    let user = User { id, username };
    if store.do_insert_user(&user) {
        Some(user)
    } else {
        None
    }
}

/// The user with the given identifier, if there is one.
pub fn get_user(store: &Store, user_id: u64) -> (r: Option<User>)
    requires
        store.wf(),
    ensures
        match r {
            Some(u) => store@.users.dom().contains(user_id) && u@ == store@.users[user_id],
            None => !store@.users.dom().contains(user_id),
        },
{
    store.lookup_user(user_id)
}

/// Whether the user counts as registered for the election. A user account
/// carries no registrations of its own: every user who exists counts as
/// registered for every election, and nobody else does.
pub fn is_user_registered_for_election(store: &Store, user_id: u64, election_id: u64) -> (registered:
    bool)
    requires
        store.wf(),
    ensures
        registered == store@.users.dom().contains(user_id),
{
    match store.lookup_user(user_id) {
        Some(_) => true,
        None => false,
    }
}

} // verus!

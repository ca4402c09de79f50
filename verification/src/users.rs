//! User accounts.

use vstd::prelude::*;

verus! {

/// An account: a name, a mail address, and whether it is in use.
pub struct User {
    pub active: bool,
    pub username: String,
    pub email: String,
}

/// A fresh account under the given name and address. It is active.
pub fn build_user(username: String, email: String) -> (user: User)
    ensures
        user.active,
        user.username == username,
        user.email == email,
{
    User { active: true, username: username, email: email }
}

} // verus!

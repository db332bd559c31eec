//! A user record and a constructor using field-init shorthand.

use vstd::prelude::*;

verus! {

#[derive(Debug)]
pub struct User {
    pub username: String,
    pub email: String,
    pub sign_in_count: u64,
    pub active: bool,
}

/// Builds an active user with the given email and username and a
/// sign-in count of one.
pub fn build_user(email: String, username: String) -> (u: User)
    ensures
        u.email == email,
        u.username == username,
        u.active == true,
        u.sign_in_count == 1,
{
    User { email, username, active: true, sign_in_count: 1 }
}

} // verus!

//! Form types of the login and registration pages.
//!
//! Authentication itself — password hashing, sessions, passkeys — is an
//! external collaborator; the library only carries the submitted fields and
//! hands the credential pair on.

use vstd::prelude::*;

verus! {

/// The login form: a username, a password, and where to go afterwards.
pub struct LoginForm {
    pub username: String,
    pub password: String,
    pub next: Option<String>,
}

impl LoginForm {
    /// The submitted credential pair, username first.
    pub fn credentials(&self) -> (r: (String, String))
        ensures
            r.0 == self.username,
            r.1 == self.password,
    {
        (self.username.clone(), self.password.clone())
    }
}

/// The registration form: the new credentials, their confirmation, and where
/// to go afterwards.
pub struct RegisterForm {
    pub new_username: String,
    pub new_password: String,
    pub confirm_password: String,
    pub next: Option<String>,
}

impl RegisterForm {
    /// The submitted credential pair, username first.
    pub fn credentials(&self) -> (r: (String, String))
        ensures
            r.0 == self.new_username,
            r.1 == self.new_password,
    {
        (self.new_username.clone(), self.new_password.clone())
    }
}

/// The `next` query parameter: where to redirect after logging in.
pub struct NextUrl {
    pub next: Option<String>,
}

} // verus!

//! The decisions of the administration pages: signing in, changing a
//! password, creating users and promoting them to administrators. Each takes
//! the login table and the request's parameters (a parameter that is absent,
//! or not a string, is `None`) and says what the page does.

use vstd::prelude::*;
use crate::logins::{hash_readable, latest, law_get_after_set, password_matches, is_admin_in, Login, LoginView, Logins};

verus! {

/// What an administration request that may write a login comes to.
pub enum AdminOutcome {
    /// The requester is no administrator: the request is refused.
    Unauthorized,
    /// This login was recorded in the table and is to be appended to the
    /// user file; then the page goes back to the index.
    Stored(Login),
    /// Nothing was written; the page goes back to the index.
    Unchanged,
    /// Hashing a new password failed.
    HashFailed,
    /// A stored hash could not be read by bcrypt.
    UnreadableHash,
}

/// What a sign-in request comes to.
pub enum SignIn {
    /// The password matches: the session is to hold this user.
    Accepted(String),
    /// No sign-in: parameters missing, unknown user, or wrong password.
    Refused,
    /// The user's stored hash could not be read by bcrypt.
    UnreadableHash,
}

/// Whether `name` can sign in with `password`: its login in force accepts
/// the password.
pub open spec fn login_accepts(rows: Seq<LoginView>, name: Seq<char>, password: Seq<char>) -> bool {
    latest(rows, name) matches Some(l) && password_matches(l, password)
}

/// A login that was just recorded with a password lets its user sign in
/// with that password (true of a created user and of a changed password).
pub proof fn law_stored_login_signs_in(rows: Seq<LoginView>, login: LoginView, password: Seq<char>)
    requires
        password_matches(login, password),
    ensures
        login_accepts(rows.push(login), login.name, password),
{
    law_get_after_set(rows, login, login.name);
}

/// The default credentials: once the default administrator has been added
/// to a table without logins, `admin` signs in with `password` and is an
/// administrator.
pub proof fn law_default_credentials(admin: LoginView)
    requires
        admin.name == "admin"@,
        admin.admin,
        password_matches(admin, "password"@),
    ensures
        login_accepts(Seq::<LoginView>::empty().push(admin), "admin"@, "password"@),
        is_admin_in(Seq::<LoginView>::empty().push(admin), "admin"@),
{
    law_get_after_set(Seq::<LoginView>::empty(), admin, "admin"@);
}

/// Signs a user in. Succeeds exactly when both parameters are given, the
/// user has a login and the password matches it.
pub fn login(logins: &Logins, username: Option<&str>, password: Option<&str>) -> (r: SignIn)
    ensures
        match (username, password) {
            (Some(u), Some(p)) => match latest(logins@, u@) {
                None => r is Refused,
                Some(l) => if !hash_readable(l, p@) {
                    r is UnreadableHash
                } else if password_matches(l, p@) {
                    r matches SignIn::Accepted(name) && name@ == u@
                } else {
                    r is Refused
                },
            },
            _ => r is Refused,
        },
{
    match (username, password) {
        (Some(u), Some(p)) => match logins.get_login(u) {
            Some(l) => match l.try_verify(p) {
                Some(true) => SignIn::Accepted(u.to_owned()),
                Some(false) => SignIn::Refused,
                None => SignIn::UnreadableHash,
            },
            None => SignIn::Refused,
        },
        _ => SignIn::Refused,
    }
}

/// Gives `username` administrator rights, at the request of `requester`.
/// Only an administrator may; the target's login is written again with the
/// administrator flag set and its name and hash kept.
pub fn promote(logins: &mut Logins, requester: &str, username: Option<&str>) -> (r: AdminOutcome)
    requires
        is_admin_in(old(logins)@, requester@) ==> (username matches Some(u) ==> latest(old(logins)@, u@) is Some),
    ensures
        !is_admin_in(old(logins)@, requester@) ==> (r is Unauthorized && final(logins)@ == old(logins)@),
        is_admin_in(old(logins)@, requester@) && username is None ==> (r is Unchanged && final(logins)@ == old(logins)@),
        is_admin_in(old(logins)@, requester@) && username is Some ==> ({
            let target = latest(old(logins)@, username->0@)->0;
            &&& r matches AdminOutcome::Stored(l) && l@ == LoginView { admin: true, ..target }
            &&& final(logins)@ == old(logins)@.push(LoginView { admin: true, ..target })
        }),
{
    if !logins.is_admin(requester) {
        return AdminOutcome::Unauthorized;
    }
    match username {
        Some(u) => match logins.get_login(u) {
            Some(target) => {
                let promoted = Login { name: target.name, admin: true, hashword: target.hashword };
                logins.set_login(&promoted);
                AdminOutcome::Stored(promoted)
            },
            None => AdminOutcome::Unchanged,
        },
        None => AdminOutcome::Unchanged,
    }
}

/// Creates the user `username` with `password`, at the request of
/// `requester`. Only an administrator may; an existing user is never
/// replaced; a new user is no administrator.
pub fn create(logins: &mut Logins, requester: &str, username: Option<&str>, password: Option<&str>) -> (r: AdminOutcome)
    ensures
        !is_admin_in(old(logins)@, requester@) ==> (r is Unauthorized && final(logins)@ == old(logins)@),
        is_admin_in(old(logins)@, requester@) ==> match (username, password) {
            (Some(u), Some(p)) => if latest(old(logins)@, u@) is Some {
                r is Unchanged && final(logins)@ == old(logins)@
            } else {
                match r {
                    AdminOutcome::Stored(l) => {
                        &&& l.name@ == u@
                        &&& !l.admin
                        &&& password_matches(l@, p@)
                        &&& final(logins)@ == old(logins)@.push(l@)
                    },
                    AdminOutcome::HashFailed => final(logins)@ == old(logins)@,
                    _ => false,
                }
            },
            _ => r is Unchanged && final(logins)@ == old(logins)@,
        },
{
    if !logins.is_admin(requester) {
        return AdminOutcome::Unauthorized;
    }
    match (username, password) {
        (Some(u), Some(p)) => {
            if logins.get_login(u).is_none() {
                match Login::new(u, false, p) {
                    Some(l) => {
                        logins.set_login(&l);
                        AdminOutcome::Stored(l)
                    },
                    None => AdminOutcome::HashFailed,
                }
            } else {
                AdminOutcome::Unchanged
            }
        },
        _ => AdminOutcome::Unchanged,
    }
}

/// Changes the password of the signed-in `user` from `old_password` to
/// `new_password`. Happens only when the old password matches; the login
/// keeps its name and administrator flag.
pub fn change_password(
    logins: &mut Logins,
    user: Option<&str>,
    old_password: Option<&str>,
    new_password: Option<&str>,
) -> (r: AdminOutcome)
    requires
        old_password is Some && new_password is Some ==> (user matches Some(u) && latest(old(logins)@, u@) is Some),
    ensures
        match (old_password, new_password) {
            (Some(o), Some(n)) => {
                let current = latest(old(logins)@, user->0@)->0;
                if !hash_readable(current, o@) {
                    r is UnreadableHash && final(logins)@ == old(logins)@
                } else if !password_matches(current, o@) {
                    r is Unchanged && final(logins)@ == old(logins)@
                } else {
                    match r {
                        AdminOutcome::Stored(l) => {
                            &&& l.name@ == current.name
                            &&& l.admin == current.admin
                            &&& password_matches(l@, n@)
                            &&& final(logins)@ == old(logins)@.push(l@)
                        },
                        AdminOutcome::HashFailed => final(logins)@ == old(logins)@,
                        _ => false,
                    }
                }
            },
            _ => r is Unchanged && final(logins)@ == old(logins)@,
        },
{
    match (old_password, new_password) {
        (Some(o), Some(n)) => {
            let u = match user {
                Some(u) => u,
                None => return AdminOutcome::Unchanged,
            };
            let current = match logins.get_login(u) {
                Some(l) => l,
                None => return AdminOutcome::Unchanged,
            };
            match current.try_verify(o) {
                None => AdminOutcome::UnreadableHash,
                Some(false) => AdminOutcome::Unchanged,
                Some(true) => match Login::new(current.name.as_str(), current.admin, n) {
                    Some(l) => {
                        logins.set_login(&l);
                        AdminOutcome::Stored(l)
                    },
                    None => AdminOutcome::HashFailed,
                },
            }
        },
        _ => AdminOutcome::Unchanged,
    }
}

} // verus!

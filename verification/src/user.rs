use vstd::prelude::*;

verus! {

/// The user of a session, stored in the session under the key `"user"`.
#[derive(Debug)]
pub struct User {
    pub username: String,
}

/// The raw session value that stands for the user named `username`.
pub open spec fn raw_of(username: Seq<char>) -> Seq<char> {
    username
}

/// The user name that a raw session value stands for: none for an empty
/// value.
pub open spec fn user_of_raw(raw: Seq<char>) -> Option<Seq<char>> {
    if raw.len() == 0 {
        None
    } else {
        Some(raw)
    }
}

/// Storing a user in the session and reading it back gives the same user,
/// for every user with a name; and a raw value that stands for a user is
/// the one stored for that user.
pub proof fn law_raw_round_trip(username: Seq<char>, raw: Seq<char>)
    ensures
        username.len() > 0 ==> user_of_raw(raw_of(username)) == Some(username),
        user_of_raw(raw) matches Some(name) ==> raw_of(name) == raw,
{
}

impl User {
    /// The session key under which the user is kept.
    pub fn get_key() -> (key: &'static str)
        ensures
            key@ == "user"@,
    {
        "user"
    }

    /// The raw session value: the user name itself.
    pub fn into_raw(self) -> (raw: String)
        ensures
            raw@ == raw_of(self.username@),
    {
        self.username
    }

    /// Reads a user back from a raw session value; an empty value is no user.
    pub fn from_raw(value: String) -> (user: Option<User>)
        ensures
            user_of_raw(value@) is None ==> user is None,
            user_of_raw(value@) matches Some(name) ==> (user matches Some(u) && u.username@ == name),
    {
        if value.as_str().is_empty() {
            None
        } else {
            Some(User { username: value })
        }
    }
}

} // verus!

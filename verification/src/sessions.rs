//! Server-side sessions identified by a token, each possibly holding a
//! signed-in user.

use vstd::prelude::*;

verus! {

/// The user a session is signed in as.
#[derive(Clone, Debug)]
pub struct User {
    pub id: i32,
    pub name: String,
}

/// A session: the user signed in, if any, and the token that names it.
#[derive(Clone, Debug)]
pub struct Session {
    pub user: Option<User>,
    pub token: String,
}

/// The mathematical value of a session: the signed-in user's id and name,
/// and the token.
pub struct SessionView {
    pub user: Option<(i32, Seq<char>)>,
    pub token: Seq<char>,
}

impl View for Session {
    type V = SessionView;

    open spec fn view(&self) -> SessionView {
        SessionView {
            user: match self.user {
                Some(u) => Some((u.id, u.name@)),
                None => None,
            },
            token: self.token@,
        }
    }
}

impl Session {
    /// The token of the session.
    pub fn get_token(&self) -> (r: String)
        ensures
            r@ == self.token@,
    {
        self.token.clone()
    }

    /// A copy of the session, field by field.
    fn duplicate(&self) -> (r: Session)
        ensures
            r@ == self@,
    {
        let user = match &self.user {
            Some(u) => Some(User { id: u.id, name: u.name.clone() }),
            None => None,
        };
        Session { user, token: self.token.clone() }
    }
}

/// The sessions of the server.
pub struct Sessions {
    pub sessions: Vec<Session>,
}

/// The index of the first session in `s` with the token `token`.
pub open spec fn first_with_token(s: Seq<SessionView>, token: Seq<char>, i: int) -> bool {
    &&& 0 <= i < s.len()
    &&& s[i].token == token
    &&& forall|j: int| 0 <= j < i ==> #[trigger] s[j].token != token
}

impl Sessions {
    /// The session named by `token`: the first one with that token, or
    /// `None` when no session has it.
    pub fn get_session(&self, token: String) -> (r: Option<Session>)
        ensures
            r is None <==> forall|j: int| 0 <= j < self.sessions@.len() ==> #[trigger] self.sessions@[j].token@ != token@,
            r matches Some(s) ==> exists|i: int|
                first_with_token(self.sessions@.map_values(|x: Session| x@), token@, i) && #[trigger] self.sessions@[i]@ == s@,
    {
        let n = self.sessions.len();
        for i in 0..n
            invariant
                n == self.sessions@.len(),
                forall|j: int| 0 <= j < i ==> #[trigger] self.sessions@[j].token@ != token@,
        {
            if self.sessions[i].token.eq(&token) {
                let found = self.sessions[i].duplicate();
                proof {
                    let views = self.sessions@.map_values(|x: Session| x@);
                    assert forall|j: int| 0 <= j < i implies #[trigger] views[j].token != token@ by {
                        assert(views[j].token == self.sessions@[j].token@);
                    }
                    assert(first_with_token(views, token@, i as int));
                }
                return Some(found);
            }
        }
        None
    }

    /// A new session without a user, under the token `asdf`. The sessions
    /// kept are not changed.
    pub fn create_session(&mut self) -> (r: Session)
        ensures
            r.user is None,
            r.token@ == "asdf"@,
            final(self).sessions@ == old(self).sessions@,
    {
        Session { user: None, token: "asdf".to_owned() }
    }

    /// Forgets every session.
    pub fn clear_all_sessions(&mut self)
        ensures
            final(self).sessions@.len() == 0,
    {
        self.sessions.clear()
    }
}

} // verus!

//! Team logins: a team signs in with its name and its password.
use crate::config::{find_named, named, Config};
use vstd::prelude::*;

verus! {

/// A signed-in team. It has no `Debug`, which would show the password.
#[derive(Clone)]
pub struct AuthTeam {
    pub username: String,
    password: String,
}

/// What a team submits to sign in, with the page to return to.
#[derive(Clone)]
pub struct Credentials {
    pub username: String,
    pub password: String,
    pub next: Option<String>,
}

impl AuthTeam {
    /// The team's name.
    pub closed spec fn name(&self) -> Seq<char> {
        self.username@
    }

    /// The team's password, which ends its sessions when it changes.
    pub closed spec fn secret(&self) -> Seq<char> {
        self.password@
    }

    /// The key that identifies the team.
    pub fn id(&self) -> (r: String)
        ensures
            r@ == self.name(),
    {
        self.username.clone()
    }

    /// The value whose change ends the team's sessions: its password.
    pub fn session_auth_hash(&self) -> (r: &str)
        ensures
            r@ == self.secret(),
    {
        self.password.as_str()
    }
}

/// Entry `j` is the first of `entries` named `name`.
pub open spec fn first_named<T>(entries: Seq<(String, T)>, name: Seq<char>, j: int) -> bool {
    named(entries, name, j) && forall|k: int| 0 <= k < j ==> !#[trigger] named(entries, name, k)
}

impl Config {
    /// The team that the credentials sign in: the team of that name, if its
    /// password is the one given.
    pub fn authenticate(&self, creds: Credentials) -> (r: Option<AuthTeam>)
        ensures
            r is Some <==> exists|j: int|
                #[trigger] first_named(self.inner.teams@, creds.username@, j)
                    && self.inner.teams@[j].1.password@ == creds.password@,
            r matches Some(t) ==> t.name() == creds.username@ && t.secret() == creds.password@,
    {
        match find_named(&self.inner.teams, &creds.username) {
            Some(j) => {
                assert(first_named(self.inner.teams@, creds.username@, j as int));
                if self.inner.teams[j].1.password == creds.password {
                    let password = self.inner.teams[j].1.password.clone();
                    Some(AuthTeam { username: creds.username, password })
                } else {
                    proof {
                        assert forall|i: int|
                            #[trigger] first_named(self.inner.teams@, creds.username@, i) implies i
                            == j by {
                            if i < j {
                                assert(!named(self.inner.teams@, creds.username@, i));
                            }
                            if j < i {
                                assert(!named(self.inner.teams@, creds.username@, j as int));
                            }
                        }
                    }
                    None
                }
            },
            None => None,
        }
    }

    /// The signed-in team of a given name, if there is a team of that name.
    pub fn get_user(&self, user_id: &String) -> (r: Option<AuthTeam>)
        ensures
            r is Some <==> exists|j: int| #[trigger] named(self.inner.teams@, user_id@, j),
            r matches Some(t) ==> t.name() == user_id@ && exists|j: int|
                #[trigger] first_named(self.inner.teams@, user_id@, j) && t.secret()
                    == self.inner.teams@[j].1.password@,
    {
        match find_named(&self.inner.teams, user_id) {
            Some(j) => {
                assert(first_named(self.inner.teams@, user_id@, j as int));
                let password = self.inner.teams[j].1.password.clone();
                Some(AuthTeam { username: user_id.clone(), password })
            },
            None => None,
        }
    }
}

} // verus!

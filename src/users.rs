//! Local user accounts: unique names, Argon2-hashed passwords.
use vstd::prelude::*;
use crate::session::{argon2_accepts, hash_password, phc_parses, verify_password, AuthError};

verus! {

/// An account: its name and the PHC string of its password hash.
pub struct User {
    pub name: String,
    pub passw: String,
}

/// Why an account operation failed.
#[derive(Debug, PartialEq, Eq, Structural)]
pub enum UserError {
    /// An account with that name exists already.
    AlreadyExists,
    /// Hashing or reading a password hash failed.
    Auth(AuthError),
}

/// Index of the account named `name`, if any.
pub open spec fn user_index(users: Seq<User>, name: Seq<char>) -> Option<int> {
    if exists|i: int| 0 <= i < users.len() && (#[trigger] users[i]).name@ == name {
        Some(choose|i: int| 0 <= i < users.len() && (#[trigger] users[i]).name@ == name)
    } else {
        None
    }
}

/// The accounts of a node.
pub struct UserStore {
    users: Vec<User>,
}

impl UserStore {
    pub closed spec fn spec_users(&self) -> Seq<User> {
        self.users@
    }

    /// No two accounts share a name.
    pub open spec fn wf(&self) -> bool {
        forall|i: int, j: int|
            0 <= i < j < self.spec_users().len() ==> (#[trigger] self.spec_users()[i]).name@
                != (#[trigger] self.spec_users()[j]).name@
    }

    pub fn new() -> (r: UserStore)
        ensures
            r.wf(),
            r.spec_users().len() == 0,
    {
        UserStore { users: Vec::new() }
    }

    pub fn users(&self) -> (r: &Vec<User>)
        ensures
            r@ == self.spec_users(),
    {
        &self.users
    }

    fn find(&self, name: &str) -> (r: Option<usize>)
        ensures
            r is None ==> user_index(self.spec_users(), name@) is None,
            r is Some ==> r->Some_0 < self.spec_users().len() && self.spec_users()[r->Some_0 as int].name@
                == name@,
    {
        let target = String::from_str(name);
        let mut i: usize = 0;
        while i < self.users.len()
            invariant
                i <= self.users@.len(),
                target@ == name@,
                forall|j: int| 0 <= j < i ==> (#[trigger] self.users@[j]).name@ != name@,
            decreases self.users.len() - i,
        {
            if self.users[i].name == target {
                return Some(i);
            }
            i = i + 1;
        }
        None
    }

    /// Whether an account named `name` exists.
    pub fn contains(&self, name: &str) -> (r: bool)
        ensures
            r == (user_index(self.spec_users(), name@) is Some),
    {
        match self.find(name) {
            Some(i) => {
                assert(self.spec_users()[i as int].name@ == name@);
                true
            },
            None => false,
        }
    }

    /// Adds an account whose name is new, with the password hashed; an
    /// existing name is refused and nothing changes.
    pub fn create_user(&mut self, name: String, password: &str) -> (r: Result<(), UserError>)
        requires
            old(self).wf(),
        ensures
            final(self).wf(),
            user_index(old(self).spec_users(), name@) is Some ==> r == Err::<(), UserError>(
                UserError::AlreadyExists,
            ) && final(self).spec_users() == old(self).spec_users(),
            r is Ok ==> final(self).spec_users().len() == old(self).spec_users().len() + 1
                && final(self).spec_users().drop_last() == old(self).spec_users()
                && final(self).spec_users().last().name@ == name@ && phc_parses(
                final(self).spec_users().last().passw@,
            ) && argon2_accepts(password@, final(self).spec_users().last().passw@),
            r is Err ==> final(self).spec_users() == old(self).spec_users(),
            user_index(old(self).spec_users(), name@) is None ==> r is Ok || r == Err::<(), UserError>(
                UserError::Auth(AuthError::HashingFailed),
            ),
    {
        if self.contains(name.as_str()) {
            return Err(UserError::AlreadyExists);
        }
        let passw = match hash_password(password) {
            Ok(h) => h,
            Err(e) => {
                return Err(UserError::Auth(e));
            },
        };
        let ghost before = self.users@;
        self.users.push(User { name, passw });
        assert(self.users@.drop_last() =~= before);
        assert forall|i: int, j: int|
            0 <= i < j < self.users@.len() implies (#[trigger] self.users@[i]).name@
                != (#[trigger] self.users@[j]).name@ by {
            if j == before.len() {
                assert(self.users@[i] == before[i]);
            } else {
                assert(self.users@[i] == before[i] && self.users@[j] == before[j]);
            }
        }
        Ok(())
    }

    /// Adds a stored account read back from disk; a name already present
    /// is skipped.
    pub fn restore(&mut self, user: User) -> (r: bool)
        requires
            old(self).wf(),
        ensures
            final(self).wf(),
            r == (user_index(old(self).spec_users(), user.name@) is None),
            r ==> final(self).spec_users() == old(self).spec_users().push(user),
            !r ==> final(self).spec_users() == old(self).spec_users(),
    {
        if self.contains(user.name.as_str()) {
            return false;
        }
        let ghost before = self.users@;
        let ghost u = user;
        self.users.push(user);
        assert forall|i: int, j: int|
            0 <= i < j < self.users@.len() implies (#[trigger] self.users@[i]).name@
                != (#[trigger] self.users@[j]).name@ by {
            if j == before.len() {
                assert(self.users@[i] == before[i]);
                assert(self.users@[j] == u);
            } else {
                assert(self.users@[i] == before[i] && self.users@[j] == before[j]);
            }
        }
        true
    }

    /// Checks a user's credentials: false for an unknown name.
    pub fn verify_user_credentials(&self, name: &str, password: &str) -> (r: Result<bool, UserError>)
        requires
            self.wf(),
        ensures
            user_index(self.spec_users(), name@) is None ==> r == Ok::<bool, UserError>(false),
            r is Ok && user_index(self.spec_users(), name@) is Some ==> r->Ok_0 == argon2_accepts(
                password@,
                self.spec_users()[user_index(self.spec_users(), name@)->Some_0].passw@,
            ),
            user_index(self.spec_users(), name@) is Some ==> (r is Err <==> !phc_parses(
                self.spec_users()[user_index(self.spec_users(), name@)->Some_0].passw@,
            )),
            r is Err ==> r == Err::<bool, UserError>(UserError::Auth(AuthError::MalformedHash)),
    {
        match self.find(name) {
            None => Ok(false),
            Some(i) => {
                proof {
                    let k = user_index(self.spec_users(), name@)->Some_0;
                    assert(self.spec_users()[i as int].name@ == name@);
                    if k != i {
                        if k < i {
                            assert(self.spec_users()[k].name@ != self.spec_users()[i as int].name@);
                        } else {
                            assert(self.spec_users()[i as int].name@ != self.spec_users()[k].name@);
                        }
                    }
                }
                match verify_password(password, self.users[i].passw.as_str()) {
                    Ok(ok) => Ok(ok),
                    Err(e) => Err(UserError::Auth(e)),
                }
            },
        }
    }
}

} // verus!

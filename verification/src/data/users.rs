//! User records and their per-service access rules, and a map of users
//! keyed by username.

use vstd::prelude::*;
use crate::text::str_equal;

verus! {

/// Whether a rule grants or refuses access.
#[derive(Clone, Debug, PartialEq, Eq, Structural)]
pub enum AccessControlKind {
    Allow,
    Deny,
}

/// One access rule: an effect and the service it applies to, where `*`
/// stands for every service.
#[derive(Clone, Debug)]
pub struct AccessControl {
    pub control: AccessControlKind,
    pub service: String,
}

/// A user record as the administrative subsystem stores it.
#[derive(Clone, Debug)]
pub struct User {
    pub id: String,
    pub username: String,
    pub email: String,
    pub salt: String,
    pub password_hash: String,
    pub pubkey_fpr: String,
    pub superuser: bool,
    pub acl: Vec<AccessControl>,
}

/// The user a sequence of records maps a username to: the last record
/// with that username wins, as repeated insertion into a map would have
/// it.
pub open spec fn users_by_name(users: Seq<User>, name: Seq<char>) -> Option<User>
    decreases users.len(),
{
    if users.len() == 0 {
        None
    } else if users.last().username@ == name {
        Some(users.last())
    } else {
        users_by_name(users.drop_last(), name)
    }
}

/// A collection of user records addressed by username.
pub struct UserMap {
    entries: Vec<User>,
}

impl UserMap {
    /// The user stored under a username, if any.
    pub closed spec fn spec_get(self, name: Seq<char>) -> Option<User> {
        users_by_name(self.entries@, name)
    }

    /// How many records the map holds.
    pub closed spec fn spec_len(self) -> nat {
        self.entries@.len()
    }

    /// No two records share a username.
    pub closed spec fn wf(self) -> bool {
        forall|k1: int, k2: int|
            0 <= k1 < k2 < self.entries@.len() ==> (#[trigger] self.entries@[k1]).username@ != (
            #[trigger] self.entries@[k2]).username@
    }

    /// An empty map.
    pub fn new() -> (r: Self)
        ensures
            r.wf(),
            r.spec_len() == 0,
            forall|name: Seq<char>| r.spec_get(name) is None,
    {
        UserMap { entries: Vec::new() }
    }

    /// How many users the map holds.
    pub fn len(&self) -> (r: usize)
        ensures
            r == self.spec_len(),
    {
        self.entries.len()
    }

    /// Looks a user up by username.
    pub fn get(&self, username: &str) -> (r: Option<&User>)
        ensures
            match r {
                Some(u) => self.spec_get(username@) == Some(*u),
                None => self.spec_get(username@) is None,
            },
    {
        let n = self.entries.len();
        let mut k = n;
        while k > 0
            invariant
                k <= n,
                n == self.entries@.len(),
                users_by_name(self.entries@.take(n as int), username@) == users_by_name(
                    self.entries@.take(k as int),
                    username@,
                ),
            decreases k,
        {
            proof {
                assert(self.entries@.take(k as int).last() == self.entries@[k - 1]);
                assert(self.entries@.take(k as int).drop_last() =~= self.entries@.take(k - 1));
            }
            k = k - 1;
            let candidate = &self.entries[k];
            if str_equal(candidate.username.as_str(), username) {
                proof {
                    assert(users_by_name(self.entries@.take(k + 1), username@) == Some(
                        self.entries@[k as int],
                    ));
                    assert(self.entries@.take(n as int) =~= self.entries@);
                }
                return Some(candidate);
            }
        }
        proof {
            assert(self.entries@.take(0) =~= Seq::<User>::empty());
            assert(self.entries@.take(n as int) =~= self.entries@);
        }
        None
    }

    /// Adds a record, replacing any record that already carries the same
    /// username.
    pub fn insert(&mut self, user: User)
        requires
            old(self).wf(),
        ensures
            final(self).wf(),
            forall|name: Seq<char>|
                final(self).spec_get(name) == (if name == user.username@ {
                    Some(user)
                } else {
                    old(self).spec_get(name)
                }),
    {
        let n = self.entries.len();
        let mut k: usize = 0;
        while k < n
            invariant
                k <= n,
                n == self.entries@.len(),
                self.entries@ == old(self).entries@,
                old(self).wf(),
                forall|j: int| 0 <= j < k ==> (#[trigger] self.entries@[j]).username@ != user.username@,
            decreases n - k,
        {
            if str_equal(self.entries[k].username.as_str(), user.username.as_str()) {
                let ghost prev = self.entries@;
                self.entries[k] = user;
                proof {
                    let cur = self.entries@;
                    assert(cur == prev.update(k as int, user));
                    assert forall|name: Seq<char>|
                        users_by_name(cur, name) == (if name == user.username@ {
                            Some(user)
                        } else {
                            users_by_name(prev, name)
                        }) by {
                        lemma_users_by_name_update(prev, k as int, user, name);
                    }
                    assert(final(self).wf()) by {
                        assert(forall|j: int| 0 <= j < cur.len() && j != k ==> cur[j] == prev[j]);
                        assert(forall|j: int|
                            0 <= j < cur.len() ==> (#[trigger] cur[j]).username@
                                == prev[j].username@);
                    }
                }
                return ;
            }
            k = k + 1;
        }
        let ghost prev = self.entries@;
        self.entries.push(user);
        proof {
            assert(self.entries@.drop_last() =~= prev);
            assert(self.entries@.last() == user);
            assert forall|name: Seq<char>|
                users_by_name(self.entries@, name) == (if name == user.username@ {
                    Some(user)
                } else {
                    users_by_name(prev, name)
                }) by {
            }
            assert(final(self).wf()) by {
                assert(forall|j: int| 0 <= j < prev.len() ==> self.entries@[j] == prev[j]);
                assert(forall|j: int|
                    0 <= j < prev.len() ==> (#[trigger] prev[j]).username@ != user.username@);
            }
        }
    }
}

/// Replacing the unique record that carries a username leaves every
/// other name's lookup unchanged and rebinds that one name.
proof fn lemma_users_by_name_update(users: Seq<User>, k: int, user: User, name: Seq<char>)
    requires
        0 <= k < users.len(),
        users[k].username@ == user.username@,
        forall|j1: int, j2: int|
            0 <= j1 < j2 < users.len() ==> (#[trigger] users[j1]).username@ != (
            #[trigger] users[j2]).username@,
    ensures
        users_by_name(users.update(k, user), name) == (if name == user.username@ {
            Some(user)
        } else {
            users_by_name(users, name)
        }),
    decreases users.len(),
{
    let updated = users.update(k, user);
    if k == users.len() - 1 {
        assert(updated.last() == user);
        assert(updated.drop_last() =~= users.drop_last());
        if name != user.username@ {
            assert(users.last().username@ == user.username@);
        }
    } else {
        assert(updated.last() == users.last());
        assert(updated.drop_last() =~= users.drop_last().update(k, user));
        assert(users.last().username@ != user.username@);
        lemma_users_by_name_update(users.drop_last(), k, user, name);
    }
}

impl User {
    /// Builds the username-keyed map of a batch of user records, later
    /// records replacing earlier ones with the same username.
    pub fn load_all(users: Vec<User>) -> (r: UserMap)
        ensures
            r.wf(),
            forall|name: Seq<char>| r.spec_get(name) == users_by_name(users@, name),
    {
        crate::users::load_users(users)
    }
}

} // verus!

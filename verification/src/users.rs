//! Loading user records into a username-keyed map.

use vstd::prelude::*;
use crate::data::users::{users_by_name, User, UserMap};

verus! {

/// Builds the username-keyed map of a batch of user records: each record
/// is inserted in order, so a later record replaces an earlier one with
/// the same username.
pub fn load_users(users: Vec<User>) -> (r: UserMap)
    ensures
        r.wf(),
        forall|name: Seq<char>| r.spec_get(name) == users_by_name(users@, name),
{
    let ghost orig = users@;
    let mut remaining = users;
    let mut map = UserMap::new();
    let ghost mut i: int = 0;
    proof {
        assert(orig.take(0) =~= Seq::<User>::empty());
    }
    while remaining.len() > 0
        invariant
            map.wf(),
            0 <= i <= orig.len(),
            remaining@ == orig.skip(i),
            forall|name: Seq<char>|
                #[trigger] map.spec_get(name) == users_by_name(orig.take(i), name),
        decreases remaining@.len(),
    {
        let user = remaining.remove(0);
        proof {
            assert(user == orig[i]);
            assert(remaining@ =~= orig.skip(i + 1));
        }
        map.insert(user);
        proof {
            assert(orig.take(i + 1).last() == orig[i]);
            assert(orig.take(i + 1).drop_last() =~= orig.take(i));
            i = i + 1;
        }
    }
    proof {
        assert(orig.take(i) =~= orig);
    }
    map
}

} // verus!

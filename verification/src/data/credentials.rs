//! Full credentials: salt, stored digest and ordered access rules.
//!
//! Rule evaluation is first-match: the first rule whose service is `*`
//! or equals the requested service decides, and no match denies.

use vstd::prelude::*;
use crate::credentials::{eq_ignore_ascii_case_spec, eq_ignore_case, get_hash, sha256_hex};
use crate::data::users::{AccessControl, AccessControlKind};
use crate::text::str_equal;
use vstd::string::StringExecFns;

verus! {

/// Whether one rule applies to a service name.
pub open spec fn rule_matches(rule: AccessControl, service: Seq<char>) -> bool {
    rule.service@ == "*"@ || rule.service@ == service
}

/// First-match evaluation of an ordered rule list: the first applicable
/// rule decides, and an empty or exhausted list denies.
pub open spec fn allowed_spec(acl: Seq<AccessControl>, service: Seq<char>) -> bool
    decreases acl.len(),
{
    if acl.len() == 0 {
        false
    } else if rule_matches(acl.first(), service) {
        acl.first().control is Allow
    } else {
        allowed_spec(acl.drop_first(), service)
    }
}

/// A credential record with its ordered access rules.
#[derive(Clone, Debug)]
pub struct Credentials {
    pub id: String,
    pub salt: String,
    pub pwhash: String,
    pub acl: Vec<AccessControl>,
}

impl Credentials {
    /// The presented password is the one this credential was built for.
    pub open spec fn password_matches(self, secret: Seq<char>, password: Seq<char>) -> bool {
        eq_ignore_ascii_case_spec(self.pwhash@, sha256_hex(secret + self.salt@ + password))
    }

    /// Both checks of an authentication call pass: the password digest
    /// matches and the rules allow the service.
    pub open spec fn auth_outcome(
        self,
        secret: Seq<char>,
        password: Seq<char>,
        service: Seq<char>,
    ) -> bool {
        self.password_matches(secret, password) && allowed_spec(self.acl@, service)
    }

    /// Recomputes the digest of `secret ‖ salt ‖ password` and compares
    /// it with the stored digest, ignoring ASCII case.
    pub fn verify(&self, secret: &str, password: &str) -> (r: bool)
        ensures
            r == self.password_matches(secret@, password@),
    {
        let mut plain = secret.to_owned();
        plain.append(self.salt.as_str());
        plain.append(password);
        let pwhash = get_hash(plain.as_str());
        eq_ignore_case(self.pwhash.as_str(), pwhash.as_str())
    }

    /// Evaluates the access rules against a service name, first match
    /// deciding.
    pub fn allowed(&self, service: &str) -> (r: bool)
        ensures
            r == allowed_spec(self.acl@, service@),
    {
        let n = self.acl.len();
        proof {
            assert(self.acl@.skip(0) =~= self.acl@);
        }
        let mut k: usize = 0;
        while k < n
            invariant
                k <= n,
                n == self.acl@.len(),
                allowed_spec(self.acl@, service@) == allowed_spec(self.acl@.skip(k as int), service@),
            decreases n - k,
        {
            proof {
                assert(self.acl@.skip(k as int).first() == self.acl@[k as int]);
                assert(self.acl@.skip(k as int).drop_first() =~= self.acl@.skip(k + 1));
            }
            let rule = &self.acl[k];
            if str_equal(rule.service.as_str(), "*") || str_equal(rule.service.as_str(), service) {
                return match rule.control {
                    AccessControlKind::Allow => true,
                    AccessControlKind::Deny => false,
                };
            }
            k = k + 1;
        }
        proof {
            assert(self.acl@.skip(n as int) =~= Seq::<AccessControl>::empty());
        }
        false
    }
}

/// A credential with a matching password digest verifies, and is
/// authenticated for every service its rules allow; one whose digest
/// does not match is refused whatever the service.
pub proof fn lemma_verify_decides(
    c: Credentials,
    secret: Seq<char>,
    password: Seq<char>,
    service: Seq<char>,
)
    ensures
        c.password_matches(secret, password) && allowed_spec(c.acl@, service) ==> c.auth_outcome(
            secret,
            password,
            service,
        ),
        !c.password_matches(secret, password) ==> !c.auth_outcome(secret, password, service),
{
}

/// First-match precedence, denying side: when the first of two rules
/// denies every service, the service the second rule would allow is
/// still denied.
pub proof fn lemma_first_match_deny(acl: Seq<AccessControl>, service: Seq<char>)
    requires
        acl.len() == 2,
        acl[0].control is Deny,
        acl[0].service@ == "*"@,
        acl[1].control is Allow,
        acl[1].service@ == service,
    ensures
        !allowed_spec(acl, service),
{
    assert(rule_matches(acl.first(), service));
}

/// First-match precedence, allowing side: when the first of two rules
/// allows the service, a second rule that denies every service does not
/// retract it.
pub proof fn lemma_first_match_allow(acl: Seq<AccessControl>, service: Seq<char>)
    requires
        acl.len() == 2,
        acl[0].control is Allow,
        acl[0].service@ == service,
        acl[1].control is Deny,
        acl[1].service@ == "*"@,
    ensures
        allowed_spec(acl, service),
{
    assert(rule_matches(acl.first(), service));
}

} // verus!

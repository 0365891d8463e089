//! Credential verification cache and the verification flow around it.
//!
//! The cache sits in front of the durable credential store: every
//! authentication call first asks the cache, and only on a miss (or an
//! expired entry) does the caller fetch from the store and populate the
//! cache with a fresh expiry. An entry past its expiry is treated as
//! absent, never served stale.
//!
//! Freshness rests on the entry lifetime alone: a credential updated in
//! the store keeps being served from the cache until its entry expires.
//! Whether the administrative subsystem should instead invalidate on
//! write is an open question; callers that need it can bound the window
//! with a short lifetime.

use vstd::prelude::*;
use crate::data::credentials::Credentials;
use crate::text::str_equal;

verus! {

/// A cached credential together with the instant (in the caller's clock)
/// at which it ceases to be served.
pub struct CacheEntry {
    pub cred: Credentials,
    pub expires_at: u64,
}

/// The entry a sequence of cache writes leaves for an id: the last write
/// wins.
pub open spec fn cache_lookup(entries: Seq<CacheEntry>, id: Seq<char>) -> Option<CacheEntry>
    decreases entries.len(),
{
    if entries.len() == 0 {
        None
    } else if entries.last().cred.id@ == id {
        Some(entries.last())
    } else {
        cache_lookup(entries.drop_last(), id)
    }
}

/// Key-value cache of credentials with per-entry expiry.
pub struct CredentialCache {
    entries: Vec<CacheEntry>,
}

impl CredentialCache {
    /// The credential served for an id at an instant: the stored entry,
    /// unless it is missing or expired.
    pub closed spec fn spec_get(self, id: Seq<char>, now: u64) -> Option<Credentials> {
        match cache_lookup(self.entries@, id) {
            Some(e) => if now < e.expires_at {
                Some(e.cred)
            } else {
                None
            },
            None => None,
        }
    }

    /// No two entries cache the same id.
    pub closed spec fn wf(self) -> bool {
        forall|k1: int, k2: int|
            0 <= k1 < k2 < self.entries@.len() ==> (#[trigger] self.entries@[k1]).cred.id@ != (
            #[trigger] self.entries@[k2]).cred.id@
    }

    /// An empty cache.
    pub fn new() -> (r: Self)
        ensures
            r.wf(),
            forall|id: Seq<char>, now: u64| r.spec_get(id, now) is None,
    {
        CredentialCache { entries: Vec::new() }
    }

    /// Serves the credential cached for `id`, unless the entry is
    /// missing or has expired by `now`.
    pub fn get(&self, id: &str, now: u64) -> (r: Option<&Credentials>)
        ensures
            match r {
                Some(c) => self.spec_get(id@, now) == Some(*c),
                None => self.spec_get(id@, now) is None,
            },
    {
        let n = self.entries.len();
        let mut k = n;
        while k > 0
            invariant
                k <= n,
                n == self.entries@.len(),
                cache_lookup(self.entries@.take(n as int), id@) == cache_lookup(
                    self.entries@.take(k as int),
                    id@,
                ),
            decreases k,
        {
            proof {
                assert(self.entries@.take(k as int).last() == self.entries@[k - 1]);
                assert(self.entries@.take(k as int).drop_last() =~= self.entries@.take(k - 1));
            }
            k = k - 1;
            let entry = &self.entries[k];
            if str_equal(entry.cred.id.as_str(), id) {
                proof {
                    assert(cache_lookup(self.entries@.take(k + 1), id@) == Some(
                        self.entries@[k as int],
                    ));
                    assert(self.entries@.take(n as int) =~= self.entries@);
                }
                if now < entry.expires_at {
                    return Some(&entry.cred);
                } else {
                    return None;
                }
            }
        }
        proof {
            assert(self.entries@.take(0) =~= Seq::<CacheEntry>::empty());
            assert(self.entries@.take(n as int) =~= self.entries@);
        }
        None
    }

    /// Writes a credential into the cache with the given expiry,
    /// replacing any entry already cached for the same id.
    pub fn set(&mut self, cred: Credentials, expires_at: u64)
        requires
            old(self).wf(),
        ensures
            final(self).wf(),
            forall|id: Seq<char>, t: u64|
                final(self).spec_get(id, t) == (if id == cred.id@ {
                    if t < expires_at {
                        Some(cred)
                    } else {
                        None
                    }
                } else {
                    old(self).spec_get(id, t)
                }),
    {
        let ghost gcred = cred;
        let entry = CacheEntry { cred, expires_at };
        let ghost new_entry = entry;
        let n = self.entries.len();
        let mut k: usize = 0;
        while k < n
            invariant
                k <= n,
                n == self.entries@.len(),
                self.entries@ == old(self).entries@,
                old(self).wf(),
                entry == new_entry,
                new_entry.cred == gcred,
                gcred == cred,
                new_entry.expires_at == expires_at,
                forall|j: int|
                    0 <= j < k ==> (#[trigger] self.entries@[j]).cred.id@ != new_entry.cred.id@,
            decreases n - k,
        {
            if str_equal(self.entries[k].cred.id.as_str(), entry.cred.id.as_str()) {
                let ghost prev = self.entries@;
                self.entries[k] = entry;
                proof {
                    let cur = self.entries@;
                    assert(cur == prev.update(k as int, new_entry));
                    assert forall|id: Seq<char>|
                        cache_lookup(cur, id) == (if id == new_entry.cred.id@ {
                            Some(new_entry)
                        } else {
                            cache_lookup(prev, id)
                        }) by {
                        lemma_cache_lookup_update(prev, k as int, new_entry, id);
                    }
                    assert(final(self).wf()) by {
                        assert(forall|j: int| 0 <= j < cur.len() && j != k ==> cur[j] == prev[j]);
                        assert(forall|j: int|
                            0 <= j < cur.len() ==> (#[trigger] cur[j]).cred.id@
                                == prev[j].cred.id@);
                    }
                    assert forall|id: Seq<char>, t: u64|
                        final(self).spec_get(id, t) == (if id == gcred.id@ {
                            if t < expires_at {
                                Some(gcred)
                            } else {
                                None
                            }
                        } else {
                            old(self).spec_get(id, t)
                        }) by {
                        assert(cache_lookup(cur, id) == (if id == new_entry.cred.id@ {
                            Some(new_entry)
                        } else {
                            cache_lookup(prev, id)
                        }));
                    }
                }
                return ;
            }
            k = k + 1;
        }
        let ghost prev = self.entries@;
        self.entries.push(entry);
        proof {
            assert(self.entries@.drop_last() =~= prev);
            assert(self.entries@.last() == new_entry);
            assert forall|id: Seq<char>|
                cache_lookup(self.entries@, id) == (if id == new_entry.cred.id@ {
                    Some(new_entry)
                } else {
                    cache_lookup(prev, id)
                }) by {
            }
            assert(final(self).wf()) by {
                assert(forall|j: int| 0 <= j < prev.len() ==> self.entries@[j] == prev[j]);
                assert(forall|j: int|
                    0 <= j < prev.len() ==> (#[trigger] prev[j]).cred.id@ != new_entry.cred.id@);
            }
            assert forall|id: Seq<char>, t: u64|
                final(self).spec_get(id, t) == (if id == gcred.id@ {
                    if t < expires_at {
                        Some(gcred)
                    } else {
                        None
                    }
                } else {
                    old(self).spec_get(id, t)
                }) by {
                assert(cache_lookup(self.entries@, id) == (if id == new_entry.cred.id@ {
                    Some(new_entry)
                } else {
                    cache_lookup(prev, id)
                }));
            }
        }
    }
}

/// Replacing the unique entry cached for an id leaves every other id's
/// lookup unchanged and rebinds that one id.
proof fn lemma_cache_lookup_update(entries: Seq<CacheEntry>, k: int, entry: CacheEntry, id: Seq<char>)
    requires
        0 <= k < entries.len(),
        entries[k].cred.id@ == entry.cred.id@,
        forall|j1: int, j2: int|
            0 <= j1 < j2 < entries.len() ==> (#[trigger] entries[j1]).cred.id@ != (
            #[trigger] entries[j2]).cred.id@,
    ensures
        cache_lookup(entries.update(k, entry), id) == (if id == entry.cred.id@ {
            Some(entry)
        } else {
            cache_lookup(entries, id)
        }),
    decreases entries.len(),
{
    let updated = entries.update(k, entry);
    if k == entries.len() - 1 {
        assert(updated.last() == entry);
        assert(updated.drop_last() =~= entries.drop_last());
        if id != entry.cred.id@ {
            assert(entries.last().cred.id@ == entry.cred.id@);
        }
    } else {
        assert(updated.last() == entries.last());
        assert(updated.drop_last() =~= entries.drop_last().update(k, entry));
        assert(entries.last().cred.id@ != entry.cred.id@);
        lemma_cache_lookup_update(entries.drop_last(), k, entry, id);
    }
}

/// The verification flow of the authentication service: a shared
/// credential cache, the service-wide password secret, and the lifetime
/// given to cache entries.
pub struct Authenticator {
    pub cache: CredentialCache,
    pub secret: String,
    pub lifetime: u64,
}

impl Authenticator {
    /// What a cache consultation at `now` answers: the decision for a
    /// cached credential, or nothing on a miss.
    pub open spec fn cache_outcome(
        self,
        user_id: Seq<char>,
        password: Seq<char>,
        service: Seq<char>,
        now: u64,
    ) -> Option<bool> {
        match self.cache.spec_get(user_id, now) {
            Some(cred) => Some(cred.auth_outcome(self.secret@, password, service)),
            None => None,
        }
    }

    /// A new authenticator with an empty cache.
    pub fn new(secret: String, lifetime: u64) -> (r: Self)
        ensures
            r.cache.wf(),
            r.secret == secret,
            r.lifetime == lifetime,
            forall|id: Seq<char>, now: u64| r.cache.spec_get(id, now) is None,
    {
        Authenticator { cache: CredentialCache::new(), secret, lifetime }
    }

    /// Answers an authentication call from the cache alone. `None`
    /// means a miss (or an expired entry): the caller must fetch the
    /// credential from the durable store and continue with
    /// [`Authenticator::verify_fetched`].
    pub fn verify_cached(&self, user_id: &str, password: &str, service: &str, now: u64) -> (r:
        Option<bool>)
        ensures
            r == self.cache_outcome(user_id@, password@, service@, now),
    {
        match self.cache.get(user_id, now) {
            Some(cred) => {
                let pw_ok = cred.verify(self.secret.as_str(), password);
                let svc_ok = cred.allowed(service);
                Some(pw_ok && svc_ok)
            },
            None => None,
        }
    }

    /// Continues an authentication call after a cache miss with what the
    /// durable store answered. A found credential is written into the
    /// cache with a fresh expiry and then decides the call; an unknown
    /// user denies without touching the cache.
    pub fn verify_fetched(
        &mut self,
        fetched: Option<Credentials>,
        password: &str,
        service: &str,
        now: u64,
    ) -> (r: bool)
        requires
            old(self).cache.wf(),
            now + old(self).lifetime <= u64::MAX,
        ensures
            final(self).cache.wf(),
            final(self).secret == old(self).secret,
            final(self).lifetime == old(self).lifetime,
            match fetched {
                Some(cred) => r == cred.auth_outcome(old(self).secret@, password@, service@)
                    && forall|id: Seq<char>, t: u64|
                    final(self).cache.spec_get(id, t) == (if id == cred.id@ {
                        if t < now + old(self).lifetime {
                            Some(cred)
                        } else {
                            None
                        }
                    } else {
                        old(self).cache.spec_get(id, t)
                    }),
                None => r == false && final(self).cache == old(self).cache,
            },
    {
        match fetched {
            Some(cred) => {
                let pw_ok = cred.verify(self.secret.as_str(), password);
                let svc_ok = cred.allowed(service);
                let expires_at = now + self.lifetime;
                self.cache.set(cred, expires_at);
                pw_ok && svc_ok
            },
            None => false,
        }
    }
}

/// Cache population is idempotent: once a credential is cached, a hit
/// served for it decides exactly as the call that fetched it from the
/// store did, for identical inputs.
pub proof fn lemma_cache_idempotent(
    a: Authenticator,
    cred: Credentials,
    password: Seq<char>,
    service: Seq<char>,
    now: u64,
)
    requires
        a.cache.spec_get(cred.id@, now) == Some(cred),
    ensures
        a.cache_outcome(cred.id@, password, service, now) == Some(
            cred.auth_outcome(a.secret@, password, service),
        ),
{
}

} // verus!

use min_auth::cache::Authenticator;
use min_auth::credentials::{get_hash, Credential};
use min_auth::data::credentials::Credentials;
use min_auth::data::users::{AccessControl, AccessControlKind};

fn access(control: AccessControlKind, service: &str) -> AccessControl {
    AccessControl { control, service: service.to_string() }
}

#[test]
fn digest_known_vector() {
    // the SHA-256 digest of "abc", hex-encoded
    assert_eq!(
        get_hash("abc"),
        "ba7816bf8f01cfea414140de5dae2223b00361a396177a9cb410ff61f20015ad".to_string()
    );
    assert_eq!(get_hash("").len(), 64);
    assert_ne!(get_hash("abc"), get_hash("abd"));
}

#[test]
fn credential_verify_end_to_end() {
    // salt "s1", secret "sec", password "pw": the stored digest is the
    // digest of "sec" + "s1" + "pw"
    let pwhash = get_hash("secs1pw");
    let cred = Credential {
        id: "user-1".to_string(),
        salt: "s1".to_string(),
        pwhash: pwhash.clone(),
    };
    let secret = "sec".to_string();
    assert!(cred.verify(&secret, "pw"));
    assert!(!cred.verify(&secret, "wrong"));

    let with_acl = Credentials {
        id: "user-1".to_string(),
        salt: "s1".to_string(),
        pwhash,
        acl: vec![access(AccessControlKind::Allow, "svc")],
    };
    assert!(with_acl.verify("sec", "pw"));
    assert!(!with_acl.verify("sec", "wrong"));
    assert!(with_acl.allowed("svc"));
}

#[test]
fn credential_verify_ignores_digest_case() {
    let upper = get_hash("secs1pw").to_uppercase();
    let cred = Credential {
        id: "user-1".to_string(),
        salt: "s1".to_string(),
        pwhash: upper,
    };
    let secret = "sec".to_string();
    assert!(cred.verify(&secret, "pw"));
}

#[test]
fn access_rules_first_match_both_ways() {
    let base = Credentials {
        id: "user-1".to_string(),
        salt: "s1".to_string(),
        pwhash: "00".to_string(),
        acl: vec![],
    };

    let deny_first = Credentials {
        acl: vec![
            access(AccessControlKind::Deny, "*"),
            access(AccessControlKind::Allow, "svc"),
        ],
        ..base
    };
    assert!(!deny_first.allowed("svc"));

    let allow_first = Credentials {
        id: "user-1".to_string(),
        salt: "s1".to_string(),
        pwhash: "00".to_string(),
        acl: vec![
            access(AccessControlKind::Allow, "svc"),
            access(AccessControlKind::Deny, "*"),
        ],
    };
    assert!(allow_first.allowed("svc"));
    assert!(!allow_first.allowed("other"));

    let empty = Credentials {
        id: "user-1".to_string(),
        salt: "s1".to_string(),
        pwhash: "00".to_string(),
        acl: vec![],
    };
    assert!(!empty.allowed("svc"));
}

#[test]
fn cache_population_is_idempotent() {
    let cred = Credentials {
        id: "user-1".to_string(),
        salt: "s1".to_string(),
        pwhash: get_hash("secs1pw"),
        acl: vec![access(AccessControlKind::Allow, "svc")],
    };

    let mut auth = Authenticator::new("sec".to_string(), 600);

    // first call: a miss, then the store's answer decides and populates
    assert_eq!(auth.verify_cached("user-1", "pw", "svc", 1000), None);
    let first = auth.verify_fetched(Some(cred), "pw", "svc", 1000);

    // second call, identical inputs, within the entry's lifetime: a hit
    // with the same outcome
    let second = auth.verify_cached("user-1", "pw", "svc", 1500);
    assert_eq!(second, Some(first));
    assert!(first);

    // past the expiry the entry is treated as absent, never served stale
    assert_eq!(auth.verify_cached("user-1", "pw", "svc", 1600), None);
}

#[test]
fn cache_refresh_replaces_the_entry() {
    let old_cred = Credentials {
        id: "user-1".to_string(),
        salt: "s1".to_string(),
        pwhash: get_hash("secs1old"),
        acl: vec![access(AccessControlKind::Allow, "svc")],
    };
    let new_cred = Credentials {
        id: "user-1".to_string(),
        salt: "s1".to_string(),
        pwhash: get_hash("secs1new"),
        acl: vec![access(AccessControlKind::Allow, "svc")],
    };

    let mut auth = Authenticator::new("sec".to_string(), 600);
    assert!(auth.verify_fetched(Some(old_cred), "old", "svc", 1000));

    // after the entry expires, a refresh writes the store's newer record
    assert_eq!(auth.verify_cached("user-1", "new", "svc", 1700), None);
    assert!(auth.verify_fetched(Some(new_cred), "new", "svc", 1700));

    // the refreshed entry decides, under its own expiry
    assert_eq!(auth.verify_cached("user-1", "new", "svc", 1800), Some(true));
    assert_eq!(auth.verify_cached("user-1", "old", "svc", 1800), Some(false));
}

#[test]
fn unknown_user_denies_without_caching() {
    let mut auth = Authenticator::new("sec".to_string(), 600);
    assert!(!auth.verify_fetched(None, "pw", "svc", 1000));
    assert_eq!(auth.verify_cached("user-1", "pw", "svc", 1001), None);
}

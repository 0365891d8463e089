use min_auth::data::users::{AccessControl, AccessControlKind, User};
use min_auth::users::load_users;

fn access(control: AccessControlKind, service: &str) -> AccessControl {
    AccessControl { control, service: service.to_string() }
}

fn foo1() -> User {
    User {
        id: "Foo1".to_string(),
        username: "Foo1 Foo1".to_string(),
        email: "foo1@example.com".to_string(),
        salt: "foo1 salt".to_string(),
        password_hash: "foo1 hash".to_string(),
        pubkey_fpr: "foo1 fpr".to_string(),
        superuser: true,
        acl: vec![
            access(AccessControlKind::Allow, "service 1"),
            access(AccessControlKind::Deny, "*"),
        ],
    }
}

fn foo2() -> User {
    User {
        id: "Foo2".to_string(),
        username: "Foo2 Foo2".to_string(),
        email: "foo2@example.com".to_string(),
        salt: "foo2 salt".to_string(),
        password_hash: "foo2 hash".to_string(),
        pubkey_fpr: "foo2 fpr".to_string(),
        superuser: false,
        acl: vec![
            access(AccessControlKind::Allow, "service 1"),
            access(AccessControlKind::Allow, "service 2"),
            access(AccessControlKind::Deny, "*"),
        ],
    }
}

fn bar() -> User {
    User {
        id: "Bar".to_string(),
        username: "Bar Bar".to_string(),
        email: "bar@example.com".to_string(),
        salt: "bar salt".to_string(),
        password_hash: "bar hash".to_string(),
        pubkey_fpr: "bar fpr".to_string(),
        superuser: false,
        acl: vec![access(AccessControlKind::Allow, "*")],
    }
}

fn baz() -> User {
    User {
        id: "Baz".to_string(),
        username: "Baz Baz".to_string(),
        email: "baz@example.com".to_string(),
        salt: "baz salt".to_string(),
        password_hash: "baz hash".to_string(),
        pubkey_fpr: "baz fpr".to_string(),
        superuser: false,
        acl: vec![access(AccessControlKind::Deny, "*")],
    }
}

#[test]
fn users_test_load_user() {
    let users = User::load_all(vec![foo1()]);
    let user = users.get("Foo1 Foo1").unwrap();
    assert_eq!(user.id, "Foo1".to_string());
    assert_eq!(user.username, "Foo1 Foo1".to_string());
    assert_eq!(user.email, "foo1@example.com".to_string());
    assert_eq!(user.salt, "foo1 salt".to_string());
    assert_eq!(user.password_hash, "foo1 hash".to_string());
    assert_eq!(user.pubkey_fpr, "foo1 fpr".to_string());
    assert_eq!(user.superuser, true);
    assert_eq!(user.acl.len(), 2);
    assert_eq!(user.acl[0].control, AccessControlKind::Allow);
    assert_eq!(user.acl[0].service, "service 1".to_string());
    assert_eq!(user.acl[1].control, AccessControlKind::Deny);
    assert_eq!(user.acl[1].service, "*".to_string());
}

#[test]
fn users_test_load_users() {
    let users = load_users(vec![foo1(), foo2(), bar(), baz()]);
    assert_eq!(users.len(), 4);

    let user = users.get("Foo1 Foo1").unwrap();
    assert_eq!(user.id, "Foo1".to_string());
    assert_eq!(user.username, "Foo1 Foo1".to_string());
    assert_eq!(user.email, "foo1@example.com".to_string());
    assert_eq!(user.salt, "foo1 salt".to_string());
    assert_eq!(user.password_hash, "foo1 hash".to_string());
    assert_eq!(user.pubkey_fpr, "foo1 fpr".to_string());
    assert_eq!(user.superuser, true);
    assert_eq!(user.acl.len(), 2);
    assert_eq!(user.acl[0].control, AccessControlKind::Allow);
    assert_eq!(user.acl[0].service, "service 1".to_string());
    assert_eq!(user.acl[1].control, AccessControlKind::Deny);
    assert_eq!(user.acl[1].service, "*".to_string());

    let user = users.get("Foo2 Foo2").unwrap();
    assert_eq!(user.id, "Foo2".to_string());
    assert_eq!(user.username, "Foo2 Foo2".to_string());
    assert_eq!(user.email, "foo2@example.com".to_string());
    assert_eq!(user.salt, "foo2 salt".to_string());
    assert_eq!(user.password_hash, "foo2 hash".to_string());
    assert_eq!(user.pubkey_fpr, "foo2 fpr".to_string());
    assert_eq!(user.superuser, false);
    assert_eq!(user.acl.len(), 3);
    assert_eq!(user.acl[0].control, AccessControlKind::Allow);
    assert_eq!(user.acl[0].service, "service 1".to_string());
    assert_eq!(user.acl[1].control, AccessControlKind::Allow);
    assert_eq!(user.acl[1].service, "service 2".to_string());
    assert_eq!(user.acl[2].control, AccessControlKind::Deny);
    assert_eq!(user.acl[2].service, "*".to_string());

    let user = users.get("Bar Bar").unwrap();
    assert_eq!(user.id, "Bar".to_string());
    assert_eq!(user.username, "Bar Bar".to_string());
    assert_eq!(user.email, "bar@example.com".to_string());
    assert_eq!(user.salt, "bar salt".to_string());
    assert_eq!(user.password_hash, "bar hash".to_string());
    assert_eq!(user.pubkey_fpr, "bar fpr".to_string());
    assert_eq!(user.superuser, false);
    assert_eq!(user.acl.len(), 1);
    assert_eq!(user.acl[0].control, AccessControlKind::Allow);
    assert_eq!(user.acl[0].service, "*".to_string());

    let user = users.get("Baz Baz").unwrap();
    assert_eq!(user.id, "Baz".to_string());
    assert_eq!(user.username, "Baz Baz".to_string());
    assert_eq!(user.email, "baz@example.com".to_string());
    assert_eq!(user.salt, "baz salt".to_string());
    assert_eq!(user.password_hash, "baz hash".to_string());
    assert_eq!(user.pubkey_fpr, "baz fpr".to_string());
    assert_eq!(user.superuser, false);
    assert_eq!(user.acl.len(), 1);
    assert_eq!(user.acl[0].control, AccessControlKind::Deny);
    assert_eq!(user.acl[0].service, "*".to_string());
}

#[test]
fn users_replacement_keeps_last_record() {
    let mut renamed = foo1();
    renamed.email = "changed@example.com".to_string();
    let users = load_users(vec![foo1(), renamed]);
    assert_eq!(users.len(), 1);
    assert_eq!(users.get("Foo1 Foo1").unwrap().email, "changed@example.com".to_string());
    assert!(users.get("missing").is_none());
}

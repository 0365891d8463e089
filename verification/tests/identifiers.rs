use min_auth::error::Error;
use min_auth::genid::genid as genid58;
use min_auth::threadid::ThreadContext;
use min_auth::utils::genid::genid as genid35;

#[test]
fn thread_tag_is_stable() {
    // a context draws its tag once; every read returns the same value
    let ctx = ThreadContext::new();
    let first = ctx.tag();
    for _ in 0..10 {
        assert_eq!(ctx.tag(), first);
    }
}

#[test]
fn genid58_distinct_and_fixed_length() {
    let ctx = ThreadContext::new();
    let sz = 100;
    let ids: Vec<String> = (0..sz).map(|_| genid58(&ctx)).collect();
    for i in 1..sz {
        for j in 0..i {
            assert_eq!(ids[i].len(), 24);
            assert_eq!(ids[j].len(), 24);
            assert_ne!(ids[i], ids[j]);
        }
    }
}

#[test]
fn genid58_uses_the_base58_alphabet() {
    let alphabet = "123456789ABCDEFGHJKLMNPQRSTUVWXYZabcdefghijkmnopqrstuvwxyz";
    let ctx = ThreadContext::new();
    for _ in 0..20 {
        let id = genid58(&ctx);
        assert!(id.chars().all(|c| alphabet.contains(c)));
    }
}

#[test]
fn genid35_distinct_and_fixed_length() {
    let ctx = ThreadContext::new();
    let sz = 100;
    let ids: Vec<String> = (0..sz).map(|_| genid35(&ctx)).collect();
    for i in 1..sz {
        for j in 0..i {
            assert_eq!(ids[i].len(), 27);
            assert_eq!(ids[j].len(), 27);
            assert_ne!(ids[i], ids[j]);
        }
    }
}

#[test]
fn genid35_uses_the_base35_alphabet() {
    let alphabet = "0123456789abcdefghijkmnopqrstuvwxyz";
    let ctx = ThreadContext::new();
    for _ in 0..20 {
        let id = genid35(&ctx);
        assert!(id.chars().all(|c| alphabet.contains(c)));
    }
}

#[test]
fn error_carries_message_and_source() {
    let e = Error::new("request renew-1 was not found");
    assert_eq!(e.message(), "request renew-1 was not found");
    assert_eq!(e.source(), "min_auth::error::Error");
}

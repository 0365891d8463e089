use min_auth::dispatch::{
    dispatch, workspace_dir, DispatchError, RequestPayload, RequestRow, RequestState, RequestTable,
    RequestType, RenewPasswordRequest, CreateUserRequest,
};
use min_auth::text::u64_to_string;

fn renew_row(id: &str, rand: u64) -> RequestRow {
    RequestRow {
        id: id.to_string(),
        issuer_id: "issuer-1".to_string(),
        request_type: RequestType::RenewPasswordRequest,
        state: RequestState::New,
        rand,
        created_by: "admin".to_string(),
        created_at: 100,
        updated_by: "admin".to_string(),
        updated_at: 100,
    }
}

fn renew_payload(id: &str) -> RequestPayload {
    RequestPayload::RenewPassword(RenewPasswordRequest {
        id: id.to_string(),
        user_id: "user-1".to_string(),
        created_by: "admin".to_string(),
        created_at: 100,
    })
}

#[test]
fn renew_password_dispatch_end_to_end() {
    // a New request with randomTag 7 and 4 workers dispatches to worker 3
    let mut table = RequestTable {
        rows: vec![renew_row("renew-1", 7)],
        payloads: vec![renew_payload("renew-1")],
    };
    let plan = dispatch(&mut table, "renew-1", 4, "dispatcher", 200).unwrap();
    assert_eq!(plan.worker_index, 3);
    assert_eq!(plan.workspace_dir, "3/renew-1".to_string());
    match &plan.payload {
        RequestPayload::RenewPassword(p) => {
            assert_eq!(p.id, "renew-1".to_string());
            assert_eq!(p.user_id, "user-1".to_string());
        }
        _ => panic!("the plan must carry the request's own payload"),
    }
    assert_eq!(table.rows[0].state, RequestState::InProgress);
    assert_eq!(table.rows[0].updated_by, "dispatcher".to_string());
    assert_eq!(table.rows[0].updated_at, 200);
    // the random tag never changes, so a retry would compute the same index
    assert_eq!(table.rows[0].rand, 7);
}

#[test]
fn dispatch_is_exactly_once() {
    let mut table = RequestTable {
        rows: vec![renew_row("renew-1", 7)],
        payloads: vec![renew_payload("renew-1")],
    };
    let first = dispatch(&mut table, "renew-1", 4, "dispatcher", 200);
    let second = dispatch(&mut table, "renew-1", 4, "dispatcher", 201);
    assert!(first.is_ok());
    assert_eq!(second.unwrap_err(), DispatchError::Conflict);
}

#[test]
fn dispatch_unknown_request_conflicts() {
    let mut table = RequestTable { rows: vec![], payloads: vec![] };
    assert_eq!(
        dispatch(&mut table, "missing", 4, "dispatcher", 200).unwrap_err(),
        DispatchError::Conflict
    );
}

#[test]
fn dispatch_without_payload_is_inconsistent() {
    let mut table = RequestTable { rows: vec![renew_row("renew-1", 7)], payloads: vec![] };
    assert_eq!(
        dispatch(&mut table, "renew-1", 4, "dispatcher", 200).unwrap_err(),
        DispatchError::Inconsistent
    );
    // the failed attempt left the row untouched and eligible for a retry
    assert_eq!(table.rows[0].state, RequestState::New);
}

#[test]
fn dispatch_requires_matching_payload_type() {
    // a payload row of the wrong type does not satisfy the join
    let wrong = RequestPayload::CreateUser(CreateUserRequest {
        id: "renew-1".to_string(),
        username: "u".to_string(),
        email: "u@example.com".to_string(),
        pubkey: vec![1, 2, 3],
        created_by: "admin".to_string(),
        created_at: 100,
    });
    let mut table = RequestTable { rows: vec![renew_row("renew-1", 7)], payloads: vec![wrong] };
    assert_eq!(
        dispatch(&mut table, "renew-1", 4, "dispatcher", 200).unwrap_err(),
        DispatchError::Inconsistent
    );
}

#[test]
fn assignment_is_stable_across_retries() {
    let mut t1 = RequestTable {
        rows: vec![renew_row("renew-1", 12345)],
        payloads: vec![renew_payload("renew-1")],
    };
    // the same immutable tag gives the same index on a fresh table, as
    // after a rolled-back attempt
    let mut t2 = RequestTable {
        rows: vec![renew_row("renew-1", 12345)],
        payloads: vec![renew_payload("renew-1")],
    };
    let w1 = dispatch(&mut t1, "renew-1", 7, "a", 1).unwrap().worker_index;
    let w2 = dispatch(&mut t2, "renew-1", 7, "b", 2).unwrap().worker_index;
    assert_eq!(w1, w2);
    assert_eq!(w1, 12345 % 7);
}

#[test]
fn workspace_paths_partition_workers() {
    assert_eq!(workspace_dir(3, "renew-1"), "3/renew-1".to_string());
    assert_eq!(workspace_dir(0, "x"), "0/x".to_string());
    assert_eq!(workspace_dir(12, "req"), "12/req".to_string());
}

#[test]
fn decimal_numerals() {
    assert_eq!(u64_to_string(0), "0".to_string());
    assert_eq!(u64_to_string(42), "42".to_string());
    assert_eq!(u64_to_string(10), "10".to_string());
    assert_eq!(u64_to_string(u64::MAX), "18446744073709551615".to_string());
}

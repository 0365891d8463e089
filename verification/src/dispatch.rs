//! The request dispatcher: claims one pending account-change request,
//! computes its worker assignment, materializes its payload into a
//! per-worker workspace plan, and transitions the request's state — as
//! one atomic step against the request table.
//!
//! The table here is the in-memory image of the durable, lockable
//! request store; the caller runs the claim inside the store's own
//! transaction and row lock, applies the returned plan to the
//! filesystem, and commits. To keep the claim atomic end to end, the
//! plan's files should be written to a staging path and renamed into
//! the final workspace only once the commit is durable; payloads are
//! immutable, so re-materializing after a crash is safe.

use vstd::prelude::*;
use crate::text::{dec_digits, str_equal, u64_to_string};
use vstd::string::StringExecFns;

verus! {

/// The lifecycle state of a request: created `New`, claimed into
/// `InProgress` by exactly one dispatch, finished by the external
/// worker.
#[derive(Clone, Copy, Debug, PartialEq, Eq, Structural)]
pub enum RequestState {
    New,
    InProgress,
    Succeeded,
    Failed,
}

/// Which account-lifecycle operation a request asks for.
#[derive(Clone, Copy, Debug, PartialEq, Eq, Structural)]
pub enum RequestType {
    CreateUserRequest,
    ChangePubkeyRequest,
    RenewPasswordRequest,
}

/// Payload of a user-creation request.
#[derive(Debug)]
pub struct CreateUserRequest {
    pub id: String,
    pub username: String,
    pub email: String,
    pub pubkey: Vec<u8>,
    pub created_by: String,
    pub created_at: u64,
}

/// Payload of a public-key rotation request.
#[derive(Debug)]
pub struct ChangePubkeyRequest {
    pub id: String,
    pub user_id: String,
    pub pubkey: Vec<u8>,
    pub created_by: String,
    pub created_at: u64,
}

/// Payload of a password-reset request.
#[derive(Debug)]
pub struct RenewPasswordRequest {
    pub id: String,
    pub user_id: String,
    pub created_by: String,
    pub created_at: u64,
}

/// The payload of a request, keyed by the request's type.
#[derive(Debug)]
pub enum RequestPayload {
    CreateUser(CreateUserRequest),
    ChangePubkey(ChangePubkeyRequest),
    RenewPassword(RenewPasswordRequest),
}

/// The request id a payload row belongs to.
pub open spec fn payload_id(p: RequestPayload) -> Seq<char> {
    match p {
        RequestPayload::CreateUser(x) => x.id@,
        RequestPayload::ChangePubkey(x) => x.id@,
        RequestPayload::RenewPassword(x) => x.id@,
    }
}

/// The request type a payload row belongs to.
pub open spec fn payload_type(p: RequestPayload) -> RequestType {
    match p {
        RequestPayload::CreateUser(_) => RequestType::CreateUserRequest,
        RequestPayload::ChangePubkey(_) => RequestType::ChangePubkeyRequest,
        RequestPayload::RenewPassword(_) => RequestType::RenewPasswordRequest,
    }
}

/// Two payloads hold the same content.
pub open spec fn payload_matches(a: RequestPayload, b: RequestPayload) -> bool {
    match (a, b) {
        (RequestPayload::CreateUser(x), RequestPayload::CreateUser(y)) => x.id@ == y.id@
            && x.username@ == y.username@ && x.email@ == y.email@ && x.pubkey@ == y.pubkey@
            && x.created_by@ == y.created_by@ && x.created_at == y.created_at,
        (RequestPayload::ChangePubkey(x), RequestPayload::ChangePubkey(y)) => x.id@ == y.id@
            && x.user_id@ == y.user_id@ && x.pubkey@ == y.pubkey@ && x.created_by@
            == y.created_by@ && x.created_at == y.created_at,
        (RequestPayload::RenewPassword(x), RequestPayload::RenewPassword(y)) => x.id@ == y.id@
            && x.user_id@ == y.user_id@ && x.created_by@ == y.created_by@ && x.created_at
            == y.created_at,
        _ => false,
    }
}

/// One row of the request table. The random tag is fixed at creation and
/// never changes, so the worker assignment derived from it is stable
/// across retried dispatch attempts.
#[derive(Debug)]
pub struct RequestRow {
    pub id: String,
    pub issuer_id: String,
    pub request_type: RequestType,
    pub state: RequestState,
    pub rand: u64,
    pub created_by: String,
    pub created_at: u64,
    pub updated_by: String,
    pub updated_at: u64,
}

/// The in-memory image of the request store: request rows and the
/// per-type payload rows joined on the request id.
#[derive(Debug)]
pub struct RequestTable {
    pub rows: Vec<RequestRow>,
    pub payloads: Vec<RequestPayload>,
}

/// The first request row carrying an id.
pub open spec fn row_for(rows: Seq<RequestRow>, id: Seq<char>) -> Option<RequestRow>
    decreases rows.len(),
{
    if rows.len() == 0 {
        None
    } else if rows.first().id@ == id {
        Some(rows.first())
    } else {
        row_for(rows.drop_first(), id)
    }
}

/// The first payload row carrying an id and a type.
pub open spec fn payload_for(ps: Seq<RequestPayload>, id: Seq<char>, t: RequestType) -> Option<
    RequestPayload,
>
    decreases ps.len(),
{
    if ps.len() == 0 {
        None
    } else if payload_id(ps.first()) == id && payload_type(ps.first()) == t {
        Some(ps.first())
    } else {
        payload_for(ps.drop_first(), id, t)
    }
}

/// A request can be claimed: its row exists and still waits in `New`.
pub open spec fn claimable(t: RequestTable, id: Seq<char>) -> bool {
    match row_for(t.rows@, id) {
        Some(r) => r.state is New,
        None => false,
    }
}

/// Why a dispatch attempt changed nothing.
#[derive(Clone, Copy, Debug, PartialEq, Eq, Structural)]
pub enum DispatchError {
    /// The request is not claimable: no row with the id waits in `New`
    /// (it is unknown, already claimed, or finished).
    Conflict,
    /// The claimable row has no payload row of its type: the store
    /// violates its own invariant, and the attempt must abort loudly.
    Inconsistent,
}

/// What a successful claim asks the caller to do: write the payload into
/// the workspace directory of the assigned worker, then commit.
#[derive(Debug)]
pub struct DispatchPlan {
    pub worker_index: u64,
    pub workspace_dir: String,
    pub payload: RequestPayload,
}

/// The workspace directory for a request on a worker:
/// `workerIndex/requestId`, so distinct workers never share paths.
pub open spec fn workspace_dir_spec(worker_index: u64, id: Seq<char>) -> Seq<char> {
    dec_digits(worker_index as nat) + seq!['/'] + id
}

/// Builds the workspace directory path of a request on a worker.
pub fn workspace_dir(worker_index: u64, request_id: &str) -> (r: String)
    ensures
        r@ == workspace_dir_spec(worker_index, request_id@),
{
    let mut r = u64_to_string(worker_index);
    r.append("/");
    r.append(request_id);
    proof {
        reveal_strlit("/");
        assert(r@ =~= workspace_dir_spec(worker_index, request_id@));
    }
    r
}

/// Finds the first row carrying an id.
fn find_row(rows: &Vec<RequestRow>, id: &str) -> (r: Option<usize>)
    ensures
        match r {
            Some(k) => k < rows@.len() && row_for(rows@, id@) == Some(rows@[k as int])
                && rows@[k as int].id@ == id@ && forall|j: int|
                0 <= j < k ==> (#[trigger] rows@[j]).id@ != id@,
            None => row_for(rows@, id@) is None,
        },
{
    let n = rows.len();
    proof {
        assert(rows@.skip(0) =~= rows@);
    }
    let mut k: usize = 0;
    while k < n
        invariant
            k <= n,
            n == rows@.len(),
            row_for(rows@, id@) == row_for(rows@.skip(k as int), id@),
            forall|j: int| 0 <= j < k ==> (#[trigger] rows@[j]).id@ != id@,
        decreases n - k,
    {
        proof {
            assert(rows@.skip(k as int).first() == rows@[k as int]);
            assert(rows@.skip(k as int).drop_first() =~= rows@.skip(k + 1));
        }
        if str_equal(rows[k].id.as_str(), id) {
            return Some(k);
        }
        k = k + 1;
    }
    proof {
        assert(rows@.skip(n as int) =~= Seq::<RequestRow>::empty());
    }
    None
}

/// The id field of a payload row.
fn payload_row_id(p: &RequestPayload) -> (r: &String)
    ensures
        r@ == payload_id(*p),
{
    match p {
        RequestPayload::CreateUser(x) => &x.id,
        RequestPayload::ChangePubkey(x) => &x.id,
        RequestPayload::RenewPassword(x) => &x.id,
    }
}

/// The type tag of a payload row.
fn payload_row_type(p: &RequestPayload) -> (r: RequestType)
    ensures
        r == payload_type(*p),
{
    match p {
        RequestPayload::CreateUser(_) => RequestType::CreateUserRequest,
        RequestPayload::ChangePubkey(_) => RequestType::ChangePubkeyRequest,
        RequestPayload::RenewPassword(_) => RequestType::RenewPasswordRequest,
    }
}

/// Finds the first payload row carrying an id and a type.
fn find_payload(ps: &Vec<RequestPayload>, id: &str, t: RequestType) -> (r: Option<usize>)
    ensures
        match r {
            Some(k) => k < ps@.len() && payload_for(ps@, id@, t) == Some(ps@[k as int]),
            None => payload_for(ps@, id@, t) is None,
        },
{
    let n = ps.len();
    proof {
        assert(ps@.skip(0) =~= ps@);
    }
    let mut k: usize = 0;
    while k < n
        invariant
            k <= n,
            n == ps@.len(),
            payload_for(ps@, id@, t) == payload_for(ps@.skip(k as int), id@, t),
        decreases n - k,
    {
        proof {
            assert(ps@.skip(k as int).first() == ps@[k as int]);
            assert(ps@.skip(k as int).drop_first() =~= ps@.skip(k + 1));
        }
        let row = &ps[k];
        if str_equal(payload_row_id(row).as_str(), id) && payload_row_type(row) == t {
            return Some(k);
        }
        k = k + 1;
    }
    proof {
        assert(ps@.skip(n as int) =~= Seq::<RequestPayload>::empty());
    }
    None
}

/// Copies a payload row, content for content.
fn copy_payload(p: &RequestPayload) -> (r: RequestPayload)
    ensures
        payload_matches(r, *p),
        payload_id(r) == payload_id(*p),
        payload_type(r) == payload_type(*p),
{
    match p {
        RequestPayload::CreateUser(x) => RequestPayload::CreateUser(
            CreateUserRequest {
                id: x.id.clone(),
                username: x.username.clone(),
                email: x.email.clone(),
                pubkey: copy_bytes(&x.pubkey),
                created_by: x.created_by.clone(),
                created_at: x.created_at,
            },
        ),
        RequestPayload::ChangePubkey(x) => RequestPayload::ChangePubkey(
            ChangePubkeyRequest {
                id: x.id.clone(),
                user_id: x.user_id.clone(),
                pubkey: copy_bytes(&x.pubkey),
                created_by: x.created_by.clone(),
                created_at: x.created_at,
            },
        ),
        RequestPayload::RenewPassword(x) => RequestPayload::RenewPassword(
            RenewPasswordRequest {
                id: x.id.clone(),
                user_id: x.user_id.clone(),
                created_by: x.created_by.clone(),
                created_at: x.created_at,
            },
        ),
    }
}

/// Copies a byte vector.
fn copy_bytes(v: &Vec<u8>) -> (r: Vec<u8>)
    ensures
        r@ == v@,
{
    let mut r: Vec<u8> = Vec::new();
    let n = v.len();
    let mut k: usize = 0;
    while k < n
        invariant
            k <= n,
            n == v@.len(),
            r@ == v@.take(k as int),
        decreases n - k,
    {
        r.push(v[k]);
        proof {
            assert(r@ =~= v@.take(k + 1));
        }
        k = k + 1;
    }
    proof {
        assert(v@.take(n as int) =~= v@);
    }
    r
}

/// Replacing the first row carrying an id with another row carrying the
/// same id leaves every other id's lookup unchanged and rebinds that
/// one id.
proof fn lemma_row_for_update(rows: Seq<RequestRow>, k: int, row: RequestRow, id: Seq<char>)
    requires
        0 <= k < rows.len(),
        rows[k].id@ == row.id@,
        forall|j: int| 0 <= j < k ==> (#[trigger] rows[j]).id@ != row.id@,
    ensures
        row_for(rows.update(k, row), id) == (if id == row.id@ {
            Some(row)
        } else {
            row_for(rows, id)
        }),
    decreases rows.len(),
{
    let updated = rows.update(k, row);
    if k == 0 {
        assert(updated.first() == row);
        assert(updated.drop_first() =~= rows.drop_first());
        if id != row.id@ {
            assert(rows.first().id@ == row.id@);
        }
    } else {
        assert(updated.first() == rows.first());
        assert(rows.first().id@ != row.id@);
        assert(updated.drop_first() =~= rows.drop_first().update(k - 1, row));
        assert(forall|j: int|
            0 <= j < k - 1 ==> (#[trigger] rows.drop_first()[j]).id@ == rows[j + 1].id@);
        lemma_row_for_update(rows.drop_first(), k - 1, row, id);
    }
}

/// Claims one request: locates the `New` row with the given id, computes
/// its worker assignment from the stored random tag, joins the payload
/// row of its type, and transitions the row to `InProgress`, recording
/// the acting principal and timestamp. Any failure leaves the table
/// exactly as it was, so the request stays eligible for a later attempt.
pub fn dispatch(
    table: &mut RequestTable,
    id: &str,
    workers: u64,
    actor: &str,
    now: u64,
) -> (r: Result<DispatchPlan, DispatchError>)
    requires
        workers >= 1,
    ensures
        final(table).payloads@ == old(table).payloads@,
        match r {
            Ok(plan) => {
                &&& claimable(*old(table), id@)
                &&& match row_for(old(table).rows@, id@) {
                    Some(row) => {
                        &&& plan.worker_index == row.rand % workers
                        &&& plan.workspace_dir@ == workspace_dir_spec(plan.worker_index, id@)
                        &&& match payload_for(old(table).payloads@, id@, row.request_type) {
                            Some(p) => payload_matches(plan.payload, p),
                            None => false,
                        }
                        &&& match row_for(final(table).rows@, id@) {
                            Some(nr) => {
                                &&& nr.state is InProgress
                                &&& nr.updated_by@ == actor@
                                &&& nr.updated_at == now
                                &&& nr.id@ == row.id@
                                &&& nr.issuer_id == row.issuer_id
                                &&& nr.request_type == row.request_type
                                &&& nr.rand == row.rand
                                &&& nr.created_by == row.created_by
                                &&& nr.created_at == row.created_at
                            },
                            None => false,
                        }
                        &&& forall|other: Seq<char>|
                            other != id@ ==> row_for(final(table).rows@, other) == row_for(
                                old(table).rows@,
                                other,
                            )
                    },
                    None => false,
                }
            },
            Err(e) => {
                &&& final(table).rows@ == old(table).rows@
                &&& (e is Conflict <==> !claimable(*old(table), id@))
                &&& (e is Inconsistent <==> claimable(*old(table), id@) && match row_for(
                    old(table).rows@,
                    id@,
                ) {
                    Some(row) => payload_for(old(table).payloads@, id@, row.request_type) is None,
                    None => false,
                })
            },
        },
{
    let k = match find_row(&table.rows, id) {
        Some(k) => k,
        None => {
            return Err(DispatchError::Conflict);
        },
    };
    let claim_ok = match table.rows[k].state {
        RequestState::New => true,
        _ => false,
    };
    if !claim_ok {
        return Err(DispatchError::Conflict);
    }
    let worker_index = table.rows[k].rand % workers;
    let request_type = table.rows[k].request_type;
    let pidx = match find_payload(&table.payloads, id, request_type) {
        Some(j) => j,
        None => {
            return Err(DispatchError::Inconsistent);
        },
    };
    let payload = copy_payload(&table.payloads[pidx]);
    let dir = workspace_dir(worker_index, id);
    let ghost old_rows = table.rows@;
    let old_row = &table.rows[k];
    let new_row = RequestRow {
        id: old_row.id.clone(),
        issuer_id: old_row.issuer_id.clone(),
        request_type: old_row.request_type,
        state: RequestState::InProgress,
        rand: old_row.rand,
        created_by: old_row.created_by.clone(),
        created_at: old_row.created_at,
        updated_by: actor.to_owned(),
        updated_at: now,
    };
    proof {
        assert(new_row.id@ == id@);
    }
    table.rows[k] = new_row;
    proof {
        let cur = table.rows@;
        assert(cur == old_rows.update(k as int, new_row));
        assert forall|other: Seq<char>|
            row_for(cur, other) == (if other == new_row.id@ {
                Some(new_row)
            } else {
                row_for(old_rows, other)
            }) by {
            lemma_row_for_update(old_rows, k as int, new_row, other);
        }
    }
    Ok(DispatchPlan { worker_index, workspace_dir: dir, payload })
}

/// Dispatch is exactly once per request: once a claim has moved a row
/// out of `New`, the same request is no longer claimable, so a second
/// dispatch of the same id must answer with a conflict.
pub proof fn lemma_dispatch_exactly_once(before: RequestTable, after: RequestTable, id: Seq<char>)
    requires
        claimable(before, id),
        match row_for(after.rows@, id) {
            Some(nr) => nr.state is InProgress,
            None => false,
        },
    ensures
        !claimable(after, id),
{
}

/// Worker assignment is a pure function of the request's immutable
/// random tag: any two dispatch attempts that read the same stored tag,
/// a retry after a rollback included, compute the same worker index.
pub proof fn lemma_assignment_deterministic(r1: RequestRow, r2: RequestRow, workers: u64)
    requires
        workers >= 1,
        r1.rand == r2.rand,
    ensures
        r1.rand % workers == r2.rand % workers,
{
}

} // verus!

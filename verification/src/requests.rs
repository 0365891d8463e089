//! Administrative account-change requests as the web front end records
//! them: a request envelope and its typed content.

use vstd::prelude::*;
use crate::data::users::AccessControl;

verus! {

/// The typed content of an administrative request.
#[derive(Debug)]
pub enum RequestContent {
    CreateUser(CreateUserRequest),
    UpdateUser(UpdateUserRequest),
    DeleteUser(DeleteUserRequest),
}

/// An administrative request envelope. The random tag is fixed at
/// creation and drives worker assignment.
#[derive(Debug)]
pub struct Request {
    pub id: String,
    pub issuer: String,
    pub timestamp: String,
    pub content: RequestContent,
    pub rand: u64,
}

/// A request to create a user.
#[derive(Debug)]
pub struct CreateUserRequest {
    pub username: String,
    pub email: String,
    pub superuser: bool,
    pub acl: Vec<AccessControl>,
}

/// A request to update a user; absent fields stay unchanged.
#[derive(Debug)]
pub struct UpdateUserRequest {
    pub user_id: String,
    pub username: Option<String>,
    pub email: Option<String>,
    pub superuser: Option<bool>,
    pub acl: Option<Vec<AccessControl>>,
    pub renew_password: bool,
    pub renew_pubkey: bool,
}

/// A request to delete a user.
#[derive(Debug)]
pub struct DeleteUserRequest {
    pub user_id: String,
}

} // verus!

use vstd::prelude::*;

use crate::http::Body;
use crate::http::HttpResponse;
use crate::http::STATUS_OK;

verus! {

/// The stub user record: the caller's id paired with a fixed placeholder
/// name. It is not backed by any store.
pub struct User {
    pub id: u32,
    pub username: String,
}

/// The body shape of the user-details request.
pub struct UserId {
    pub user_id: u32,
}

/// The user endpoint that takes its id from the path: always succeeds and
/// echoes the id back beside the placeholder name.
pub fn fetch_user_by_id(user_id: u32) -> (r: HttpResponse)
    ensures
        r.status == STATUS_OK,
        r.body matches Body::UserItem(u) && u.id == user_id && u.username@ == "Elon Musk"@,
{
    HttpResponse {
        status: STATUS_OK,
        body: Body::UserItem(User { id: user_id, username: "Elon Musk".to_owned() }),
    }
}

/// The user endpoint that takes its id from the request body: the same canned
/// reply as the path-parameter one.
pub fn fetch_user_by_id_post_method(user: &UserId) -> (r: HttpResponse)
    ensures
        r.status == STATUS_OK,
        r.body matches Body::UserItem(u) && u.id == user.user_id && u.username@ == "Elon Musk"@,
{
    HttpResponse {
        status: STATUS_OK,
        body: Body::UserItem(User { id: user.user_id, username: "Elon Musk".to_owned() }),
    }
}

/// The root endpoint: a fixed plain-text greeting.
pub fn root() -> (r: HttpResponse)
    ensures
        r.status == STATUS_OK,
        r.body matches Body::Text(t) && t@ == "Hello from Axum server"@,
{
    HttpResponse { status: STATUS_OK, body: Body::Text("Hello from Axum server".to_owned()) }
}

} // verus!

use vstd::prelude::*;

use crate::todos::Todo;
use crate::user::User;

verus! {

pub const STATUS_OK: u16 = 200;

pub const STATUS_CREATED: u16 = 201;

pub const STATUS_BAD_REQUEST: u16 = 400;

pub const STATUS_NOT_FOUND: u16 = 404;

pub const STATUS_METHOD_NOT_ALLOWED: u16 = 405;

pub const STATUS_INTERNAL_SERVER_ERROR: u16 = 500;

/// What a handler hands back as a response body. The transport layer turns
/// each shape into bytes (the record shapes as JSON); the handlers only
/// decide which values go out.
pub enum Body {
    Empty,
    Text(String),
    TodoItem(Todo),
    TodoList(Vec<Todo>),
    UserItem(User),
    /// A static file: its content type and its raw bytes, untouched.
    File(String, Vec<u8>),
}

/// A handler's reply: the status code and the body to send.
pub struct HttpResponse {
    pub status: u16,
    pub body: Body,
}

} // verus!

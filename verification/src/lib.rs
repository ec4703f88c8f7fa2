use vstd::prelude::*;

pub mod http;
pub mod routing;
pub mod static_files;
pub mod todos;
pub mod user;

verus! {

/// The port the server listens on when the environment supplies none.
pub const DEFAULT_PORT: u16 = 8000;

} // verus!

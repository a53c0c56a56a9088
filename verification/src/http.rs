//! The HTTP requests the provider clients make, described as plain values for
//! the caller to send, and how a reply's status is judged.

use vstd::prelude::*;

verus! {

/// A `GET` request: its URL, its query parameters in order, and its headers.
#[derive(Debug)]
pub struct HttpRequest {
    pub url: String,
    pub query: Vec<(String, String)>,
    pub headers: Vec<(String, String)>,
}

/// A 2xx status, the replies a client reads a body from.
pub open spec fn success_status(status: u16) -> bool {
    200 <= status && status < 300
}

/// Whether `status` is a success (2xx).
pub fn is_success(status: u16) -> (res: bool)
    ensures
        res == success_status(status),
{
    200 <= status && status < 300
}

} // verus!

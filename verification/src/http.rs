//! The plain request/response values the providers decide over. The
//! library builds requests and interprets responses; performing the
//! exchange is the caller's part.

use vstd::prelude::*;

verus! {

#[derive(Clone, Copy, PartialEq, Eq, Structural, Debug)]
pub enum Method {
    Get,
    Head,
    Put,
    Post,
}

/// One request to a provider's REST API: the URL carries no query string,
/// the pairs under `query` travel separately so the transport may encode
/// them.
pub struct HttpRequest {
    pub method: Method,
    pub url: String,
    pub query: Vec<(String, String)>,
    pub headers: Vec<(String, String)>,
    pub body: Option<Vec<u8>>,
}

/// What came back: the status code and the raw body bytes.
pub struct HttpResponse {
    pub status: u16,
    pub body: Vec<u8>,
}

/// A success in the HTTP sense: any 2xx status.
pub open spec fn is_success(status: u16) -> bool {
    200 <= status < 300
}

/// The views of a list of name/value string pairs.
pub open spec fn str_pairs_view(s: Seq<(String, String)>) -> Seq<(Seq<char>, Seq<char>)> {
    s.map(|i: int, e: (String, String)| (e.0@, e.1@))
}

} // verus!

//! The route table: which handler answers which path.

use crate::decimal::decimal_text;
use crate::http_request::HttpRequest;
use crate::http_response::{fresh_response, is_stamp, stamp_of, HttpResponse};
use vstd::hash_map::StringHashMap;
use vstd::prelude::*;
use vstd::string::*;

verus! {

/// Maps a request's path to the handler that was registered for it. Paths
/// are matched as they are, letter for letter; nothing is normalized. The
/// router does not look into a handler: `H` is whatever the application
/// calls to get a response.
#[verifier::reject_recursive_types(H)]
pub struct HttpRouter<H> {
    handlers: StringHashMap<H>,
}

/// What the router decided for a request.
pub enum Dispatch<'a, H> {
    /// A handler is registered for the path: it is to be called with the
    /// request.
    Handler(&'a H, HttpRequest),
    /// No handler is registered for the path: this is the answer.
    NotFound(HttpResponse),
}

impl<H> View for HttpRouter<H> {
    type V = Map<Seq<char>, H>;

    closed spec fn view(&self) -> Map<Seq<char>, H> {
        self.handlers@
    }
}

impl<H> HttpRouter<H> {
    /// A router without routes.
    pub fn new() -> (r: HttpRouter<H>)
        ensures
            r@ == Map::<Seq<char>, H>::empty(),
    {
        HttpRouter { handlers: StringHashMap::new() }
    }

    /// Registers `handler` for `path`. A handler that was registered for
    /// the same path before is replaced.
    pub fn add_handler(&mut self, path: &str, handler: H)
        ensures
            final(self)@ == old(self)@.insert(path@, handler),
    {
        self.handlers.insert(path.to_owned(), handler);
    }

    /// The handler that is registered for `path`, if there is one.
    pub fn lookup(&self, path: &str) -> (r: Option<&H>)
        ensures
            match r {
                Some(handler) => self@.contains_key(path@) && self@[path@] == *handler,
                None => !self@.contains_key(path@),
            },
    {
        self.handlers.get(path)
    }

    /// Decides who answers `request`: the handler that is registered for
    /// the request's path, or, where none is, the router itself with a
    /// response of status 404 that has no body and declares length 0.
    pub fn process_request(&self, request: HttpRequest) -> (r: Dispatch<'_, H>)
        ensures
            match r {
                Dispatch::Handler(handler, passed) => {
                    &&& self@.contains_key(request@.path)
                    &&& self@[request@.path] == *handler
                    &&& passed == request
                },
                Dispatch::NotFound(response) => {
                    &&& !self@.contains_key(request@.path)
                    &&& response@ == fresh_response(404, None, stamp_of(response@.headers))
                    &&& is_stamp(stamp_of(response@.headers))
                    &&& response@.status == 404
                    &&& response@.body is None
                    &&& response@.headers.last() == ("Content-Length"@, "0"@)
                },
            },
    {
        match self.lookup(request.path()) {
            Some(handler) => Dispatch::Handler(handler, request),
            None => {
                proof {
                    reveal_strlit("0");
                    assert(decimal_text(0) =~= "0"@);
                }
                Dispatch::NotFound(HttpResponse::new(404, None))
            },
        }
    }
}

} // verus!

use vstd::prelude::*;

use crate::http::StatusCodes;
use crate::request::{request_of, Request, RequestView};
use crate::response::Response;
use crate::router::{
    find_key, first_match, key_view, keys_unique, lemma_find_key_at, lemma_find_key_some,
    resolution, route_matches, Binding, KeyView, RouteKey, Router,
};

verus! {

/// What a connection does next once its bytes are read: invoke a handler on
/// the routed request, or reply at once.
pub enum Outcome<'a, H> {
    Invoke { handler: &'a H, request: Request, route_key: RouteKey },
    Reply(Response),
}

/// A response with a status and neither content type nor body.
pub open spec fn is_bare(r: Response, status: StatusCodes) -> bool {
    r.status_code == status && r.content_type is None && r.body is None
}

/// The request handed to a handler: the parsed request with the bindings of
/// its route.
pub open spec fn with_params(req: RequestView, params: Seq<Binding>) -> RequestView {
    RequestView { params, ..req }
}

/// Decides what a connection does with the bytes it read: a request that does
/// not parse gets a bare 500; one that resolves to no route gets a bare 404;
/// otherwise the handler of the resolved route is invoked on the request,
/// which then carries the route's path parameters.
pub fn prepare<'a, H>(router: &'a Router<H>, raw: &[u8]) -> (r: Outcome<'a, H>)
    requires
        router.wf(),
    ensures
        match request_of(raw@) {
            None => r matches Outcome::Reply(resp) && is_bare(resp, StatusCodes::InternalServerError),
            Some(req) => match resolution(router.keys(), req.method, req.path) {
                None => r matches Outcome::Reply(resp) && is_bare(resp, StatusCodes::NotFound),
                Some((k, params)) => r matches Outcome::Invoke { handler, request, route_key }
                    && key_view(route_key) == k && request@ == with_params(req, params)
                    && find_key(router.keys(), k, 0) is Some
                    && *handler == router.handlers()[find_key(router.keys(), k, 0)->0],
            },
        },
{
    let mut request = match Request::new(raw) {
        Ok(req) => req,
        Err(_) => {
            return Outcome::Reply(Response::new(StatusCodes::InternalServerError, None, None));
        },
    };
    let resolved = router.resolve(&request.method, &request.path);
    match resolved {
        None => Outcome::Reply(Response::new(StatusCodes::NotFound, None, None)),
        Some(found) => {
            proof {
                lemma_resolution_registered(router.keys(), request.method@, request.path@);
            }
            let route_key = found.route_key;
            let handler = router.get_handler_by_endpoint((route_key.0.clone(), route_key.1.clone()));
            match handler {
                Some(handler) => {
                    request.path_parameters = found.params;
                    assert(request@ =~= with_params(
                        request_of(raw@)->0,
                        resolution(router.keys(), request.method@, request.path@).unwrap().1,
                    ));
                    Outcome::Invoke { handler, request, route_key }
                },
                None => Outcome::Reply(Response::new(StatusCodes::NotFound, None, None)),
            }
        },
    }
}

/// The route a request resolves to is in the table.
proof fn lemma_resolution_registered(keys: Seq<KeyView>, method: Seq<char>, path: Seq<char>)
    requires
        keys_unique(keys),
        resolution(keys, method, path) is Some,
    ensures
        find_key(keys, resolution(keys, method, path).unwrap().0, 0) is Some,
{
    let i = match find_key(keys, (method, path), 0) {
        Some(i) => {
            lemma_find_key_some(keys, (method, path), 0);
            i
        },
        None => {
            lemma_first_match_some(keys, method, path, 0);
            first_match(keys, method, path, 0)->0
        },
    };
    lemma_find_key_at(keys, i, 0);
}

proof fn lemma_first_match_some(keys: Seq<KeyView>, method: Seq<char>, path: Seq<char>, i: int)
    requires
        first_match(keys, method, path, i) is Some,
    ensures
        i <= first_match(keys, method, path, i)->0 < keys.len(),
    decreases keys.len() - i,
{
    if 0 <= i < keys.len() && !route_matches(keys[i], method, path) {
        lemma_first_match_some(keys, method, path, i + 1);
    }
}

} // verus!

verus! {

/// Handles the bytes of one connection and returns the bytes to write back:
/// a bare 500 for a request that does not parse, a bare 404 for one that
/// resolves to no route, and otherwise the serialized response of the
/// resolved route's handler, called on the request with its path parameters.
pub fn respond<H: Fn(Request) -> Response>(router: &Router<H>, raw: &[u8]) -> (r: Vec<u8>)
    requires
        router.wf(),
        forall|i: int, q: Request|
            0 <= i < router.handlers().len() ==> #[trigger] router.handlers()[i].requires((q,)),
    ensures
        match request_of(raw@) {
            None => r@ == Response::bare_wire(StatusCodes::InternalServerError),
            Some(req) => match resolution(router.keys(), req.method, req.path) {
                None => r@ == Response::bare_wire(StatusCodes::NotFound),
                Some((k, params)) => exists|q: Request, resp: Response|
                    q@ == with_params(req, params) && router.handlers()[find_key(
                        router.keys(),
                        k,
                        0,
                    )->0].ensures((q,), resp) && r@ == resp.wire(),
            },
        },
{
    match prepare(router, raw) {
        Outcome::Reply(resp) => resp.build(),
        Outcome::Invoke { handler, request, route_key } => {
            proof {
                lemma_find_key_some(router.keys(), key_view(route_key), 0);
            }
            let resp = handler(request);
            let ghost w = resp.wire();
            let out = resp.build();
            assert(out@ == w);
            out
        },
    }
}

} // verus!

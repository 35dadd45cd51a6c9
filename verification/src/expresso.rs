//! The application registry and the per-request dispatch pipeline.
//!
//! An `Expresso` owns the route table and the global middleware list; both
//! are populated at startup and read on every request. Dispatch looks up
//! the exact (method, path) pair, falls back to the built-in not-found
//! handler, wraps the terminal handler with every global middleware in
//! registration order, and runs the composed chain on a fresh response
//! with the fixed 500 fallback as the absolute terminal continuation.
//! The raw entry point parses one buffer, dispatches, and serializes; a
//! buffer that fails to parse is answered 400 with an empty body, and the
//! route and middleware chain never runs.

use vstd::prelude::*;
use crate::handler::{
    Handler, HandlerModel, IntoHandler, IntoHandlers, fallback_response, invoke,
    keeps_status_body, lemma_preserving_chain, lemma_run_handlers_push, respond_model,
    run_handler, run_handlers, run_trace, transparent,
};
use crate::middleware::{MiddlewareManager, lemma_global_order, lemma_global_reaches_terminal};
use crate::request::{Request, RequestModel, parse_request};
use crate::response::{Response, ResponseModel, fresh_response, render, with_status};
use crate::router::{Method, Router, method_name, route_lookup, route_set};

verus! {

/// The built-in answer for a request that matches no route.
pub open spec fn not_found_model() -> HandlerModel {
    HandlerModel::Respond { status: 404, body: "Not Found"@ }
}

/// The terminal handler for a request: the handler registered under its
/// exact (method, path) pair, or the built-in not-found answer.
pub open spec fn terminal_model(
    routes: Seq<(Seq<char>, Seq<char>, HandlerModel)>,
    req: RequestModel,
) -> HandlerModel {
    match route_lookup(routes, req.method, req.path) {
        Some(h) => h,
        None => not_found_model(),
    }
}

/// What dispatching a request yields: the terminal handler wrapped with
/// every global middleware in registration order, run on a fresh response,
/// with the fixed 500 fallback as the absolute terminal continuation.
pub open spec fn dispatch_model(
    routes: Seq<(Seq<char>, Seq<char>, HandlerModel)>,
    mws: Seq<HandlerModel>,
    req: RequestModel,
) -> ResponseModel {
    run_handlers(mws.push(terminal_model(routes, req)), 0, req, fresh_response(), fallback_response())
}

/// The answer for a buffer that fails to parse: status 400, empty body,
/// no route or middleware consulted.
pub open spec fn bad_request_model() -> ResponseModel {
    with_status(fresh_response(), 400)
}

/// What one whole connection read is answered with, on the wire.
pub open spec fn handle_model(
    routes: Seq<(Seq<char>, Seq<char>, HandlerModel)>,
    mws: Seq<HandlerModel>,
    bytes: Seq<u8>,
) -> Seq<char> {
    match parse_request(bytes) {
        None => render(bad_request_model()),
        Some(req) => render(dispatch_model(routes, mws, req)),
    }
}

/// The application registry: routes and global middleware.
pub struct Expresso {
    router: Router,
    middlewares: MiddlewareManager,
}

impl View for Expresso {
    type V = (Seq<(Seq<char>, Seq<char>, HandlerModel)>, Seq<HandlerModel>);

    closed spec fn view(&self) -> (Seq<(Seq<char>, Seq<char>, HandlerModel)>, Seq<HandlerModel>) {
        (self.router@, self.middlewares@)
    }
}

impl Expresso {
    /// An application with no routes and no middleware.
    pub fn new() -> (app: Expresso)
        ensures
            app@.0 == Seq::<(Seq<char>, Seq<char>, HandlerModel)>::empty(),
            app@.1 == Seq::<HandlerModel>::empty(),
    {
        Expresso { router: Router::new(), middlewares: MiddlewareManager::new() }
    }

    /// Register a global middleware; it runs on every request, after all
    /// middleware registered earlier.
    pub fn use_middleware<F: IntoHandler>(&mut self, f: F)
        ensures
            final(self)@.0 == old(self)@.0,
            final(self)@.1 == old(self)@.1.push(f.handler_model()),
    {
        self.middlewares.add(f.into_handler());
    }

    /// Register an ordered group of handlers for GET on an exact path,
    /// composed into one route chain; re-registering the pair replaces it.
    pub fn get<H: IntoHandlers>(&mut self, path: &str, handlers: H)
        ensures
            final(self)@.0 == route_set(
                old(self)@.0,
                "GET"@,
                path@,
                HandlerModel::Chain(handlers.handler_models()),
            ),
            final(self)@.1 == old(self)@.1,
    {
        let chain = handlers.into_chained_handler();
        self.router.add_route(Method::GET, path, chain);
    }

    /// Register an ordered group of handlers for POST on an exact path,
    /// composed into one route chain; re-registering the pair replaces it.
    pub fn post<H: IntoHandlers>(&mut self, path: &str, handlers: H)
        ensures
            final(self)@.0 == route_set(
                old(self)@.0,
                "POST"@,
                path@,
                HandlerModel::Chain(handlers.handler_models()),
            ),
            final(self)@.1 == old(self)@.1,
    {
        let chain = handlers.into_chained_handler();
        self.router.add_route(Method::POST, path, chain);
    }

    /// Dispatch one parsed request: look up the route (or fall back to the
    /// built-in not-found answer), wrap it with every global middleware,
    /// and run the composed chain on a fresh response.
    pub fn dispatch(&self, req: &Request) -> (r: Response)
        ensures
            r@ == dispatch_model(self@.0, self@.1, req@),
    {
        let terminal = match self.router.find_handler(req.method(), req.path()) {
            Some(h) => h,
            None => Handler::Respond { status: 404, body: "Not Found".to_owned() },
        };
        let chain = self.middlewares.build_chain(terminal);
        let start = Response::new();
        invoke(&chain, req, &start)
    }

    /// Answer one whole connection read: parse, dispatch, serialize. A
    /// buffer that fails to parse is answered 400 with an empty body, and
    /// no route or middleware ever runs.
    pub fn handle_raw(&self, buffer: &[u8]) -> (out: String)
        ensures
            out@ == handle_model(self@.0, self@.1, buffer@),
    {
        match Request::from_raw(buffer) {
            Some(req) => self.dispatch(&req).build(),
            None => Response::new().status(400).build(),
        }
    }

    /// Every registered route as "METHOD:path", in registration order.
    pub fn routes(&self) -> (r: Vec<String>)
        ensures
            r@.len() == self@.0.len(),
            forall|i: int| 0 <= i < self@.0.len() ==> (#[trigger] r@[i])@ == self@.0[i].0 + ":"@
                + self@.0[i].1,
    {
        self.router.get_all_routes()
    }
}

/// Law: a request whose exact (method, path) pair is registered is answered
/// by that pair's handler: when every global middleware hands its
/// continuation's result back unchanged, dispatch yields exactly what the
/// registered handler yields on a fresh response with the 500 fallback.
pub proof fn lemma_matched_route_runs(
    routes: Seq<(Seq<char>, Seq<char>, HandlerModel)>,
    mws: Seq<HandlerModel>,
    req: RequestModel,
    h: HandlerModel,
)
    requires
        route_lookup(routes, req.method, req.path) == Some(h),
        forall|j: int| 0 <= j < mws.len() ==> transparent(#[trigger] mws[j], req, fresh_response()),
    ensures
        dispatch_model(routes, mws, req) == run_handler(h, req, fresh_response(), fallback_response()),
{
    lemma_global_reaches_terminal(mws, h, req, fresh_response(), fallback_response());
}

/// Law: a request that matches no route is answered 404 with body
/// "Not Found", and it still passes through every global middleware: each
/// one that keeps status and body leaves the 404 intact, and all of them,
/// then the not-found handler, execute in registration order.
pub proof fn lemma_unrouted_yields_not_found(
    routes: Seq<(Seq<char>, Seq<char>, HandlerModel)>,
    mws: Seq<HandlerModel>,
    req: RequestModel,
)
    requires
        route_lookup(routes, req.method, req.path) is None,
        forall|j: int| 0 <= j < mws.len() ==> keeps_status_body(
            #[trigger] mws[j],
            req,
            fresh_response(),
        ),
    ensures
        dispatch_model(routes, mws, req).status == 404,
        dispatch_model(routes, mws, req).body == Some("Not Found"@),
        run_trace(mws.push(not_found_model()), 0, req) =~= Seq::new(mws.len() + 1, |i: int| i),
{
    let nf = not_found_model();
    let tail = respond_model(fresh_response(), 404, "Not Found"@);
    lemma_run_handlers_push(mws, nf, 0, req, fresh_response(), fallback_response());
    lemma_preserving_chain(mws, 0, req, fresh_response(), tail);
    lemma_global_order(mws, nf, req);
}

} // verus!

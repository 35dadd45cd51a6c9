use expresso::handler::{invoke, Handler, IntoHandler, IntoHandlers};
use expresso::middleware::MiddlewareManager;
use expresso::request::Request;
use expresso::response::Response;

fn respond(status: u16, body: &str) -> Handler {
    Handler::Respond {
        status,
        body: body.to_string(),
    }
}

fn add_header(name: &str, value: &str) -> Handler {
    Handler::AddHeaders {
        headers: vec![(name.to_string(), value.to_string())],
    }
}

fn require(name: &str, status: u16, body: &str) -> Handler {
    Handler::RequireHeader {
        name: name.to_string(),
        expected: None,
        status,
        body: body.to_string(),
    }
}

#[test]
fn short_circuit_skips_later_handlers() {
    // the guard never invokes its continuation, so the composed result is
    // the guard's own response and the leaf never runs
    let chain = (require("X-Token", 403, "Forbidden"), respond(200, "secret")).into_chained_handler();
    let res = invoke(&chain, &Request::new(), &Response::new());
    assert_eq!(res.status_code, 403);
    assert_eq!(res.body.as_deref(), Some("Forbidden"));
}

#[test]
fn handlers_run_in_index_order_to_the_last() {
    // every stage invokes its continuation up to the leaf; the composed
    // result is the leaf's response
    let chain = (Handler::PassThrough, Handler::PassThrough, respond(200, "done"))
        .into_chained_handler();
    let res = invoke(&chain, &Request::new(), &Response::new());
    assert_eq!(res.status_code, 200);
    assert_eq!(res.body.as_deref(), Some("done"));
}

#[test]
fn chain_end_returns_current_response_not_fallback() {
    // every stage invokes its continuation and the list runs out: the
    // route chain returns the current response as is — a fresh 200 with no
    // body — and never the outer 500 fallback
    let chain = (Handler::PassThrough, Handler::PassThrough).into_chained_handler();
    let res = invoke(&chain, &Request::new(), &Response::new());
    assert_eq!(res.status_code, 200);
    assert_eq!(res.body, None);
}

#[test]
fn empty_chain_returns_current_response() {
    let chain = Handler::Chain(Vec::new());
    let res = invoke(&chain, &Request::new(), &Response::new());
    assert_eq!(res.status_code, 200);
    assert_eq!(res.body, None);
}

#[test]
fn bare_pass_through_terminal_reaches_the_500_fallback() {
    // a raw terminal that defers past the end of the global chain reaches
    // the listener's fixed fallback continuation
    let mws = MiddlewareManager::new();
    let chain = mws.build_chain(Handler::PassThrough);
    let res = invoke(&chain, &Request::new(), &Response::new());
    assert_eq!(res.status_code, 500);
    assert_eq!(res.body.as_deref(), Some("Internal Error"));
}

#[test]
fn middlewares_post_process_in_registration_order() {
    // both middlewares set the same header after their continuation runs;
    // the first registered runs outermost, so its write lands last
    let mut mws = MiddlewareManager::new();
    mws.add(add_header("X-Order", "outer"));
    mws.add(add_header("X-Order", "inner"));
    assert_eq!(mws.count(), 2);
    let chain = mws.build_chain(respond(200, "ok"));
    let res = invoke(&chain, &Request::new(), &Response::new());
    assert_eq!(res.status_code, 200);
    assert_eq!(res.headers.get("X-Order").unwrap().as_str(), "outer");
}

#[test]
fn exhausted_route_chain_inside_global_chain_stays_200() {
    // the route chain runs out with every stage deferring; the global
    // chain's 500 fallback must not leak through: the route chain's end
    // rule yields the current response
    let mut mws = MiddlewareManager::new();
    mws.add(add_header("X-Tag", "seen"));
    let route = (Handler::PassThrough,).into_chained_handler();
    let chain = mws.build_chain(route);
    let res = invoke(&chain, &Request::new(), &Response::new());
    assert_eq!(res.status_code, 200);
    assert_eq!(res.body, None);
    assert_eq!(res.headers.get("X-Tag").unwrap().as_str(), "seen");
}

#[test]
fn middleware_short_circuit_skips_terminal() {
    let mut mws = MiddlewareManager::new();
    mws.add(respond(401, "who are you"));
    let chain = mws.build_chain(respond(200, "never"));
    let res = invoke(&chain, &Request::new(), &Response::new());
    assert_eq!(res.status_code, 401);
    assert_eq!(res.body.as_deref(), Some("who are you"));
}

#[test]
fn into_handler_vec_keeps_order() {
    let v = (respond(200, "a"), respond(201, "b")).into_handler_vec();
    assert_eq!(v.len(), 2);
    let r0 = invoke(&v[0], &Request::new(), &Response::new());
    let r1 = invoke(&v[1], &Request::new(), &Response::new());
    assert_eq!(r0.status_code, 200);
    assert_eq!(r1.status_code, 201);
}

#[test]
fn into_handler_is_identity_on_handlers() {
    let h = respond(204, "").into_handler();
    let res = invoke(&h, &Request::new(), &Response::new());
    assert_eq!(res.status_code, 204);
}

#[test]
fn duplicate_preserves_behavior() {
    let chain = (require("A", 400, "no"), respond(200, "yes")).into_chained_handler();
    let copy = chain.duplicate();
    let res = invoke(&copy, &Request::new(), &Response::new());
    assert_eq!(res.status_code, 400);
    assert_eq!(res.body.as_deref(), Some("no"));
}

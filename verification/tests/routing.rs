use expresso::handler::{invoke, Handler};
use expresso::request::Request;
use expresso::response::Response;
use expresso::router::{Method, Router};

fn respond(status: u16, body: &str) -> Handler {
    Handler::Respond {
        status,
        body: body.to_string(),
    }
}

#[test]
fn find_returns_registered_handler() {
    let mut r = Router::new();
    r.add_route(Method::GET, "/hello", respond(200, "hi"));
    let h = r.find_handler("GET", "/hello").expect("route registered");
    let res = invoke(&h, &Request::new(), &Response::new());
    assert_eq!(res.status_code, 200);
    assert_eq!(res.body.as_deref(), Some("hi"));
}

#[test]
fn find_is_exact_match_only() {
    let mut r = Router::new();
    r.add_route(Method::GET, "/hello", respond(200, "hi"));
    assert!(r.find_handler("GET", "/hello/").is_none());
    assert!(r.find_handler("GET", "/Hello").is_none());
    assert!(r.find_handler("POST", "/hello").is_none());
    assert!(r.find_handler("get", "/hello").is_none());
    assert!(r.find_handler("GET", "/h").is_none());
}

#[test]
fn reregistering_replaces_the_handler() {
    let mut r = Router::new();
    r.add_route(Method::GET, "/x", respond(200, "first"));
    r.add_route(Method::GET, "/x", respond(201, "second"));
    let h = r.find_handler("GET", "/x").expect("route registered");
    let res = invoke(&h, &Request::new(), &Response::new());
    assert_eq!(res.status_code, 201);
    assert_eq!(res.body.as_deref(), Some("second"));
    let listed = r.get_all_routes();
    assert_eq!(listed, vec!["GET:/x".to_string()]);
}

#[test]
fn routes_under_different_pairs_coexist() {
    let mut r = Router::new();
    r.add_route(Method::GET, "/a", respond(200, "a"));
    r.add_route(Method::POST, "/a", respond(201, "b"));
    r.add_route(Method::GET, "/b", respond(204, "c"));
    let ga = r.find_handler("GET", "/a").unwrap();
    let pa = r.find_handler("POST", "/a").unwrap();
    let gb = r.find_handler("GET", "/b").unwrap();
    let req = Request::new();
    assert_eq!(invoke(&ga, &req, &Response::new()).status_code, 200);
    assert_eq!(invoke(&pa, &req, &Response::new()).status_code, 201);
    assert_eq!(invoke(&gb, &req, &Response::new()).status_code, 204);
    assert_eq!(
        r.get_all_routes(),
        vec![
            "GET:/a".to_string(),
            "POST:/a".to_string(),
            "GET:/b".to_string()
        ]
    );
}

#[test]
fn method_from_str_ignores_ascii_case() {
    assert_eq!(Method::from_str("GET"), Some(Method::GET));
    assert_eq!(Method::from_str("get"), Some(Method::GET));
    assert_eq!(Method::from_str("GeT"), Some(Method::GET));
    assert_eq!(Method::from_str("post"), Some(Method::POST));
    assert_eq!(Method::from_str("Put"), Some(Method::PUT));
    assert_eq!(Method::from_str("delete"), Some(Method::DELETE));
    assert_eq!(Method::from_str("patch"), Some(Method::PATCH));
    assert_eq!(Method::from_str("head"), Some(Method::HEAD));
    assert_eq!(Method::from_str("options"), Some(Method::OPTIONS));
    assert_eq!(Method::from_str("FETCH"), None);
    assert_eq!(Method::from_str(""), None);
    assert_eq!(Method::from_str("GETS"), None);
}

#[test]
fn method_as_str_is_canonical() {
    assert_eq!(Method::GET.as_str(), "GET");
    assert_eq!(Method::POST.as_str(), "POST");
    assert_eq!(Method::PUT.as_str(), "PUT");
    assert_eq!(Method::DELETE.as_str(), "DELETE");
    assert_eq!(Method::PATCH.as_str(), "PATCH");
    assert_eq!(Method::HEAD.as_str(), "HEAD");
    assert_eq!(Method::OPTIONS.as_str(), "OPTIONS");
    for m in [
        Method::GET,
        Method::POST,
        Method::PUT,
        Method::DELETE,
        Method::PATCH,
        Method::HEAD,
        Method::OPTIONS,
    ] {
        assert_eq!(Method::from_str(m.as_str()), Some(m));
    }
}

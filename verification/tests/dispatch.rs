use expresso::expresso::Expresso;
use expresso::handler::Handler;
use expresso::middlewares::cors::{cors, with_origin, CorsConfig};
use expresso::request::Request;

fn respond(status: u16, body: &str) -> Handler {
    Handler::Respond {
        status,
        body: body.to_string(),
    }
}

fn parse(raw: &[u8]) -> Request {
    Request::from_raw(raw).expect("well-formed request")
}

#[test]
fn hello_world_end_to_end() {
    let mut app = Expresso::new();
    app.get("/hello", (respond(200, "Hello, World!"),));
    let out = app.handle_raw(b"GET /hello HTTP/1.1\r\nHost: x\r\n\r\n");
    assert_eq!(out, "HTTP/1.1 200 OK\r\nContent-Length: 13\r\n\r\nHello, World!");
}

#[test]
fn unmatched_request_yields_404_through_middleware() {
    let mut app = Expresso::new();
    app.use_middleware(cors());
    app.get("/known", (respond(200, "ok"),));
    let res = app.dispatch(&parse(b"GET /unknown HTTP/1.1\r\n\r\n"));
    assert_eq!(res.status_code, 404);
    assert_eq!(res.body.as_deref(), Some("Not Found"));
    // the middleware observed the 404: its header is on the response
    assert_eq!(
        res.headers.get("Access-Control-Allow-Origin").unwrap().as_str(),
        "*"
    );
}

#[test]
fn unparsable_input_yields_400_without_dispatch() {
    let mut app = Expresso::new();
    // middleware that would mark any dispatched response
    app.use_middleware(Handler::AddHeaders {
        headers: vec![("X-Seen".to_string(), "yes".to_string())],
    });
    let out = app.handle_raw(b"");
    assert_eq!(out, "HTTP/1.1 400 Bad Request\r\nContent-Length: 0\r\n\r\n");
    let out = app.handle_raw(b"GET /two-tokens\r\n\r\n");
    assert_eq!(out, "HTTP/1.1 400 Bad Request\r\nContent-Length: 0\r\n\r\n");
}

#[test]
fn global_cors_header_lands_on_matched_route() {
    let mut app = Expresso::new();
    app.use_middleware(cors());
    app.get("/x", (respond(200, "ok"),));
    let res = app.dispatch(&parse(b"GET /x HTTP/1.1\r\n\r\n"));
    assert_eq!(res.status_code, 200);
    assert_eq!(res.body.as_deref(), Some("ok"));
    assert_eq!(
        res.headers.get("Access-Control-Allow-Origin").unwrap().as_str(),
        "*"
    );
    assert_eq!(
        res.headers.get("Access-Control-Allow-Methods").unwrap().as_str(),
        "GET, POST, PUT, DELETE, PATCH, OPTIONS"
    );
    assert_eq!(
        res.headers.get("Access-Control-Allow-Headers").unwrap().as_str(),
        "Content-Type, Authorization"
    );
}

#[test]
fn guarded_route_denies_without_header_and_skips_the_leaf() {
    let mut app = Expresso::new();
    app.get(
        "/protected",
        (
            Handler::RequireHeader {
                name: "X-User-Role".to_string(),
                expected: Some("admin".to_string()),
                status: 403,
                body: "Forbidden: Admin role required".to_string(),
            },
            respond(200, "Welcome to the protected area!"),
        ),
    );
    let denied = app.dispatch(&parse(b"GET /protected HTTP/1.1\r\n\r\n"));
    assert_eq!(denied.status_code, 403);
    assert_eq!(denied.body.as_deref(), Some("Forbidden: Admin role required"));

    let wrong = app.dispatch(&parse(
        b"GET /protected HTTP/1.1\r\nX-User-Role: guest\r\n\r\n",
    ));
    assert_eq!(wrong.status_code, 403);

    let granted = app.dispatch(&parse(
        b"GET /protected HTTP/1.1\r\nX-User-Role: admin\r\n\r\n",
    ));
    assert_eq!(granted.status_code, 200);
    assert_eq!(granted.body.as_deref(), Some("Welcome to the protected area!"));
}

#[test]
fn post_routes_are_separate_from_get() {
    let mut app = Expresso::new();
    app.get("/submit", (respond(200, "read"),));
    app.post("/submit", (respond(201, "created"),));
    let got = app.dispatch(&parse(b"GET /submit HTTP/1.1\r\n\r\n"));
    let posted = app.dispatch(&parse(b"POST /submit HTTP/1.1\r\n\r\n"));
    assert_eq!(got.status_code, 200);
    assert_eq!(posted.status_code, 201);
}

#[test]
fn request_method_is_matched_raw() {
    // the router does not normalize the inbound token
    let mut app = Expresso::new();
    app.get("/x", (respond(200, "ok"),));
    let res = app.dispatch(&parse(b"get /x HTTP/1.1\r\n\r\n"));
    assert_eq!(res.status_code, 404);
}

#[test]
fn reregistered_route_serves_the_latest_handler() {
    let mut app = Expresso::new();
    app.get("/x", (respond(200, "first"),));
    app.get("/x", (respond(200, "second"),));
    let res = app.dispatch(&parse(b"GET /x HTTP/1.1\r\n\r\n"));
    assert_eq!(res.body.as_deref(), Some("second"));
    assert_eq!(app.routes(), vec!["GET:/x".to_string()]);
}

#[test]
fn with_origin_sets_the_given_origin() {
    let mut app = Expresso::new();
    app.use_middleware(with_origin("https://example.com"));
    app.get("/x", (respond(200, "ok"),));
    let res = app.dispatch(&parse(b"GET /x HTTP/1.1\r\n\r\n"));
    assert_eq!(
        res.headers.get("Access-Control-Allow-Origin").unwrap().as_str(),
        "https://example.com"
    );
}

#[test]
fn cors_config_joins_its_lists() {
    let mw = CorsConfig::new()
        .origins(vec!["https://a".to_string(), "https://b".to_string()])
        .methods(vec!["GET".to_string(), "POST".to_string()])
        .headers(vec!["X-One".to_string()])
        .build();
    let mut app = Expresso::new();
    app.use_middleware(mw);
    app.get("/x", (respond(200, "ok"),));
    let res = app.dispatch(&parse(b"GET /x HTTP/1.1\r\n\r\n"));
    assert_eq!(
        res.headers.get("Access-Control-Allow-Origin").unwrap().as_str(),
        "https://a, https://b"
    );
    assert_eq!(
        res.headers.get("Access-Control-Allow-Methods").unwrap().as_str(),
        "GET, POST"
    );
    assert_eq!(
        res.headers.get("Access-Control-Allow-Headers").unwrap().as_str(),
        "X-One"
    );
}

#[test]
fn cors_config_default_matches_cors() {
    let mut app1 = Expresso::new();
    app1.use_middleware(CorsConfig::new().build());
    app1.get("/x", (respond(200, "ok"),));
    let res = app1.dispatch(&parse(b"GET /x HTTP/1.1\r\n\r\n"));
    assert_eq!(
        res.headers.get("Access-Control-Allow-Methods").unwrap().as_str(),
        "GET, POST, PUT, DELETE, PATCH, OPTIONS"
    );
    assert_eq!(
        res.headers.get("Access-Control-Allow-Headers").unwrap().as_str(),
        "Content-Type, Authorization"
    );
}

//! Cross-origin resource sharing middleware.
//!
//! Each constructor yields a middleware that invokes its continuation and
//! then sets the three CORS headers on the result, so every response that
//! passes through — matched routes and the built-in not-found answer alike —
//! carries them.

use vstd::prelude::*;
use crate::handler::{Handler, HandlerModel, pairs_view};

verus! {

/// The CORS header triple for given allowed origins, methods and headers.
pub open spec fn cors_header_pairs(
    origins: Seq<char>,
    methods: Seq<char>,
    headers: Seq<char>,
) -> Seq<(Seq<char>, Seq<char>)> {
    seq![
        ("Access-Control-Allow-Origin"@, origins),
        ("Access-Control-Allow-Methods"@, methods),
        ("Access-Control-Allow-Headers"@, headers),
    ]
}

/// Permissive CORS middleware: allows every origin, the usual methods, and
/// the usual request headers.
pub fn cors() -> (h: Handler)
    ensures
        h@ == (HandlerModel::AddHeaders {
            headers: cors_header_pairs(
                "*"@,
                "GET, POST, PUT, DELETE, PATCH, OPTIONS"@,
                "Content-Type, Authorization"@,
            ),
        }),
{
    with_origin("*")
}

/// CORS middleware that allows one given origin.
pub fn with_origin(origin: &str) -> (h: Handler)
    ensures
        h@ == (HandlerModel::AddHeaders {
            headers: cors_header_pairs(
                origin@,
                "GET, POST, PUT, DELETE, PATCH, OPTIONS"@,
                "Content-Type, Authorization"@,
            ),
        }),
{
    let mut pairs: Vec<(String, String)> = Vec::new();
    pairs.push(("Access-Control-Allow-Origin".to_owned(), origin.to_owned()));
    pairs.push((
        "Access-Control-Allow-Methods".to_owned(),
        "GET, POST, PUT, DELETE, PATCH, OPTIONS".to_owned(),
    ));
    pairs.push((
        "Access-Control-Allow-Headers".to_owned(),
        "Content-Type, Authorization".to_owned(),
    ));
    proof {
        assert(pairs_view(pairs@) =~= cors_header_pairs(
            origin@,
            "GET, POST, PUT, DELETE, PATCH, OPTIONS"@,
            "Content-Type, Authorization"@,
        ));
    }
    Handler::AddHeaders { headers: pairs }
}

/// The views of a list of strings.
pub open spec fn strings_view(v: Seq<String>) -> Seq<Seq<char>> {
    Seq::new(v.len(), |i: int| v[i]@)
}

/// Comma-join from position `i` on, with what is already joined in `acc`.
pub open spec fn join_comma(v: Seq<Seq<char>>, i: int, acc: Seq<char>) -> Seq<char>
    decreases v.len() - i,
{
    if i < 0 || i >= v.len() {
        acc
    } else {
        join_comma(
            v,
            i + 1,
            if i == 0 {
                v[0]
            } else {
                acc + ", "@ + v[i]
            },
        )
    }
}

/// The default allowed origins: every origin.
pub open spec fn default_origin_list() -> Seq<Seq<char>> {
    seq!["*"@]
}

/// The default allowed methods.
pub open spec fn default_method_list() -> Seq<Seq<char>> {
    seq!["GET"@, "POST"@, "PUT"@, "DELETE"@, "PATCH"@, "OPTIONS"@]
}

/// The default allowed request headers.
pub open spec fn default_header_list() -> Seq<Seq<char>> {
    seq!["Content-Type"@, "Authorization"@]
}

/// A configurable CORS middleware: pick origins, methods and headers, then
/// build the middleware.
pub struct CorsConfig {
    pub origins: Vec<String>,
    pub methods: Vec<String>,
    pub headers: Vec<String>,
}

impl CorsConfig {
    /// The permissive default configuration.
    pub fn new() -> (c: CorsConfig)
        ensures
            strings_view(c.origins@) == default_origin_list(),
            strings_view(c.methods@) == default_method_list(),
            strings_view(c.headers@) == default_header_list(),
    {
        let mut origins: Vec<String> = Vec::new();
        origins.push("*".to_owned());
        let mut methods: Vec<String> = Vec::new();
        methods.push("GET".to_owned());
        methods.push("POST".to_owned());
        methods.push("PUT".to_owned());
        methods.push("DELETE".to_owned());
        methods.push("PATCH".to_owned());
        methods.push("OPTIONS".to_owned());
        let mut headers: Vec<String> = Vec::new();
        headers.push("Content-Type".to_owned());
        headers.push("Authorization".to_owned());
        proof {
            assert(strings_view(origins@) =~= default_origin_list());
            assert(strings_view(methods@) =~= default_method_list());
            assert(strings_view(headers@) =~= default_header_list());
        }
        CorsConfig { origins, methods, headers }
    }

    /// Replace the allowed origins.
    pub fn origins(self, origins: Vec<String>) -> (c: CorsConfig)
        ensures
            c.origins == origins,
            c.methods == self.methods,
            c.headers == self.headers,
    {
        CorsConfig { origins, ..self }
    }

    /// Replace the allowed methods.
    pub fn methods(self, methods: Vec<String>) -> (c: CorsConfig)
        ensures
            c.origins == self.origins,
            c.methods == methods,
            c.headers == self.headers,
    {
        CorsConfig { methods, ..self }
    }

    /// Replace the allowed request headers.
    pub fn headers(self, headers: Vec<String>) -> (c: CorsConfig)
        ensures
            c.origins == self.origins,
            c.methods == self.methods,
            c.headers == headers,
    {
        CorsConfig { headers, ..self }
    }

    /// Build the middleware: each list is comma-joined into its header.
    pub fn build(self) -> (h: Handler)
        ensures
            h@ == (HandlerModel::AddHeaders {
                headers: cors_header_pairs(
                    join_comma(strings_view(self.origins@), 0, Seq::empty()),
                    join_comma(strings_view(self.methods@), 0, Seq::empty()),
                    join_comma(strings_view(self.headers@), 0, Seq::empty()),
                ),
            }),
    {
        let o = join_comma_exec(&self.origins);
        let m = join_comma_exec(&self.methods);
        let hd = join_comma_exec(&self.headers);
        let mut pairs: Vec<(String, String)> = Vec::new();
        pairs.push(("Access-Control-Allow-Origin".to_owned(), o));
        pairs.push(("Access-Control-Allow-Methods".to_owned(), m));
        pairs.push(("Access-Control-Allow-Headers".to_owned(), hd));
        proof {
            assert(pairs_view(pairs@) =~= cors_header_pairs(
                join_comma(strings_view(self.origins@), 0, Seq::empty()),
                join_comma(strings_view(self.methods@), 0, Seq::empty()),
                join_comma(strings_view(self.headers@), 0, Seq::empty()),
            ));
        }
        Handler::AddHeaders { headers: pairs }
    }
}

impl Default for CorsConfig {
    /// The permissive default configuration.
    fn default() -> (c: CorsConfig)
        ensures
            strings_view(c.origins@) == default_origin_list(),
            strings_view(c.methods@) == default_method_list(),
            strings_view(c.headers@) == default_header_list(),
    {
        CorsConfig::new()
    }
}

/// Join strings with a comma and a space between neighbours.
fn join_comma_exec(v: &Vec<String>) -> (s: String)
    ensures
        s@ == join_comma(strings_view(v@), 0, Seq::empty()),
{
    let ghost sv = strings_view(v@);
    let n = v.len();
    let mut out = String::new();
    let mut i: usize = 0;
    while i < n
        invariant
            n == v@.len(),
            sv == strings_view(v@),
            i <= n,
            join_comma(sv, 0, Seq::empty()) == join_comma(sv, i as int, out@),
        decreases n - i,
    {
        if i == 0 {
            out = v[0].clone();
        } else {
            let ghost prev = out@;
            out.append(", ");
            out.append(v[i].as_str());
            proof {
                assert(out@ =~= prev + ", "@ + sv[i as int]);
            }
        }
        i += 1;
    }
    out
}

} // verus!

//! The route table: an exact-match map from (method, path) to a handler.
//!
//! Keys match by exact string comparison — no trailing-slash normalization,
//! no case folding of the path. The method of an inbound request is the raw
//! token; registration normalizes a `Method` to its canonical name. Writes
//! replace in place, so the latest registration wins.

use vstd::prelude::*;
use crate::handler::{Handler, HandlerModel, handler_view};

verus! {

/// One character equals another up to ASCII case, where the second is the
/// uppercase reference.
pub open spec fn char_eq_ignore_ascii_case(c: char, u: char) -> bool {
    c == u || (65 <= u as u32 <= 90 && c as u32 == u as u32 + 32)
}

/// A string equals an uppercase reference up to ASCII case.
pub open spec fn matches_ignore_case(s: Seq<char>, t: Seq<char>) -> bool {
    s.len() == t.len() && forall|i: int|
        0 <= i < s.len() ==> char_eq_ignore_ascii_case(#[trigger] s[i], t[i])
}

/// An HTTP method.
#[derive(Clone, Copy, PartialEq, Eq, Structural, Debug)]
pub enum Method {
    GET,
    POST,
    PUT,
    DELETE,
    PATCH,
    HEAD,
    OPTIONS,
}

/// The canonical (uppercase) name of a method.
pub open spec fn method_name(m: Method) -> Seq<char> {
    match m {
        Method::GET => "GET"@,
        Method::POST => "POST"@,
        Method::PUT => "PUT"@,
        Method::DELETE => "DELETE"@,
        Method::PATCH => "PATCH"@,
        Method::HEAD => "HEAD"@,
        Method::OPTIONS => "OPTIONS"@,
    }
}

/// The method a token names, up to ASCII case; anything else is none.
pub open spec fn method_of(s: Seq<char>) -> Option<Method> {
    if matches_ignore_case(s, "GET"@) {
        Some(Method::GET)
    } else if matches_ignore_case(s, "POST"@) {
        Some(Method::POST)
    } else if matches_ignore_case(s, "PUT"@) {
        Some(Method::PUT)
    } else if matches_ignore_case(s, "DELETE"@) {
        Some(Method::DELETE)
    } else if matches_ignore_case(s, "PATCH"@) {
        Some(Method::PATCH)
    } else if matches_ignore_case(s, "HEAD"@) {
        Some(Method::HEAD)
    } else if matches_ignore_case(s, "OPTIONS"@) {
        Some(Method::OPTIONS)
    } else {
        None
    }
}

impl Method {
    /// Normalize a token to a method, up to ASCII case.
    pub fn from_str(s: &str) -> (r: Option<Method>)
        ensures
            r == method_of(s@),
    {
        if eq_ignore_case(s, "GET") {
            Some(Method::GET)
        } else if eq_ignore_case(s, "POST") {
            Some(Method::POST)
        } else if eq_ignore_case(s, "PUT") {
            Some(Method::PUT)
        } else if eq_ignore_case(s, "DELETE") {
            Some(Method::DELETE)
        } else if eq_ignore_case(s, "PATCH") {
            Some(Method::PATCH)
        } else if eq_ignore_case(s, "HEAD") {
            Some(Method::HEAD)
        } else if eq_ignore_case(s, "OPTIONS") {
            Some(Method::OPTIONS)
        } else {
            None
        }
    }

    /// The canonical name.
    pub fn as_str(&self) -> (r: &'static str)
        ensures
            r@ == method_name(*self),
    {
        match self {
            Method::GET => "GET",
            Method::POST => "POST",
            Method::PUT => "PUT",
            Method::DELETE => "DELETE",
            Method::PATCH => "PATCH",
            Method::HEAD => "HEAD",
            Method::OPTIONS => "OPTIONS",
        }
    }
}

/// Compare a string to an uppercase reference, ignoring ASCII case.
fn eq_ignore_case(s: &str, upper: &str) -> (r: bool)
    ensures
        r == matches_ignore_case(s@, upper@),
{
    let n = s.unicode_len();
    if n != upper.unicode_len() {
        return false;
    }
    let mut i: usize = 0;
    while i < n
        invariant
            n == s@.len(),
            n == upper@.len(),
            i <= n,
            forall|j: int| 0 <= j < i ==> char_eq_ignore_ascii_case(#[trigger] s@[j], upper@[j]),
        decreases n - i,
    {
        let c = s.get_char(i) as u32;
        let u = upper.get_char(i) as u32;
        if !(c == u || (65 <= u && u <= 90 && c == u + 32)) {
            return false;
        }
        i += 1;
    }
    true
}

/// First-match lookup in a route list.
pub open spec fn route_lookup(
    s: Seq<(Seq<char>, Seq<char>, HandlerModel)>,
    m: Seq<char>,
    p: Seq<char>,
) -> Option<HandlerModel>
    decreases s.len(),
{
    if s.len() == 0 {
        None
    } else if s[0].0 == m && s[0].1 == p {
        Some(s[0].2)
    } else {
        route_lookup(s.drop_first(), m, p)
    }
}

/// Upsert into a route list: replace the first entry with the same pair in
/// place, append otherwise.
pub open spec fn route_set(
    s: Seq<(Seq<char>, Seq<char>, HandlerModel)>,
    m: Seq<char>,
    p: Seq<char>,
    h: HandlerModel,
) -> Seq<(Seq<char>, Seq<char>, HandlerModel)>
    decreases s.len(),
{
    if s.len() == 0 {
        seq![(m, p, h)]
    } else if s[0].0 == m && s[0].1 == p {
        seq![(m, p, h)] + s.drop_first()
    } else {
        seq![s[0]] + route_set(s.drop_first(), m, p, h)
    }
}

/// The route table.
pub struct Router {
    routes: Vec<(String, String, Handler)>,
}

impl View for Router {
    type V = Seq<(Seq<char>, Seq<char>, HandlerModel)>;

    closed spec fn view(&self) -> Seq<(Seq<char>, Seq<char>, HandlerModel)> {
        Seq::new(
            self.routes@.len(),
            |i: int| (self.routes@[i].0@, self.routes@[i].1@, handler_view(self.routes@[i].2)),
        )
    }
}

impl Router {
    /// An empty route table.
    pub fn new() -> (r: Router)
        ensures
            r@ == Seq::<(Seq<char>, Seq<char>, HandlerModel)>::empty(),
    {
        let r = Router { routes: Vec::new() };
        proof {
            assert(r@ =~= Seq::<(Seq<char>, Seq<char>, HandlerModel)>::empty());
        }
        r
    }

    /// The position of the first entry with this exact (method, path) pair.
    fn find_index(&self, m: &str, p: &str) -> (r: Option<usize>)
        ensures
            match r {
                Some(i) => i < self@.len() && self@[i as int].0 == m@ && self@[i as int].1 == p@
                    && forall|j: int|
                    0 <= j < i ==> !(#[trigger] self@[j].0 == m@ && self@[j].1 == p@),
                None => forall|j: int|
                    0 <= j < self@.len() ==> !(#[trigger] self@[j].0 == m@ && self@[j].1 == p@),
            },
    {
        let n = self.routes.len();
        let mkey = m.to_owned();
        let pkey = p.to_owned();
        let mut i: usize = 0;
        while i < n
            invariant
                n == self@.len(),
                i <= n,
                mkey@ == m@,
                pkey@ == p@,
                forall|j: int| 0 <= j < i ==> !(#[trigger] self@[j].0 == m@ && self@[j].1 == p@),
            decreases n - i,
        {
            let entry = &self.routes[i];
            if entry.0 == mkey && entry.1 == pkey {
                return Some(i);
            }
            i += 1;
        }
        None
    }

    /// Register a handler under an exact (method, path) pair, replacing any
    /// previous handler for that pair.
    pub fn add_route(&mut self, method: Method, path: &str, handler: Handler)
        ensures
            final(self)@ == route_set(old(self)@, method_name(method), path@, handler@),
    {
        let mname = method.as_str();
        match self.find_index(mname, path) {
            Some(i) => {
                let ghost old_view = self@;
                self.routes.remove(i);
                self.routes.insert(i, (mname.to_owned(), path.to_owned(), handler));
                proof {
                    assert(self@ =~= old_view.update(
                        i as int,
                        (method_name(method), path@, handler_view(handler)),
                    ));
                    lemma_route_set_found(old_view, method_name(method), path@, handler@, i as int);
                }
            },
            None => {
                let ghost old_view = self@;
                self.routes.push((mname.to_owned(), path.to_owned(), handler));
                proof {
                    assert(self@ =~= old_view.push(
                        (method_name(method), path@, handler_view(handler)),
                    ));
                    lemma_route_set_missing(old_view, method_name(method), path@, handler@);
                }
            },
        }
    }

    /// The handler registered under an exact (method, path) pair, if any.
    /// The method is compared as the raw token, with no normalization.
    pub fn find_handler(&self, method: &str, path: &str) -> (r: Option<Handler>)
        ensures
            match r {
                Some(h) => route_lookup(self@, method@, path@) == Some(h@),
                None => route_lookup(self@, method@, path@) is None,
            },
    {
        match self.find_index(method, path) {
            Some(i) => {
                let h = self.routes[i].2.duplicate();
                proof {
                    lemma_route_lookup_found(self@, method@, path@, i as int);
                }
                Some(h)
            },
            None => {
                proof {
                    lemma_route_lookup_missing(self@, method@, path@);
                }
                None
            },
        }
    }

    /// Every registered route as "METHOD:path", in registration order.
    pub fn get_all_routes(&self) -> (r: Vec<String>)
        ensures
            r@.len() == self@.len(),
            forall|i: int| 0 <= i < self@.len() ==> (#[trigger] r@[i])@ == self@[i].0 + ":"@
                + self@[i].1,
    {
        let n = self.routes.len();
        let mut out: Vec<String> = Vec::new();
        let mut i: usize = 0;
        while i < n
            invariant
                n == self@.len(),
                i <= n,
                out@.len() == i,
                forall|j: int| 0 <= j < i ==> (#[trigger] out@[j])@ == self@[j].0 + ":"@
                    + self@[j].1,
            decreases n - i,
        {
            let entry = &self.routes[i];
            let mut key = entry.0.clone();
            key.append(":");
            key.append(entry.1.as_str());
            out.push(key);
            i += 1;
        }
        out
    }
}

impl Default for Router {
    /// An empty route table.
    fn default() -> (r: Router)
        ensures
            r@ == Seq::<(Seq<char>, Seq<char>, HandlerModel)>::empty(),
    {
        Router::new()
    }
}

/// If the first entry for the pair is at `i`, lookup returns its handler.
proof fn lemma_route_lookup_found(
    s: Seq<(Seq<char>, Seq<char>, HandlerModel)>,
    m: Seq<char>,
    p: Seq<char>,
    i: int,
)
    requires
        0 <= i < s.len(),
        s[i].0 == m && s[i].1 == p,
        forall|j: int| 0 <= j < i ==> !(#[trigger] s[j].0 == m && s[j].1 == p),
    ensures
        route_lookup(s, m, p) == Some(s[i].2),
    decreases i,
{
    if i > 0 {
        lemma_route_lookup_found(s.drop_first(), m, p, i - 1);
    }
}

/// If the pair occurs nowhere, lookup returns nothing.
proof fn lemma_route_lookup_missing(
    s: Seq<(Seq<char>, Seq<char>, HandlerModel)>,
    m: Seq<char>,
    p: Seq<char>,
)
    requires
        forall|j: int| 0 <= j < s.len() ==> !(#[trigger] s[j].0 == m && s[j].1 == p),
    ensures
        route_lookup(s, m, p) is None,
    decreases s.len(),
{
    if s.len() > 0 {
        lemma_route_lookup_missing(s.drop_first(), m, p);
    }
}

/// If the first entry for the pair is at `i`, upserting replaces it there.
proof fn lemma_route_set_found(
    s: Seq<(Seq<char>, Seq<char>, HandlerModel)>,
    m: Seq<char>,
    p: Seq<char>,
    h: HandlerModel,
    i: int,
)
    requires
        0 <= i < s.len(),
        s[i].0 == m && s[i].1 == p,
        forall|j: int| 0 <= j < i ==> !(#[trigger] s[j].0 == m && s[j].1 == p),
    ensures
        route_set(s, m, p, h) =~= s.update(i, (m, p, h)),
    decreases i,
{
    if i > 0 {
        lemma_route_set_found(s.drop_first(), m, p, h, i - 1);
        assert(route_set(s, m, p, h) =~= seq![s[0]] + route_set(s.drop_first(), m, p, h));
    }
}

/// If the pair occurs nowhere, upserting appends the entry.
proof fn lemma_route_set_missing(
    s: Seq<(Seq<char>, Seq<char>, HandlerModel)>,
    m: Seq<char>,
    p: Seq<char>,
    h: HandlerModel,
)
    requires
        forall|j: int| 0 <= j < s.len() ==> !(#[trigger] s[j].0 == m && s[j].1 == p),
    ensures
        route_set(s, m, p, h) =~= s.push((m, p, h)),
    decreases s.len(),
{
    if s.len() > 0 {
        lemma_route_set_missing(s.drop_first(), m, p, h);
    }
}

/// Law: registration is exact-match. After registering a handler under a
/// pair, looking up that pair yields exactly that handler — re-registering
/// replaces any earlier one — and looking up any other pair is untouched.
pub proof fn lemma_route_exact_match(
    s: Seq<(Seq<char>, Seq<char>, HandlerModel)>,
    m: Seq<char>,
    p: Seq<char>,
    h: HandlerModel,
    m2: Seq<char>,
    p2: Seq<char>,
)
    ensures
        route_lookup(route_set(s, m, p, h), m, p) == Some(h),
        (m2 != m || p2 != p) ==> route_lookup(route_set(s, m, p, h), m2, p2) == route_lookup(
            s,
            m2,
            p2,
        ),
    decreases s.len(),
{
    let t = route_set(s, m, p, h);
    if s.len() == 0 {
        assert(t.drop_first() =~= Seq::<(Seq<char>, Seq<char>, HandlerModel)>::empty());
        assert(route_lookup(t.drop_first(), m2, p2) is None);
        assert(route_lookup(s, m2, p2) is None);
    } else if s[0].0 == m && s[0].1 == p {
        assert(t.drop_first() =~= s.drop_first());
        assert((m2 != m || p2 != p) ==> route_lookup(t, m2, p2) == route_lookup(
            t.drop_first(),
            m2,
            p2,
        ));
        assert((m2 != m || p2 != p) ==> route_lookup(s, m2, p2) == route_lookup(
            s.drop_first(),
            m2,
            p2,
        ));
    } else {
        lemma_route_exact_match(s.drop_first(), m, p, h, m2, p2);
        assert(t[0] == s[0]);
        assert(t.drop_first() =~= route_set(s.drop_first(), m, p, h));
    }
}

/// Law: only the latest registration for a pair is ever returned.
pub proof fn lemma_route_replace(
    s: Seq<(Seq<char>, Seq<char>, HandlerModel)>,
    m: Seq<char>,
    p: Seq<char>,
    h1: HandlerModel,
    h2: HandlerModel,
)
    ensures
        route_lookup(route_set(route_set(s, m, p, h1), m, p, h2), m, p) == Some(h2),
{
    lemma_route_exact_match(route_set(s, m, p, h1), m, p, h2, m, p);
}

} // verus!

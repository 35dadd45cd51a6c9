//! The inbound request value and its parser.
//!
//! A request is parsed once per connection from the raw bytes of a single
//! read: the request line is split on blanks into method, path and version
//! (fewer than three tokens is a soft failure), then `Name: Value` header
//! lines run until an empty line (lines without a separator are skipped),
//! and whatever follows the empty line is the body. The split happens on
//! the bytes; each piece is decoded as UTF-8, with lossy replacement.

use vstd::prelude::*;
use vstd::utf8::{decode_utf8, valid_utf8};
use crate::headers::{Headers, lookup_pair, set_pair};

verus! {

/// The mathematical value of a request.
pub struct RequestModel {
    pub method: Seq<char>,
    pub path: Seq<char>,
    pub version: Seq<char>,
    pub headers: Seq<(Seq<char>, Seq<char>)>,
    pub body: Option<Seq<char>>,
}

/// What `String::from_utf8_lossy` returns for a given byte sequence.
pub uninterp spec fn lossy(bytes: Seq<u8>) -> Seq<char>;

/// Relies on `String::from_utf8_lossy`: the result is a function of the
/// bytes alone, and bytes that are valid UTF-8 decode to exactly their
/// characters.
#[verifier::external_body]
fn lossy_str(bytes: &[u8]) -> (r: String)
    ensures
        r@ == lossy(bytes@),
        valid_utf8(bytes@) ==> r@ == decode_utf8(bytes@),
{
    String::from_utf8_lossy(bytes).into_owned()
}

/// A blank byte of the request line: space or horizontal tab.
pub open spec fn is_blank(b: u8) -> bool {
    b == 32 || b == 9
}

/// The first position at or after `i` where the two bytes `b0 b1` occur,
/// or the length if they occur nowhere.
pub open spec fn find_pair(s: Seq<u8>, i: int, b0: u8, b1: u8) -> int
    decreases s.len() - i,
{
    if i < 0 || i + 1 >= s.len() {
        s.len() as int
    } else if s[i] == b0 && s[i + 1] == b1 {
        i
    } else {
        find_pair(s, i + 1, b0, b1)
    }
}

/// The first non-blank position at or after `i`, or the length.
pub open spec fn skip_blanks(s: Seq<u8>, i: int) -> int
    decreases s.len() - i,
{
    if i < 0 || i >= s.len() {
        s.len() as int
    } else if is_blank(s[i]) {
        skip_blanks(s, i + 1)
    } else {
        i
    }
}

/// The first blank position at or after `i`, or the length.
pub open spec fn token_end(s: Seq<u8>, i: int) -> int
    decreases s.len() - i,
{
    if i < 0 || i >= s.len() {
        s.len() as int
    } else if is_blank(s[i]) {
        i
    } else {
        token_end(s, i + 1)
    }
}

/// How much input a header-line cursor still holds; `None` stands for an
/// exhausted line iterator, which is smaller than any remaining region.
pub open spec fn region_measure(r: Option<Seq<u8>>) -> nat {
    match r {
        None => 0,
        Some(b) => b.len() + 1,
    }
}

/// Consume `Name: Value` lines until an empty line or the end of input.
/// Returns the accumulated header pairs and the remaining body region.
pub open spec fn parse_header_lines(
    r: Option<Seq<u8>>,
    acc: Seq<(Seq<char>, Seq<char>)>,
) -> (Seq<(Seq<char>, Seq<char>)>, Option<Seq<u8>>)
    decreases region_measure(r),
    via parse_header_lines_decreases
{
    match r {
        None => (acc, None),
        Some(b) => {
            let e = find_pair(b, 0, 13, 10);
            if e == 0 {
                (acc, if b.len() == 0 { None } else { Some(b.subrange(2, b.len() as int)) })
            } else {
                let line = b.subrange(0, e);
                let rest = if e == b.len() { None } else { Some(b.subrange(e + 2, b.len() as int)) };
                let p = find_pair(line, 0, 58, 32);
                let acc2 = if p == line.len() {
                    acc
                } else {
                    set_pair(acc, lossy(line.subrange(0, p)), lossy(line.subrange(p + 2, line.len() as int)))
                };
                parse_header_lines(rest, acc2)
            }
        },
    }
}

#[via_fn]
proof fn parse_header_lines_decreases(r: Option<Seq<u8>>, acc: Seq<(Seq<char>, Seq<char>)>) {
    match r {
        None => {},
        Some(b) => {
            lemma_find_pair_spec(b, 0, 13, 10);
        },
    }
}

/// The body as a value: an empty region, or none at all, is no body.
pub open spec fn body_of_region(r: Option<Seq<u8>>) -> Option<Seq<char>> {
    match r {
        None => None,
        Some(b) => if b.len() == 0 {
            None
        } else {
            Some(lossy(b))
        },
    }
}

/// What parsing a raw buffer yields: the request, or nothing if the
/// request line has fewer than three tokens.
pub open spec fn parse_request(s: Seq<u8>) -> Option<RequestModel> {
    let e = find_pair(s, 0, 13, 10);
    let line = s.subrange(0, e);
    let rest: Option<Seq<u8>> = if e == s.len() {
        None
    } else {
        Some(s.subrange(e + 2, s.len() as int))
    };
    let a0 = skip_blanks(line, 0);
    if a0 == line.len() {
        None
    } else {
        let e0 = token_end(line, a0);
        let a1 = skip_blanks(line, e0);
        if a1 == line.len() {
            None
        } else {
            let e1 = token_end(line, a1);
            let a2 = skip_blanks(line, e1);
            if a2 == line.len() {
                None
            } else {
                let e2 = token_end(line, a2);
                let hb = parse_header_lines(rest, Seq::empty());
                Some(RequestModel {
                    method: lossy(line.subrange(a0, e0)),
                    path: lossy(line.subrange(a1, e1)),
                    version: lossy(line.subrange(a2, e2)),
                    headers: hb.0,
                    body: body_of_region(hb.1),
                })
            }
        }
    }
}

/// The inbound request value.
pub struct Request {
    pub method: String,
    pub path: String,
    pub version: String,
    pub headers: Headers,
    pub body: Option<String>,
}

impl View for Request {
    type V = RequestModel;

    open spec fn view(&self) -> RequestModel {
        RequestModel {
            method: self.method@,
            path: self.path@,
            version: self.version@,
            headers: self.headers@,
            body: match self.body {
                Some(b) => Some(b@),
                None => None,
            },
        }
    }
}

impl Request {
    /// An empty request.
    pub fn new() -> (r: Request)
        ensures
            r@.method == Seq::<char>::empty(),
            r@.path == Seq::<char>::empty(),
            r@.version == Seq::<char>::empty(),
            r@.headers == Seq::<(Seq<char>, Seq<char>)>::empty(),
            r@.body is None,
    {
        Request {
            method: String::new(),
            path: String::new(),
            version: String::new(),
            headers: Headers::new(),
            body: None,
        }
    }

    /// Parse raw bytes into a request, or nothing if the request line has
    /// fewer than three tokens.
    pub fn from_raw(buffer: &[u8]) -> (r: Option<Request>)
        ensures
            match r {
                Some(req) => parse_request(buffer@) == Some(req@),
                None => parse_request(buffer@) is None,
            },
    {
        let n = buffer.len();
        let e = find_pair_exec(buffer, 13, 10);
        let line = &buffer[0..e];
        let a0 = skip_blanks_exec(line, 0);
        if a0 == line.len() {
            return None;
        }
        let e0 = token_end_exec(line, a0);
        let a1 = skip_blanks_exec(line, e0);
        if a1 == line.len() {
            return None;
        }
        let e1 = token_end_exec(line, a1);
        let a2 = skip_blanks_exec(line, e1);
        if a2 == line.len() {
            return None;
        }
        let e2 = token_end_exec(line, a2);
        let method = lossy_str(&line[a0..e0]);
        let path = lossy_str(&line[a1..e1]);
        let version = lossy_str(&line[a2..e2]);

        let ghost rest0: Option<Seq<u8>> = if e == n {
            None
        } else {
            Some(buffer@.subrange(e as int + 2, n as int))
        };
        let mut rest: Option<&[u8]> = if e == n {
            None
        } else {
            Some(&buffer[e + 2..n])
        };
        let mut headers = Headers::new();
        let body_slice: Option<&[u8]>;
        proof {
            assert(headers@ =~= Seq::<(Seq<char>, Seq<char>)>::empty());
        }
        loop
            invariant
                parse_header_lines(region_view(rest), headers@) == parse_header_lines(
                    rest0,
                    Seq::empty(),
                ),
            ensures
                (headers@, region_view(body_slice)) == parse_header_lines(rest0, Seq::empty()),
            decreases region_measure(region_view(rest)),
        {
            match rest {
                None => {
                    body_slice = None;
                    break;
                },
                Some(b) => {
                    let bn = b.len();
                    let le = find_pair_exec(b, 13, 10);
                    if le == 0 {
                        body_slice = if bn == 0 {
                            None
                        } else {
                            Some(&b[2..bn])
                        };
                        break;
                    }
                    let line_b = &b[0..le];
                    let p = find_pair_exec(line_b, 58, 32);
                    if p < line_b.len() {
                        let name = lossy_str(&line_b[0..p]);
                        let value = lossy_str(&line_b[p + 2..le]);
                        headers.set(name.as_str(), value.as_str());
                    }
                    rest = if le == bn {
                        None
                    } else {
                        Some(&b[le + 2..bn])
                    };
                },
            }
        }
        let body = match body_slice {
            None => None,
            Some(b) => if b.len() == 0 {
                None
            } else {
                Some(lossy_str(b))
            },
        };
        Some(Request { method, path, version, headers, body })
    }

    /// The method token, as received.
    pub fn method(&self) -> (r: &str)
        ensures
            r@ == self@.method,
    {
        self.method.as_str()
    }

    /// The path token, as received.
    pub fn path(&self) -> (r: &str)
        ensures
            r@ == self@.path,
    {
        self.path.as_str()
    }

    /// The value of a header, if present.
    pub fn header(&self, name: &str) -> (r: Option<&String>)
        ensures
            match r {
                Some(v) => lookup_pair(self@.headers, name@) == Some(v@),
                None => lookup_pair(self@.headers, name@) is None,
            },
    {
        self.headers.get(name)
    }

    /// The body, if present.
    pub fn body(&self) -> (r: Option<&String>)
        ensures
            match r {
                Some(b) => self@.body == Some(b@),
                None => self@.body is None,
            },
    {
        self.body.as_ref()
    }
}

/// The byte region a cursor slice stands for.
pub open spec fn region_view(r: Option<&[u8]>) -> Option<Seq<u8>> {
    match r {
        None => None,
        Some(b) => Some(b@),
    }
}

/// Skipping one non-match moves the search start without changing the result.
proof fn lemma_find_pair_advance(s: Seq<u8>, from: int, i: int, b0: u8, b1: u8)
    requires
        0 <= from <= i <= s.len(),
        forall|j: int| from <= j < i ==> !(#[trigger] s[j] == b0 && j + 1 < s.len() && s[j + 1] == b1),
    ensures
        find_pair(s, from, b0, b1) == find_pair(s, i, b0, b1),
    decreases i - from,
{
    if from < i {
        lemma_find_pair_advance(s, from + 1, i, b0, b1);
    }
}

/// The result is in bounds; anything short of the sentinel is a position
/// that carries the pattern, with room for both bytes.
proof fn lemma_find_pair_spec(s: Seq<u8>, i: int, b0: u8, b1: u8)
    requires
        0 <= i <= s.len(),
    ensures
        i <= find_pair(s, i, b0, b1) <= s.len(),
        find_pair(s, i, b0, b1) < s.len() ==> find_pair(s, i, b0, b1) + 2 <= s.len() && s[find_pair(
            s,
            i,
            b0,
            b1,
        )] == b0 && s[find_pair(s, i, b0, b1) + 1] == b1,
    decreases s.len() - i,
{
    if !(i + 1 >= s.len()) && !(s[i] == b0 && s[i + 1] == b1) {
        lemma_find_pair_spec(s, i + 1, b0, b1);
    }
}

/// Find the first occurrence of the two bytes `b0 b1`, or the length.
fn find_pair_exec(s: &[u8], b0: u8, b1: u8) -> (r: usize)
    ensures
        r as int == find_pair(s@, 0, b0, b1),
        r <= s@.len(),
        r < s@.len() ==> r as int + 2 <= s@.len() as int && s@[r as int] == b0 && s@[r as int
            + 1] == b1,
{
    let n = s.len();
    let mut i: usize = 0;
    while n - i > 1
        invariant
            n == s@.len(),
            i <= n,
            forall|j: int| 0 <= j < i ==> !(#[trigger] s@[j] == b0 && j + 1 < s@.len() && s@[j + 1] == b1),
        decreases n - i,
    {
        if s[i] == b0 && s[i + 1] == b1 {
            proof {
                lemma_find_pair_advance(s@, 0, i as int, b0, b1);
            }
            return i;
        }
        i += 1;
    }
    proof {
        lemma_find_pair_advance(s@, 0, i as int, b0, b1);
    }
    n
}

/// Skipping one blank moves the scan start without changing the result.
proof fn lemma_skip_blanks_advance(s: Seq<u8>, from: int, i: int)
    requires
        0 <= from <= i <= s.len(),
        forall|j: int| from <= j < i ==> is_blank(s[j]),
    ensures
        skip_blanks(s, from) == skip_blanks(s, i),
    decreases i - from,
{
    if from < i {
        lemma_skip_blanks_advance(s, from + 1, i);
    }
}

/// Find the first non-blank position at or after `from`, or the length.
fn skip_blanks_exec(s: &[u8], from: usize) -> (r: usize)
    requires
        from <= s@.len(),
    ensures
        r as int == skip_blanks(s@, from as int),
        from <= r <= s@.len(),
        r < s@.len() ==> !is_blank(s@[r as int]),
{
    let n = s.len();
    let mut i = from;
    while i < n
        invariant
            n == s@.len(),
            from <= i <= n,
            forall|j: int| from <= j < i ==> is_blank(s@[j]),
        decreases n - i,
    {
        if !(s[i] == 32 || s[i] == 9) {
            proof {
                lemma_skip_blanks_advance(s@, from as int, i as int);
            }
            return i;
        }
        i += 1;
    }
    proof {
        lemma_skip_blanks_advance(s@, from as int, i as int);
    }
    n
}

/// Passing over one non-blank moves the scan start without changing the result.
proof fn lemma_token_end_advance(s: Seq<u8>, from: int, i: int)
    requires
        0 <= from <= i <= s.len(),
        forall|j: int| from <= j < i ==> !is_blank(s[j]),
    ensures
        token_end(s, from) == token_end(s, i),
    decreases i - from,
{
    if from < i {
        lemma_token_end_advance(s, from + 1, i);
    }
}

/// Find the first blank position at or after `from`, or the length.
fn token_end_exec(s: &[u8], from: usize) -> (r: usize)
    requires
        from <= s@.len(),
    ensures
        r as int == token_end(s@, from as int),
        from <= r <= s@.len(),
{
    let n = s.len();
    let mut i = from;
    while i < n
        invariant
            n == s@.len(),
            from <= i <= n,
            forall|j: int| from <= j < i ==> !is_blank(s@[j]),
        decreases n - i,
    {
        if s[i] == 32 || s[i] == 9 {
            proof {
                lemma_token_end_advance(s@, from as int, i as int);
            }
            return i;
        }
        i += 1;
    }
    proof {
        lemma_token_end_advance(s@, from as int, i as int);
    }
    n
}

} // verus!

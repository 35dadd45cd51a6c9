//! The outbound response value.
//!
//! A response is a value: every mutating operation consumes the current
//! value and returns a new one, so no stage of a handler chain can observe
//! another stage's edits. Serialization always emits a `Content-Length`
//! equal to the byte length of the body.

use vstd::prelude::*;
use vstd::utf8::encode_utf8;
use crate::headers::{Headers, set_pair};

verus! {

/// The mathematical value of a response.
pub struct ResponseModel {
    pub status: u16,
    pub status_text: Seq<char>,
    pub headers: Seq<(Seq<char>, Seq<char>)>,
    pub body: Option<Seq<char>>,
}

/// The reason phrase derived from a status code; codes outside the fixed
/// table map to "Unknown".
pub open spec fn status_text_of(code: u16) -> Seq<char> {
    if code == 200 {
        "OK"@
    } else if code == 201 {
        "Created"@
    } else if code == 204 {
        "No Content"@
    } else if code == 400 {
        "Bad Request"@
    } else if code == 401 {
        "Unauthorized"@
    } else if code == 403 {
        "Forbidden"@
    } else if code == 404 {
        "Not Found"@
    } else if code == 500 {
        "Internal Server Error"@
    } else {
        "Unknown"@
    }
}

/// A fresh response: status 200, no headers, no body.
pub open spec fn fresh_response() -> ResponseModel {
    ResponseModel { status: 200, status_text: "OK"@, headers: Seq::empty(), body: None }
}

/// Setting the status also derives the reason phrase.
pub open spec fn with_status(r: ResponseModel, code: u16) -> ResponseModel {
    ResponseModel { status: code, status_text: status_text_of(code), ..r }
}

/// Setting a header upserts into the header table.
pub open spec fn with_header(r: ResponseModel, name: Seq<char>, value: Seq<char>) -> ResponseModel {
    ResponseModel { headers: set_pair(r.headers, name, value), ..r }
}

/// Setting the body replaces it wholesale.
pub open spec fn with_body(r: ResponseModel, body: Seq<char>) -> ResponseModel {
    ResponseModel { body: Some(body), ..r }
}

/// A JSON body: the content type header plus the body itself.
pub open spec fn with_json(r: ResponseModel, data: Seq<char>) -> ResponseModel {
    with_body(with_header(r, "Content-Type"@, "application/json"@), data)
}

/// The decimal digits of a number, most significant first.
pub open spec fn dec_digits(n: nat) -> Seq<char>
    decreases n,
{
    if n < 10 {
        seq![digit_char(n)]
    } else {
        dec_digits(n / 10) + seq![digit_char(n % 10)]
    }
}

/// The character for one decimal digit.
pub open spec fn digit_char(d: nat) -> char {
    if d == 0 {
        '0'
    } else if d == 1 {
        '1'
    } else if d == 2 {
        '2'
    } else if d == 3 {
        '3'
    } else if d == 4 {
        '4'
    } else if d == 5 {
        '5'
    } else if d == 6 {
        '6'
    } else if d == 7 {
        '7'
    } else if d == 8 {
        '8'
    } else {
        '9'
    }
}

/// The byte length of the body under UTF-8, which is what `Content-Length`
/// must carry.
pub open spec fn content_length_of(r: ResponseModel) -> nat {
    match r.body {
        Some(b) => encode_utf8(b).len(),
        None => 0,
    }
}

/// One serialized header line after another, from position `i` on.
pub open spec fn header_lines(s: Seq<(Seq<char>, Seq<char>)>, i: int) -> Seq<char>
    decreases s.len() - i,
{
    if i < 0 || i >= s.len() {
        Seq::empty()
    } else {
        s[i].0 + ": "@ + s[i].1 + "\r\n"@ + header_lines(s, i + 1)
    }
}

/// The full wire form: status line, `Content-Length`, the headers, a blank
/// line, then the body.
pub open spec fn render(r: ResponseModel) -> Seq<char> {
    "HTTP/1.1 "@ + dec_digits(r.status as nat) + " "@ + r.status_text + "\r\nContent-Length: "@
        + dec_digits(content_length_of(r)) + "\r\n"@ + header_lines(r.headers, 0) + "\r\n"@ + (
    match r.body {
        Some(b) => b,
        None => Seq::empty(),
    })
}

/// The outbound response value.
pub struct Response {
    pub status_code: u16,
    pub status_text: String,
    pub headers: Headers,
    pub body: Option<String>,
}

impl View for Response {
    type V = ResponseModel;

    open spec fn view(&self) -> ResponseModel {
        ResponseModel {
            status: self.status_code,
            status_text: self.status_text@,
            headers: self.headers@,
            body: match self.body {
                Some(b) => Some(b@),
                None => None,
            },
        }
    }
}

impl Response {
    /// A fresh response: status 200, no headers, no body.
    pub fn new() -> (r: Response)
        ensures
            r@ == fresh_response(),
    {
        let r = Response {
            status_code: 200,
            status_text: "OK".to_owned(),
            headers: Headers::new(),
            body: None,
        };
        r
    }

    /// A copy with the same mathematical value.
    pub fn duplicate(&self) -> (r: Response)
        ensures
            r@ == self@,
    {
        Response {
            status_code: self.status_code,
            status_text: self.status_text.clone(),
            headers: self.headers.duplicate(),
            body: match &self.body {
                Some(b) => Some(b.clone()),
                None => None,
            },
        }
    }

    /// Set the status code; the reason phrase is derived from the fixed table.
    pub fn status(self, code: u16) -> (r: Response)
        ensures
            r@ == with_status(self@, code),
    {
        Response { status_code: code, status_text: status_text_str(code).to_owned(), ..self }
    }

    /// Set one header, replacing any previous value under the same name.
    pub fn set_header(self, name: &str, value: &str) -> (r: Response)
        ensures
            r@ == with_header(self@, name@, value@),
    {
        let mut headers = self.headers;
        headers.set(name, value);
        Response { headers, ..self }
    }

    /// Set the body.
    pub fn send(self, body: &str) -> (r: Response)
        ensures
            r@ == with_body(self@, body@),
    {
        Response { body: Some(body.to_owned()), ..self }
    }

    /// Set a JSON body: the content type header plus the body itself.
    pub fn json(self, data: &str) -> (r: Response)
        ensures
            r@ == with_json(self@, data@),
    {
        self.set_header("Content-Type", "application/json").send(data)
    }

    /// Serialize to the wire form.
    pub fn build(&self) -> (out: String)
        ensures
            out@ == render(self@),
    {
        let mut out = String::new();
        out.append("HTTP/1.1 ");
        out.append(decimal_string(self.status_code as u64).as_str());
        out.append(" ");
        out.append(self.status_text.as_str());
        out.append("\r\nContent-Length: ");
        let clen: usize = match &self.body {
            Some(b) => b.as_str().as_bytes().len(),
            None => 0,
        };
        out.append(decimal_string(clen as u64).as_str());
        out.append("\r\n");
        proof {
            assert(out@ =~= "HTTP/1.1 "@ + dec_digits(self@.status as nat) + " "@
                + self@.status_text + "\r\nContent-Length: "@ + dec_digits(content_length_of(self@))
                + "\r\n"@);
        }
        let n = self.headers.len();
        let mut i: usize = 0;
        while i < n
            invariant
                n == self@.headers.len(),
                i <= n,
                out@ + header_lines(self@.headers, i as int) == "HTTP/1.1 "@ + dec_digits(
                    self@.status as nat,
                ) + " "@ + self@.status_text + "\r\nContent-Length: "@ + dec_digits(
                    content_length_of(self@),
                ) + "\r\n"@ + header_lines(self@.headers, 0),
            decreases n - i,
        {
            let pair = self.headers.pair_at(i);
            let ghost prev = out@;
            out.append(pair.0.as_str());
            out.append(": ");
            out.append(pair.1.as_str());
            out.append("\r\n");
            proof {
                assert(out@ =~= prev + (self@.headers[i as int].0 + ": "@
                    + self@.headers[i as int].1 + "\r\n"@));
                assert(prev + header_lines(self@.headers, i as int) =~= out@ + header_lines(
                    self@.headers,
                    i as int + 1,
                ));
            }
            i += 1;
        }
        proof {
            assert(header_lines(self@.headers, n as int) =~= Seq::<char>::empty());
            assert(out@ =~= out@ + header_lines(self@.headers, n as int));
        }
        out.append("\r\n");
        match &self.body {
            Some(b) => out.append(b.as_str()),
            None => {
                proof {
                    assert(out@ =~= render(self@));
                }
            },
        }
        proof {
            assert(out@ =~= render(self@));
        }
        out
    }
}

/// The reason phrase for a status code, from the fixed table.
fn status_text_str(code: u16) -> (s: &'static str)
    ensures
        s@ == status_text_of(code),
{
    if code == 200 {
        "OK"
    } else if code == 201 {
        "Created"
    } else if code == 204 {
        "No Content"
    } else if code == 400 {
        "Bad Request"
    } else if code == 401 {
        "Unauthorized"
    } else if code == 403 {
        "Forbidden"
    } else if code == 404 {
        "Not Found"
    } else if code == 500 {
        "Internal Server Error"
    } else {
        "Unknown"
    }
}

/// The decimal form of a number, most significant digit first.
pub fn decimal_string(n: u64) -> (s: String)
    ensures
        s@ == dec_digits(n as nat),
    decreases n,
{
    if n < 10 {
        digit_str(n).to_owned()
    } else {
        let mut s = decimal_string(n / 10);
        s.append(digit_str(n % 10));
        s
    }
}

/// The one-character string for a decimal digit.
fn digit_str(d: u64) -> (s: &'static str)
    requires
        d < 10,
    ensures
        s@ == seq![digit_char(d as nat)],
{
    proof {
        reveal_strlit("0");
        reveal_strlit("1");
        reveal_strlit("2");
        reveal_strlit("3");
        reveal_strlit("4");
        reveal_strlit("5");
        reveal_strlit("6");
        reveal_strlit("7");
        reveal_strlit("8");
        reveal_strlit("9");
    }
    let s = if d == 0 {
        "0"
    } else if d == 1 {
        "1"
    } else if d == 2 {
        "2"
    } else if d == 3 {
        "3"
    } else if d == 4 {
        "4"
    } else if d == 5 {
        "5"
    } else if d == 6 {
        "6"
    } else if d == 7 {
        "7"
    } else if d == 8 {
        "8"
    } else {
        "9"
    };
    proof {
        assert(s@ =~= seq![digit_char(d as nat)]);
    }
    s
}

} // verus!

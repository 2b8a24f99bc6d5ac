//! The response and its bytes on the wire.

use crate::decimal::{decimal, decimal_string};
use crate::str_map::{key_index, lemma_put, put, StrMap};
use vstd::prelude::*;
use vstd::string::*;
use vstd::utf8::encode_utf8;

verus! {

/// A body given as text or as bytes.
#[derive(Clone, Debug, PartialEq, Eq)]
pub enum HttpBody {
    Text(String),
    Bytes(Vec<u8>),
}

impl HttpBody {
    /// The bytes of a body: those of its text in UTF-8, or the bytes themselves.
    pub open spec fn bytes(&self) -> Seq<u8> {
        match self {
            HttpBody::Text(s) => encode_utf8(s@),
            HttpBody::Bytes(b) => b@,
        }
    }

    /// The body as bytes.
    pub fn into_bytes(self) -> (r: Vec<u8>)
        ensures
            r@ == self.bytes(),
    {
        match self {
            HttpBody::Text(s) => s.as_str().as_bytes_vec(),
            HttpBody::Bytes(b) => b,
        }
    }
}

/// The status of a response.
#[derive(Clone, Copy, Debug, PartialEq, Eq, Structural)]
pub enum HttpStatus {
    Okay,
    NotFound,
    InternalSystemError,
    BadRequest,
}

impl HttpStatus {
    /// The status code as it stands in the status line.
    pub open spec fn code_text(&self) -> Seq<char> {
        match self {
            HttpStatus::Okay => "200"@,
            HttpStatus::NotFound => "404"@,
            HttpStatus::InternalSystemError => "500"@,
            HttpStatus::BadRequest => "400"@,
        }
    }

    /// The name of the status as it stands in the status line.
    pub open spec fn name_text(&self) -> Seq<char> {
        match self {
            HttpStatus::Okay => "OK"@,
            HttpStatus::NotFound => "NOT_FOUND"@,
            HttpStatus::InternalSystemError => "INTERNAL_SYSTEM_ERROR"@,
            HttpStatus::BadRequest => "BAD_REQUEST"@,
        }
    }

    /// The status code.
    pub fn code(&self) -> (r: &'static str)
        ensures
            r@ == self.code_text(),
    {
        match self {
            HttpStatus::Okay => "200",
            HttpStatus::NotFound => "404",
            HttpStatus::InternalSystemError => "500",
            HttpStatus::BadRequest => "400",
        }
    }

    /// The name of the status.
    pub fn name(&self) -> (r: &'static str)
        ensures
            r@ == self.name_text(),
    {
        match self {
            HttpStatus::Okay => "OK",
            HttpStatus::NotFound => "NOT_FOUND",
            HttpStatus::InternalSystemError => "INTERNAL_SYSTEM_ERROR",
            HttpStatus::BadRequest => "BAD_REQUEST",
        }
    }

    /// The code and the name of the status.
    pub fn values(&self) -> (r: (&'static str, &'static str))
        ensures
            r.0@ == self.code_text(),
            r.1@ == self.name_text(),
    {
        (self.code(), self.name())
    }
}

/// The status line of a response.
pub open spec fn status_line(status: HttpStatus) -> Seq<char> {
    "HTTP/1.1 "@ + status.code_text() + " "@ + status.name_text() + "\r\n"@
}

/// The lines of the first `n` headers, each as `name: value` and a line end.
pub open spec fn header_lines(headers: Seq<(Seq<char>, Seq<char>)>, n: int) -> Seq<char>
    decreases n,
{
    if n <= 0 {
        Seq::empty()
    } else {
        header_lines(headers, n - 1) + headers[n - 1].0 + ": "@ + headers[n - 1].1 + "\r\n"@
    }
}

/// Names and values of headers as text.
pub open spec fn text_entries(e: Seq<(Seq<char>, String)>) -> Seq<(Seq<char>, Seq<char>)> {
    Seq::new(e.len(), |i: int| (e[i].0, e[i].1@))
}

/// Storing a value and taking the text of the entries can be done in either order.
proof fn lemma_text_entries_put(e: Seq<(Seq<char>, String)>, k: Seq<char>, v: String)
    ensures
        key_index(text_entries(e), k) == key_index(e, k),
        text_entries(put(e, k, v)) == put(text_entries(e), k, v@),
    decreases e.len(),
{
    if e.len() > 0 {
        assert(text_entries(e).skip(1) =~= text_entries(e.skip(1)));
        lemma_text_entries_put(e.skip(1), k, v);
    }
    lemma_put(e, k, v);
    assert(text_entries(put(e, k, v)) =~= put(text_entries(e), k, v@));
}

/// The bytes of a response on the wire: the status line and the header
/// lines, and then, only if the body is not empty, an empty line and the body.
pub open spec fn wire(
    status: HttpStatus,
    headers: Seq<(Seq<char>, Seq<char>)>,
    body: Seq<u8>,
) -> Seq<u8> {
    encode_utf8(status_line(status)) + encode_utf8(header_lines(headers, headers.len() as int))
        + if body.len() > 0 {
        seq![0x0du8, 0x0au8] + body
    } else {
        Seq::empty()
    }
}

/// A response: a status, headers and a body. The header `Content-Length`
/// always holds the length of the body.
#[derive(Debug)]
pub struct HttpResponse {
    status: HttpStatus,
    content: Vec<u8>,
    headers: StrMap<String>,
}

impl HttpResponse {
    #[verifier::type_invariant]
    spec fn length_is_declared(&self) -> bool {
        self.headers@.contains_key("Content-Length"@) && self.headers@["Content-Length"@]@
            == decimal(self.content@.len())
    }

    /// The status of the response.
    pub closed spec fn status(&self) -> HttpStatus {
        self.status
    }

    /// The body of the response.
    pub closed spec fn body(&self) -> Seq<u8> {
        self.content@
    }

    /// The headers of the response, in their order on the wire.
    pub closed spec fn headers(&self) -> Seq<(Seq<char>, Seq<char>)> {
        text_entries(self.headers.entries())
    }

    /// A response with the given status and body, and with the header
    /// `Content-Length` as its only header.
    pub fn new(status: HttpStatus, content: Vec<u8>) -> (r: HttpResponse)
        ensures
            r.status() == status,
            r.body() == content@,
            r.headers() == seq![("Content-Length"@, decimal(content@.len()))],
    {
        let r = HttpResponse::new_with_headers(status, StrMap::new(), content);
        assert(r.headers() =~= seq![("Content-Length"@, decimal(content@.len()))]) by {
            assert(text_entries(Seq::<(Seq<char>, String)>::empty()) =~= Seq::empty());
        }
        r
    }

    /// An `OK` response with the given body.
    pub fn ok_from(content: Vec<u8>) -> (r: HttpResponse)
        ensures
            r.status() == HttpStatus::Okay,
            r.body() == content@,
            r.headers() == seq![("Content-Length"@, decimal(content@.len()))],
    {
        HttpResponse::new(HttpStatus::Okay, content)
    }

    /// An `OK` response without body.
    pub fn ok() -> (r: HttpResponse)
        ensures
            r.status() == HttpStatus::Okay,
            r.body() == Seq::<u8>::empty(),
            r.headers() == seq![("Content-Length"@, decimal(0))],
    {
        HttpResponse::new(HttpStatus::Okay, Vec::new())
    }

    /// A `NOT_FOUND` response without body.
    pub fn not_found() -> (r: HttpResponse)
        ensures
            r.status() == HttpStatus::NotFound,
            r.body() == Seq::<u8>::empty(),
            r.headers() == seq![("Content-Length"@, decimal(0))],
    {
        HttpResponse::new(HttpStatus::NotFound, Vec::new())
    }

    /// A `NOT_FOUND` response with the given body.
    pub fn not_found_from(content: Vec<u8>) -> (r: HttpResponse)
        ensures
            r.status() == HttpStatus::NotFound,
            r.body() == content@,
            r.headers() == seq![("Content-Length"@, decimal(content@.len()))],
    {
        HttpResponse::new(HttpStatus::NotFound, content)
    }

    /// An `INTERNAL_SYSTEM_ERROR` response with the given body.
    pub fn err_from(content: Vec<u8>) -> (r: HttpResponse)
        ensures
            r.status() == HttpStatus::InternalSystemError,
            r.body() == content@,
            r.headers() == seq![("Content-Length"@, decimal(content@.len()))],
    {
        HttpResponse::new(HttpStatus::InternalSystemError, content)
    }

    /// An `INTERNAL_SYSTEM_ERROR` response without body.
    pub fn err() -> (r: HttpResponse)
        ensures
            r.status() == HttpStatus::InternalSystemError,
            r.body() == Seq::<u8>::empty(),
            r.headers() == seq![("Content-Length"@, decimal(0))],
    {
        HttpResponse::new(HttpStatus::InternalSystemError, Vec::new())
    }

    /// A `BAD_REQUEST` response with the given body.
    pub fn bad_from(content: Vec<u8>) -> (r: HttpResponse)
        ensures
            r.status() == HttpStatus::BadRequest,
            r.body() == content@,
            r.headers() == seq![("Content-Length"@, decimal(content@.len()))],
    {
        HttpResponse::new(HttpStatus::BadRequest, content)
    }

    /// A `BAD_REQUEST` response without body.
    pub fn bad() -> (r: HttpResponse)
        ensures
            r.status() == HttpStatus::BadRequest,
            r.body() == Seq::<u8>::empty(),
            r.headers() == seq![("Content-Length"@, decimal(0))],
    {
        HttpResponse::new(HttpStatus::BadRequest, Vec::new())
    }

    /// A response with the given status, headers and body. The header
    /// `Content-Length` is set to the length of the body: in its place if
    /// `headers` has it, else behind the last header.
    pub fn new_with_headers(status: HttpStatus, headers: StrMap<String>, content: Vec<u8>) -> (r:
        HttpResponse)
        ensures
            r.status() == status,
            r.body() == content@,
            r.headers() == put(
                text_entries(headers.entries()),
                "Content-Length"@,
                decimal(content@.len()),
            ),
    {
        let mut headers = headers;
        let ghost given = headers.entries();
        let length = decimal_string(content.len() as u64);
        proof {
            lemma_text_entries_put(given, "Content-Length"@, length);
        }
        headers.insert("Content-Length".to_owned(), length);
        HttpResponse { status, content, headers }
    }

    /// The status of the response.
    pub fn get_status(&self) -> (s: HttpStatus)
        ensures
            s == self.status(),
    {
        self.status
    }

    /// The body of the response.
    pub fn content(&self) -> (c: &Vec<u8>)
        ensures
            c@ == self.body(),
    {
        &self.content
    }

    /// The value of the header `name`, if the response has it.
    pub fn header(&self, name: &str) -> (r: Option<&String>)
        ensures
            match r {
                Some(v) => key_index(self.headers(), name@) < self.headers().len() && v@
                    == self.headers()[key_index(self.headers(), name@)].1,
                None => key_index(self.headers(), name@) == self.headers().len(),
            },
            name@ == "Content-Length"@ ==> r is Some && r->0@ == decimal(self.body().len()),
    {
        proof {
            use_type_invariant(self);
        }
        let r = self.headers.get(name);
        proof {
            lemma_text_entries_put(self.headers.entries(), name@, arbitrary());
            lemma_put(self.headers.entries(), name@, arbitrary::<String>());
        }
        r
    }

    /// The length of the body in bytes.
    pub fn content_len(&self) -> (n: usize)
        ensures
            n == self.body().len(),
    {
        self.content.len()
    }

    /// The status line.
    pub fn gen_first_line(&self) -> (line: String)
        ensures
            line@ == status_line(self.status()),
    {
        let mut line = "HTTP/1.1 ".to_owned();
        line.append(self.status.code());
        line.append(" ");
        line.append(self.status.name());
        line.append("\r\n");
        line
    }

    /// The header lines, in the order of the headers.
    pub fn gen_headers(&self) -> (lines: String)
        ensures
            lines@ == header_lines(self.headers(), self.headers().len() as int),
    {
        let mut lines = String::new();
        let n = self.headers.len();
        let mut i: usize = 0;
        while i < n
            invariant
                i <= n,
                n == self.headers().len(),
                lines@ == header_lines(self.headers(), i as int),
            decreases n - i,
        {
            lines.append(self.headers.key_at(i).as_str());
            lines.append(": ");
            lines.append(self.headers.value_at(i).as_str());
            lines.append("\r\n");
            i += 1;
        }
        lines
    }

    /// Writes the response to `out` as it goes over the wire.
    pub fn write(&self, out: &mut Vec<u8>)
        ensures
            final(out)@ == old(out)@ + wire(self.status(), self.headers(), self.body()),
    {
        let first = self.gen_first_line();
        let lines = self.gen_headers();
        out.extend_from_slice(first.as_str().as_bytes());
        out.extend_from_slice(lines.as_str().as_bytes());
        if self.content_len() > 0 {
            out.push(0x0d);
            out.push(0x0a);
            out.extend_from_slice(self.content.as_slice());
        }
        assert(final(out)@ =~= old(out)@ + wire(self.status(), self.headers(), self.body()));
    }
}

} // verus!

//! HTTP/1.1 responses: status, headers and body, and their bytes on the wire.
use vstd::prelude::*;
use vstd::utf8::encode_utf8;
use vstd::string::{StringSliceAdditionalSpecFns, StringExecFns};
use bytes::Bytes;
use crate::buf::{bytes_view, bytes_mut_view, bm_with_capacity, bm_extend, bm_freeze, b_as_slice, b_copy_from_slice};
use crate::num::{decimal, push_decimal, decimal_string};
use crate::http::h2::hpack::headers_view;
use crate::http::parser::{map_insert, header_insert};

verus! {

/// An HTTP response.
#[derive(Debug, Clone)]
pub struct HttpResponse {
    pub status: u16,
    pub status_text: String,
    /// Header names and values, in the order the names were first set.
    pub headers: Vec<(String, String)>,
    pub body: Bytes,
}

/// A response as the contracts see it.
pub struct ResponseV {
    pub status: u16,
    pub status_text: Seq<char>,
    pub headers: Seq<(Seq<char>, Seq<char>)>,
    pub body: Seq<u8>,
}

impl HttpResponse {
    /// The response, with strings and body taken by their contents.
    pub open spec fn view(&self) -> ResponseV {
        ResponseV {
            status: self.status,
            status_text: self.status_text@,
            headers: headers_view(self.headers@),
            body: bytes_view(self.body),
        }
    }
}

/// The reason phrase of a status code.
pub open spec fn status_text_of(status: u16) -> Seq<char> {
    if status == 200 { "OK"@ }
    else if status == 201 { "Created"@ }
    else if status == 204 { "No Content"@ }
    else if status == 400 { "Bad Request"@ }
    else if status == 404 { "Not Found"@ }
    else if status == 500 { "Internal Server Error"@ }
    else { "Unknown"@ }
}

/// A new response: the status, its reason phrase, the body, and headers
/// Content-Length (the body's length) and Content-Type text/plain.
pub open spec fn new_response(status: u16, body: Seq<u8>) -> ResponseV {
    ResponseV {
        status,
        status_text: status_text_of(status),
        headers: seq![("Content-Length"@, decimal(body.len())), ("Content-Type"@, "text/plain"@)],
        body,
    }
}

/// The header lines "name: value\r\n", in order.
pub open spec fn fields_text(h: Seq<(Seq<char>, Seq<char>)>) -> Seq<char>
    decreases h.len(),
{
    if h.len() == 0 {
        Seq::empty()
    } else {
        fields_text(h.drop_last()) + h.last().0 + ": "@ + h.last().1 + "\r\n"@
    }
}

/// The status line, the header lines and the blank line that ends them.
pub open spec fn head_text(r: ResponseV) -> Seq<char> {
    "HTTP/1.1 "@ + decimal(r.status as nat) + " "@ + r.status_text + "\r\n"@ + fields_text(r.headers) + "\r\n"@
}

/// The bytes of a response: its head in UTF-8, then the body.
pub open spec fn response_bytes(r: ResponseV) -> Seq<u8> {
    encode_utf8(head_text(r)) + r.body
}

/// The reason phrase of a status code, as a string.
fn status_text(status: u16) -> (s: String)
    ensures
        s@ == status_text_of(status),
{
    let t = if status == 200 { "OK" }
        else if status == 201 { "Created" }
        else if status == 204 { "No Content" }
        else if status == 400 { "Bad Request" }
        else if status == 404 { "Not Found" }
        else if status == 500 { "Internal Server Error" }
        else { "Unknown" };
    String::from_str(t)
}

impl HttpResponse {
    /// A response with the given status and body (see `new_response`).
    pub fn new(status: u16, body: &str) -> (r: Self)
        ensures
            r@ == new_response(status, body.spec_bytes()),
    {
        let body = b_copy_from_slice(body.as_bytes());
        let mut headers: Vec<(String, String)> = Vec::new();
        let len = decimal_string(b_as_slice(&body).len());
        headers.push((String::from_str("Content-Length"), len));
        headers.push((String::from_str("Content-Type"), String::from_str("text/plain")));
        let r = HttpResponse { status, status_text: status_text(status), headers, body };
        assert(r@.headers =~= new_response(status, bytes_view(r.body)).headers);
        r
    }

    /// A 200 OK response with the given body.
    pub fn ok(body: &str) -> (r: Self)
        ensures
            r@ == new_response(200, body.spec_bytes()),
    {
        HttpResponse::new(200, body)
    }

    /// A 404 Not Found response, with body "404 Not Found".
    pub fn not_found() -> (r: Self)
        ensures
            r@ == new_response(404, "404 Not Found".spec_bytes()),
    {
        HttpResponse::new(404, "404 Not Found")
    }

    /// A 500 Internal Server Error response, with body "500 Internal Server Error".
    pub fn internal_error() -> (r: Self)
        ensures
            r@ == new_response(500, "500 Internal Server Error".spec_bytes()),
    {
        HttpResponse::new(500, "500 Internal Server Error")
    }

    /// The response with header `key` set to `value` (replacing an earlier value of
    /// the same name in place).
    pub fn with_header(self, key: &str, value: &str) -> (r: Self)
        ensures
            r@ == (ResponseV { headers: map_insert(self@.headers, key@, value@), ..self@ }),
    {
        let mut r = self;
        header_insert(&mut r.headers, String::from_str(key), String::from_str(value));
        r
    }

    /// The response with Content-Type application/json.
    pub fn json(self) -> (r: Self)
        ensures
            r@ == (ResponseV { headers: map_insert(self@.headers, "Content-Type"@, "application/json"@), ..self@ }),
    {
        let mut r = self;
        header_insert(&mut r.headers, String::from_str("Content-Type"), String::from_str("application/json"));
        r
    }

    /// The response with Content-Type text/html; charset=utf-8.
    pub fn html(self) -> (r: Self)
        ensures
            r@ == (ResponseV {
                headers: map_insert(self@.headers, "Content-Type"@, "text/html; charset=utf-8"@),
                ..self@
            }),
    {
        let mut r = self;
        header_insert(&mut r.headers, String::from_str("Content-Type"), String::from_str("text/html; charset=utf-8"));
        r
    }

    /// The response on the wire (see `response_bytes`).
    pub fn to_bytes(&self) -> (res: Bytes)
        requires
            response_bytes(self@).len() <= usize::MAX,
        ensures
            bytes_view(res) == response_bytes(self@),
    {
        let body = b_as_slice(&self.body);
        let cap = if body.len() <= usize::MAX - 256 { 256 + body.len() } else { usize::MAX };
        let mut buf = bm_with_capacity(cap);
        let mut head = String::from_str("HTTP/1.1 ");
        push_decimal(&mut head, self.status as usize);
        head.append(" ");
        head.append(self.status_text.as_str());
        head.append("\r\n");
        let ghost hv = self@.headers;
        let mut i: usize = 0;
        assert(hv.take(0) =~= Seq::<(Seq<char>, Seq<char>)>::empty());
        assert(head@ =~= "HTTP/1.1 "@ + decimal(self.status as nat) + " "@ + self@.status_text + "\r\n"@
            + fields_text(hv.take(0)));
        while i < self.headers.len()
            invariant
                i <= self.headers@.len(),
                hv == headers_view(self.headers@),
                head@ == "HTTP/1.1 "@ + decimal(self.status as nat) + " "@ + self@.status_text + "\r\n"@
                    + fields_text(hv.take(i as int)),
            decreases self.headers@.len() - i,
        {
            let ghost h1 = hv.take(i + 1);
            assert(h1.drop_last() =~= hv.take(i as int));
            assert(h1.last() == (self.headers@[i as int].0@, self.headers@[i as int].1@));
            head.append(self.headers[i].0.as_str());
            head.append(": ");
            head.append(self.headers[i].1.as_str());
            head.append("\r\n");
            i = i + 1;
            assert(head@ =~= "HTTP/1.1 "@ + decimal(self.status as nat) + " "@ + self@.status_text + "\r\n"@
                + fields_text(hv.take(i as int)));
        }
        head.append("\r\n");
        assert(hv.take(i as int) =~= hv);
        assert(head@ =~= head_text(self@));
        proof {
            vstd::utf8::encode_utf8_decode_utf8(head@);
        }
        bm_extend(&mut buf, head.as_str().as_bytes());
        bm_extend(&mut buf, body);
        bm_freeze(buf)
    }
}

} // verus!

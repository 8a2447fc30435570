//! Route handlers: each writes its HTTP response into the connection's output buffer.
use vstd::prelude::*;
use vstd::string::StringSliceAdditionalSpecFns;
use crate::buf::{bytes_view, bytes_mut_view, bm_extend, b_as_slice, bm_len};
use crate::conn::{ConnState, ConnV};
use crate::http::response::{HttpResponse, ResponseV, new_response, response_bytes, head_text, fields_text};
use crate::http::parser::map_insert;
use crate::num::decimal;
use crate::text::lemma_utf8_len_bound;

verus! {

/// The landing page served at "/".
pub const LANDING_PAGE: &'static str = "<!DOCTYPE html>\n<html lang=\"en\">\n<head><meta charset=\"utf-8\"><title>NERS</title></head>\n<body>\n<h1>Hello, World!</h1>\n<p>Served by NERS, a staged web server.</p>\n</body>\n</html>\n";

/// The JSON body served at "/api/test".
pub const API_BODY: &'static str = "{\"status\": \"ok\", \"message\": \"NERS - High Performance Web Server\"}";

/// The JSON body served at "/health".
pub const HEALTH_BODY: &'static str = "{\"status\": \"healthy\"}";

/// The response to "/": the landing page as HTML.
pub open spec fn hello_response() -> ResponseV {
    let r = new_response(200, LANDING_PAGE.spec_bytes());
    ResponseV { headers: map_insert(r.headers, "Content-Type"@, "text/html; charset=utf-8"@), ..r }
}

/// A 200 response with a JSON body.
pub open spec fn json_response(body: &str) -> ResponseV {
    let r = new_response(200, body.spec_bytes());
    ResponseV { headers: map_insert(r.headers, "Content-Type"@, "application/json"@), ..r }
}

/// The 404 response.
pub open spec fn not_found_response() -> ResponseV {
    new_response(404, "404 Not Found".spec_bytes())
}

/// Appends the bytes of a response to the connection's output buffer.
fn write_response<S>(conn: &mut ConnState<S>, response: &HttpResponse)
    requires
        response_bytes(response@).len() <= usize::MAX,
        bytes_mut_view(old(conn).write_buf).len() + response_bytes(response@).len() <= usize::MAX,
    ensures
        final(conn)@ == (ConnV { write_buf: old(conn)@.write_buf + response_bytes(response@), ..old(conn)@ }),
{
    let bytes = response.to_bytes();
    bm_extend(&mut conn.write_buf, b_as_slice(&bytes));
}

/// The 404 response on the wire fits in a few hundred bytes.
proof fn lemma_not_found_len()
    ensures
        response_bytes(not_found_response()).len() <= 1024,
{
    let r = not_found_response();
    reveal_strlit("404 Not Found");
    reveal_strlit("Not Found");
    reveal_strlit("Content-Length");
    reveal_strlit("Content-Type");
    reveal_strlit("text/plain");
    reveal_strlit("HTTP/1.1 ");
    reveal_strlit(" ");
    reveal_strlit("\r\n");
    reveal_strlit(": ");
    assert(decimal(404).len() == 3) by { reveal_with_fuel(decimal, 3); }
    let body = "404 Not Found".spec_bytes();
    lemma_utf8_len_bound("404 Not Found"@);
    assert(body.len() <= 52);
    assert(decimal(body.len()).len() <= 2) by { reveal_with_fuel(decimal, 3); }
    reveal_with_fuel(fields_text, 3);
    assert(head_text(r).len() <= 200);
    lemma_utf8_len_bound(head_text(r));
}

/// Answers an unknown path: appends the 404 response to the output buffer.
pub fn handle_not_found<S>(conn: &mut ConnState<S>)
    ensures
        final(conn)@ == (ConnV { write_buf: old(conn)@.write_buf + response_bytes(not_found_response()), ..old(conn)@ }),
{
    let _ = crate::buf::bm_len(&conn.write_buf);
    let response = HttpResponse::not_found();
    proof { lemma_not_found_len(); }
    write_response(conn, &response);
}

/// A 200 response with a short body and its Content-Type replaced fits in a few
/// kilobytes on the wire.
proof fn lemma_short_ok_len(body: Seq<char>, content_type: Seq<char>)
    requires
        body.len() <= 500,
        content_type.len() <= 30,
    ensures
        ({
            let r = new_response(200, vstd::utf8::encode_utf8(body));
            response_bytes(ResponseV { headers: map_insert(r.headers, "Content-Type"@, content_type), ..r }).len()
                <= 4096
        }),
{
    let r0 = new_response(200, vstd::utf8::encode_utf8(body));
    let r = ResponseV { headers: map_insert(r0.headers, "Content-Type"@, content_type), ..r0 };
    reveal_strlit("OK");
    reveal_strlit("Content-Length");
    reveal_strlit("Content-Type");
    reveal_strlit("text/plain");
    reveal_strlit("HTTP/1.1 ");
    reveal_strlit(" ");
    reveal_strlit("\r\n");
    reveal_strlit(": ");
    assert(decimal(200).len() == 3) by { reveal_with_fuel(decimal, 3); }
    lemma_utf8_len_bound(body);
    let n = vstd::utf8::encode_utf8(body).len();
    assert(n <= 2000);
    assert(decimal(n).len() <= 4) by { reveal_with_fuel(decimal, 5); }
    assert("Content-Type"@ != "Content-Length"@) by {
        assert("Content-Type"@[8] != "Content-Length"@[8]);
    }
    assert(r.headers.len() == 2) by {
        reveal_with_fuel(crate::http::parser::find_key_from, 3);
    }
    assert(r.headers[0] == r0.headers[0]) by {
        reveal_with_fuel(crate::http::parser::find_key_from, 3);
    }
    assert(r.headers[1] == ("Content-Type"@, content_type)) by {
        reveal_with_fuel(crate::http::parser::find_key_from, 3);
    }
    reveal_with_fuel(fields_text, 3);
    assert(head_text(r).len() <= 300);
    lemma_utf8_len_bound(head_text(r));
}

/// Answers "/": appends the landing page, as HTML, to the output buffer.
pub fn handle_hello<S>(conn: &mut ConnState<S>)
    ensures
        final(conn)@ == (ConnV { write_buf: old(conn)@.write_buf + response_bytes(hello_response()), ..old(conn)@ }),
{
    let _ = bm_len(&conn.write_buf);
    let response = HttpResponse::ok(LANDING_PAGE).html();
    proof {
        reveal_strlit("<!DOCTYPE html>\n<html lang=\"en\">\n<head><meta charset=\"utf-8\"><title>NERS</title></head>\n<body>\n<h1>Hello, World!</h1>\n<p>Served by NERS, a staged web server.</p>\n</body>\n</html>\n");
        reveal_strlit("text/html; charset=utf-8");
        lemma_short_ok_len(LANDING_PAGE@, "text/html; charset=utf-8"@);
    }
    write_response(conn, &response);
}

/// Answers "/api/test": appends a JSON status message to the output buffer.
pub fn handle_json<S>(conn: &mut ConnState<S>)
    ensures
        final(conn)@ == (ConnV { write_buf: old(conn)@.write_buf + response_bytes(json_response(API_BODY)), ..old(conn)@ }),
{
    let _ = bm_len(&conn.write_buf);
    let response = HttpResponse::ok(API_BODY).json();
    proof {
        reveal_strlit("{\"status\": \"ok\", \"message\": \"NERS - High Performance Web Server\"}");
        reveal_strlit("application/json");
        lemma_short_ok_len(API_BODY@, "application/json"@);
    }
    write_response(conn, &response);
}

/// Answers "/health": appends a JSON health message to the output buffer.
pub fn handle_health<S>(conn: &mut ConnState<S>)
    ensures
        final(conn)@ == (ConnV { write_buf: old(conn)@.write_buf + response_bytes(json_response(HEALTH_BODY)), ..old(conn)@ }),
{
    let _ = bm_len(&conn.write_buf);
    let response = HttpResponse::ok(HEALTH_BODY).json();
    proof {
        reveal_strlit("{\"status\": \"healthy\"}");
        reveal_strlit("application/json");
        lemma_short_ok_len(HEALTH_BODY@, "application/json"@);
    }
    write_response(conn, &response);
}

} // verus!

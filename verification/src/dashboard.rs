//! The local analytics page: which resource a request asks for, and the
//! HTTP responses that carry the JSON data and the page.

use vstd::prelude::*;
use crate::text;

verus! {

/// What a request asks for.
#[derive(Debug, Clone, Copy, PartialEq, Eq, Structural)]
pub enum Route {
    /// `GET /api/data...`: the analytics as JSON.
    Data,
    /// Any other `GET /...`: the page.
    Page,
    /// Anything else.
    NotFound,
}

/// `s` without one trailing carriage return.
pub open spec fn strip_cr(s: Seq<char>) -> Seq<char> {
    if s.len() > 0 && s.last() == '\r' {
        s.drop_last()
    } else {
        s
    }
}

/// The first line of `s` as `str::lines` yields it (empty when `s` is empty):
/// up to the first `\n`, without a `\r` right before it.
pub open spec fn first_line_spec(s: Seq<char>) -> Seq<char> {
    match text::find_from(s, seq!['\n'], 0) {
        Some(p) => strip_cr(s.take(p)),
        None => s,
    }
}

/// The first line of a request.
pub fn first_line(request: &str) -> (r: String)
    ensures
        r@ == first_line_spec(request@),
{
    let chars = text::chars_of(request);
    let mut nl: Vec<char> = Vec::new();
    nl.push('\n');
    assert(nl@ =~= seq!['\n']);
    proof { text::lemma_find_from(chars@, nl@, 0); }
    let line = match text::find_chars(&chars, &nl, 0) {
        Some(p) => {
            let l = text::slice_chars(&chars, 0, p);
            assert(l@ =~= chars@.take(p as int));
            if l.len() > 0 && l[l.len() - 1] == '\r' {
                let l2 = text::slice_chars(&l, 0, l.len() - 1);
                assert(l2@ =~= l@.drop_last());
                l2
            } else {
                l
            }
        },
        None => chars,
    };
    text::string_from_chars(&line)
}

/// `s` starts with `p`.
pub open spec fn has_prefix(s: Seq<char>, p: Seq<char>) -> bool {
    p.len() <= s.len() && s.take(p.len() as int) == p
}

fn starts_with_chars(s: &Vec<char>, p: &Vec<char>) -> (r: bool)
    ensures
        r == has_prefix(s@, p@),
{
    if p.len() > s.len() {
        return false;
    }
    let head = text::slice_chars(s, 0, p.len());
    assert(head@ =~= s@.take(p.len() as int));
    crate::order::chars_equal(&head, p)
}

/// Which resource the request line asks for.
pub fn route(first_line: &str) -> (r: Route)
    ensures
        has_prefix(first_line@, "GET /api/data"@) ==> r == Route::Data,
        !has_prefix(first_line@, "GET /api/data"@) && has_prefix(first_line@, "GET /"@) ==> r
            == Route::Page,
        !has_prefix(first_line@, "GET /"@) && !has_prefix(first_line@, "GET /api/data"@) ==> r
            == Route::NotFound,
{
    let line = text::chars_of(first_line);
    let data = text::chars_of("GET /api/data");
    let page = text::chars_of("GET /");
    if starts_with_chars(&line, &data) {
        Route::Data
    } else if starts_with_chars(&line, &page) {
        Route::Page
    } else {
        Route::NotFound
    }
}

/// Header of the JSON response, up to the length.
pub const JSON_HEAD: &'static str = "HTTP/1.1 200 OK\r\nContent-Type: application/json\r\nContent-Length: ";

/// Header of the JSON response, after the length.
pub const JSON_TAIL: &'static str = "\r\nAccess-Control-Allow-Origin: *\r\nCache-Control: no-cache\r\nConnection: close\r\n\r\n";

/// Header of the page response, up to the length.
pub const HTML_HEAD: &'static str = "HTTP/1.1 200 OK\r\nContent-Type: text/html; charset=utf-8\r\nContent-Length: ";

/// Header of the page response, after the length.
pub const HTML_TAIL: &'static str = "\r\nConnection: close\r\n\r\n";

/// The response for anything but a page or the data.
pub const NOT_FOUND: &'static str = "HTTP/1.1 404 Not Found\r\nContent-Length: 0\r\nConnection: close\r\n\r\n";

fn response(head: &str, body: &str, tail: &str) -> (r: String)
    requires
        text::utf8_len(body@) <= usize::MAX,
    ensures
        r@ == head@ + text::dec(text::utf8_len(body@)) + tail@ + body@,
{
    proof { text::lemma_utf8_len_encode(body@); }
    let n = body.len();
    let digits = text::dec_chars(n as u64);
    let len_text = text::string_from_chars(&digits);
    let mut out = String::from_str(head);
    out.append(len_text.as_str());
    out.append(tail);
    out.append(body);
    out
}

/// The response that carries the analytics JSON `body`; its length is the
/// body's length in bytes.
pub fn json_response(body: &str) -> (r: String)
    requires
        text::utf8_len(body@) <= usize::MAX,
    ensures
        r@ == JSON_HEAD@ + text::dec(text::utf8_len(body@)) + JSON_TAIL@ + body@,
{
    response(JSON_HEAD, body, JSON_TAIL)
}

/// The response that carries the page `body`; its length is the body's
/// length in bytes.
pub fn html_response(body: &str) -> (r: String)
    requires
        text::utf8_len(body@) <= usize::MAX,
    ensures
        r@ == HTML_HEAD@ + text::dec(text::utf8_len(body@)) + HTML_TAIL@ + body@,
{
    response(HTML_HEAD, body, HTML_TAIL)
}

} // verus!

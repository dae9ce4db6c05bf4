//! The bytes of the server's HTTP responses: a status line, a
//! `Content-Length` header and a body.
use vstd::prelude::*;
use crate::decimal::{decimal_string, push_decimal};
use crate::text::ascii;
use vstd::utf8::encode_utf8;

verus! {

/// A carriage return and a line feed.
pub open spec fn crlf() -> Seq<u8> {
    seq![13u8, 10u8]
}

/// The name of the length header, with its colon and space.
pub open spec fn content_length_label() -> Seq<u8> {
    ascii("Content-Length: "@)
}

/// A response made of `status`, a `Content-Length` header that states
/// `length`, an empty line and `body`.
pub open spec fn framed(status: Seq<u8>, length: nat, body: Seq<u8>) -> Seq<u8> {
    status + crlf() + content_length_label() + ascii(decimal_string(length)) + crlf() + crlf()
        + body
}

/// A response made of `status` and a line end alone.
pub open spec fn status_only(status: Seq<u8>) -> Seq<u8> {
    status + crlf()
}

/// The status line of a request that was served.
pub fn status_ok() -> (r: &'static str)
    ensures
        r@ == "HTTP/1.1 200 OK"@,
{
    "HTTP/1.1 200 OK"
}

/// The status line of a request for a page that does not exist.
pub fn status_not_found() -> (r: &'static str)
    ensures
        r@ == "HTTP/1.1 404 NOT FOUND"@,
{
    "HTTP/1.1 404 NOT FOUND"
}

fn append_bytes(out: &mut Vec<u8>, tail: &[u8])
    ensures
        final(out)@ == old(out)@ + tail@,
{
    let n = tail.len();
    let mut i: usize = 0;
    let ghost start = out@;
    while i < n
        invariant
            n == tail@.len(),
            i <= n,
            out@ == start + tail@.take(i as int),
        decreases n - i,
    {
        out.push(tail[i]);
        i += 1;
        assert(out@ =~= start + tail@.take(i as int));
    }
    assert(tail@.take(n as int) =~= tail@);
}

fn push_crlf(out: &mut Vec<u8>)
    ensures
        final(out)@ == old(out)@ + crlf(),
{
    out.push(13u8);
    out.push(10u8);
    assert(out@ =~= old(out)@ + crlf());
}

/// Builds the response `status_line`, `Content-Length: length`, an empty line,
/// then `body`, as the server writes it with
/// `"{}\r\nContent-Length: {}\r\n\r\n{}"`.
pub fn frame_response(status_line: &str, length: usize, body: &[u8]) -> (r: Vec<u8>)
    ensures
        r@ == framed(encode_utf8(status_line@), length as nat, body@),
{
    let mut out = status_line.as_bytes_vec();
    push_crlf(&mut out);
    let label = "Content-Length: ";
    proof {
        reveal_strlit("Content-Length: ");
        broadcast use vstd::string::group_string_axioms;
    }
    assert(vstd::string::is_ascii(label));
    let label_bytes = label.as_bytes_vec();
    assert(label_bytes@ =~= content_length_label());
    append_bytes(&mut out, label_bytes.as_slice());
    push_decimal(&mut out, length);
    push_crlf(&mut out);
    push_crlf(&mut out);
    append_bytes(&mut out, body);
    out
}

/// Builds the response made of `status_line` and a line end, as the server
/// writes it with `"{}\r\n"`.
pub fn status_response(status_line: &str) -> (r: Vec<u8>)
    ensures
        r@ == status_only(encode_utf8(status_line@)),
{
    let mut out = status_line.as_bytes_vec();
    push_crlf(&mut out);
    out
}

} // verus!

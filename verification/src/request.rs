//! Reading the first bytes of a request: which answer the document server
//! gives (`Request`), and which page the static server sends (`StaticPage`).
use vstd::prelude::*;
use crate::response::{framed, frame_response, status_not_found, status_ok};
use crate::text::{
    ascii,
    byte_views,
    bytes_start_with,
    has_prefix,
    split_all,
    split_bytes,
    strip_leading,
    trim_start_byte,
    lemma_first_occurrence,
    lemma_split_all_concat,
    lemma_split_all_no_separator,
    lemma_split_all_nonempty,
    lemma_strip_leading_is_skip,
};
use vstd::utf8::{encode_utf8, valid_utf8};

verus! {

/// Whether `bytes` is UTF-8: `std::str::from_utf8` returns `Ok` exactly on
/// the byte strings that are valid UTF-8 (no overlong forms, no surrogates,
/// no truncated sequence), which is what vstd's `valid_utf8` states.
#[verifier::external_body]
fn utf8_is_valid(bytes: &[u8]) -> (r: bool)
    ensures
        r == valid_utf8(bytes@),
{
    std::str::from_utf8(bytes).is_ok()
}

/// The bytes of an ASCII text.
fn ascii_bytes(s: &str) -> (r: Vec<u8>)
    requires
        vstd::string::is_ascii(s),
    ensures
        r@ == ascii(s@),
{
    proof {
        broadcast use vstd::string::group_string_axioms;
    }
    let b = s.as_bytes_vec();
    assert(b@ =~= ascii(s@));
    b
}

/// What the document server makes of a request.
#[derive(Debug, PartialEq, Eq)]
pub enum Request {
    /// `GET /sleep HTTP/1.1`: wait, then list the store.
    SlowGet,
    /// Any other `GET`, or a `POST`: list the store.
    Get,
    /// `PUT`: store the named file.
    Put(Vec<u8>),
    /// `DELETE`: remove the documents with this title.
    Delete(Vec<u8>),
    /// `HEAD`: the status line alone.
    Head,
    /// Anything else: no answer.
    Unknown,
}

/// What a request means, with the name as bytes.
pub enum RequestView {
    SlowGet,
    Get,
    Put(Seq<u8>),
    Delete(Seq<u8>),
    Head,
    Unknown,
}

impl View for Request {
    type V = RequestView;

    open spec fn view(&self) -> RequestView {
        match self {
            Request::SlowGet => RequestView::SlowGet,
            Request::Get => RequestView::Get,
            Request::Put(n) => RequestView::Put(n@),
            Request::Delete(n) => RequestView::Delete(n@),
            Request::Head => RequestView::Head,
            Request::Unknown => RequestView::Unknown,
        }
    }
}

/// Why the document server cannot serve a request.
#[derive(Debug, PartialEq, Eq, Structural, Clone, Copy)]
pub enum RequestError {
    /// The received bytes are not UTF-8.
    InvalidUtf8,
    /// A `PUT` or `DELETE` with no space, hence no name.
    MissingTarget,
}

/// The name that a `PUT` or `DELETE` request carries: its second
/// space-separated field without leading slashes.
pub open spec fn target_of(buffer: Seq<u8>) -> Option<Seq<u8>> {
    let fields = split_all(buffer, 32u8);
    if fields.len() > 1 {
        Some(strip_leading(fields[1], 47u8))
    } else {
        None
    }
}

/// What the document server makes of the received bytes `buffer`.
pub open spec fn route_spec(buffer: Seq<u8>) -> Result<RequestView, RequestError> {
    if !valid_utf8(buffer) {
        Err(RequestError::InvalidUtf8)
    } else if has_prefix(buffer, ascii("GET /sleep HTTP/1.1\r\n"@)) {
        Ok(RequestView::SlowGet)
    } else if has_prefix(buffer, ascii("GET"@)) || has_prefix(buffer, ascii("POST"@)) {
        Ok(RequestView::Get)
    } else if has_prefix(buffer, ascii("PUT"@)) {
        match target_of(buffer) {
            Some(t) => Ok(RequestView::Put(t)),
            None => Err(RequestError::MissingTarget),
        }
    } else if has_prefix(buffer, ascii("DELETE"@)) {
        match target_of(buffer) {
            Some(t) => Ok(RequestView::Delete(t)),
            None => Err(RequestError::MissingTarget),
        }
    } else if has_prefix(buffer, ascii("HEAD"@)) {
        Ok(RequestView::Head)
    } else {
        Ok(RequestView::Unknown)
    }
}

/// Decides what the document server does with the received bytes `buffer`.
pub fn route_request(buffer: &[u8]) -> (r: Result<Request, RequestError>)
    ensures
        match r {
            Ok(req) => route_spec(buffer@) == Ok::<RequestView, RequestError>(req@),
            Err(e) => route_spec(buffer@) == Err::<RequestView, RequestError>(e),
        },
{
    if !utf8_is_valid(buffer) {
        return Err(RequestError::InvalidUtf8);
    }
    let fields = split_bytes(buffer, 32u8);
    proof {
        reveal_strlit("GET /sleep HTTP/1.1\r\n");
        reveal_strlit("GET");
        reveal_strlit("POST");
        reveal_strlit("PUT");
        reveal_strlit("DELETE");
        reveal_strlit("HEAD");
    }
    let slow = ascii_bytes("GET /sleep HTTP/1.1\r\n");
    let get = ascii_bytes("GET");
    let post = ascii_bytes("POST");
    let put = ascii_bytes("PUT");
    let delete = ascii_bytes("DELETE");
    let head = ascii_bytes("HEAD");
    if bytes_start_with(buffer, slow.as_slice()) {
        Ok(Request::SlowGet)
    } else if bytes_start_with(buffer, get.as_slice()) || bytes_start_with(buffer, post.as_slice()) {
        Ok(Request::Get)
    } else if bytes_start_with(buffer, put.as_slice()) {
        if fields.len() > 1 {
            assert(byte_views(fields@)[1] == fields@[1]@);
            Ok(Request::Put(trim_start_byte(fields[1].as_slice(), 47u8)))
        } else {
            Err(RequestError::MissingTarget)
        }
    } else if bytes_start_with(buffer, delete.as_slice()) {
        if fields.len() > 1 {
            assert(byte_views(fields@)[1] == fields@[1]@);
            Ok(Request::Delete(trim_start_byte(fields[1].as_slice(), 47u8)))
        } else {
            Err(RequestError::MissingTarget)
        }
    } else if bytes_start_with(buffer, head.as_slice()) {
        Ok(Request::Head)
    } else {
        Ok(Request::Unknown)
    }
}

/// The name that a `PUT` or `DELETE` carries is a run of the request's own
/// bytes, unchanged: with `i` the first space, the name starts after that
/// space and the slashes that follow it, and ends at the next space or at
/// the end of the bytes.
pub proof fn lemma_request_name_is_field(buffer: Seq<u8>, name: Seq<u8>) -> (bounds: (int, int, int))
    requires
        route_spec(buffer) == Ok::<RequestView, RequestError>(RequestView::Put(name))
            || route_spec(buffer) == Ok::<RequestView, RequestError>(RequestView::Delete(name)),
    ensures
        ({
            let (i, a, j) = bounds;
            &&& 0 <= i && i + 1 <= a <= j <= buffer.len()
            &&& buffer[i] == 32u8
            &&& forall|k: int| 0 <= k < i ==> buffer[k] != 32u8
            &&& forall|k: int| i < k < a ==> buffer[k] == 47u8
            &&& (a == j || buffer[a] != 47u8)
            &&& forall|k: int| a <= k < j ==> buffer[k] != 32u8
            &&& (j == buffer.len() || buffer[j] == 32u8)
            &&& name == buffer.subrange(a, j)
        }),
{
    let i = lemma_first_occurrence(buffer, 32u8);
    if i == buffer.len() {
        lemma_split_all_no_separator(buffer, 32u8);
        assert(false);
    }
    let head = buffer.take(i);
    let rest = buffer.skip(i + 1);
    assert(buffer =~= head + seq![32u8] + rest);
    lemma_split_all_concat(head, rest, 32u8);
    assert forall|k: int| 0 <= k < head.len() implies head[k] != 32u8 by {
        assert(head[k] == buffer[k]);
    }
    lemma_split_all_no_separator(head, 32u8);
    let fields = split_all(buffer, 32u8);
    assert(fields[1] == split_all(rest, 32u8)[0]);
    let jr = lemma_first_occurrence(rest, 32u8);
    let field = rest.take(jr);
    if jr == rest.len() {
        lemma_split_all_no_separator(rest, 32u8);
        assert(field =~= rest);
    } else {
        assert(rest =~= field + seq![32u8] + rest.skip(jr + 1));
        lemma_split_all_concat(field, rest.skip(jr + 1), 32u8);
        assert forall|k: int| 0 <= k < field.len() implies field[k] != 32u8 by {
            assert(field[k] == rest[k]);
        }
        lemma_split_all_no_separator(field, 32u8);
    }
    assert(fields[1] == field);
    let m = lemma_strip_leading_is_skip(field, 47u8);
    let a = i + 1 + m;
    let j = i + 1 + jr;
    assert(name == field.skip(m));
    assert(name =~= buffer.subrange(a, j));
    assert forall|k: int| i < k < a implies buffer[k] == 47u8 by {
        assert(buffer[k] == field[k - i - 1]);
    }
    assert forall|k: int| a <= k < j implies buffer[k] != 32u8 by {
        assert(buffer[k] == rest[k - i - 1]);
    }
    if a < j {
        assert(buffer[a] == field[m]);
    }
    if j < buffer.len() {
        assert(buffer[j] == rest[jr]);
    }
    (i, a, j)
}

/// `buffer` starts with the bytes `p`.
pub open spec fn starts(buffer: Seq<u8>, p: Seq<u8>) -> bool {
    p.len() <= buffer.len() && buffer.take(p.len() as int) == p
}

/// What each kind of request is routed to, by the bytes it starts with:
/// bytes that are not UTF-8 are refused; `GET /sleep HTTP/1.1` and CRLF is
/// the slow listing; other `GET` and `POST` requests list the store; `PUT`
/// and `DELETE` carry a name exactly when the bytes hold a space; `HEAD`
/// gets the status line; anything else is unknown.
pub proof fn lemma_route_by_method(buffer: Seq<u8>)
    ensures
        ({
            let r = route_spec(buffer);
            let sleep = seq![71u8, 69, 84, 32, 47, 115, 108, 101, 101, 112, 32, 72, 84, 84, 80, 47, 49, 46, 49, 13, 10];
            let get = seq![71u8, 69, 84];
            let post = seq![80u8, 79, 83, 84];
            let put = seq![80u8, 85, 84];
            let delete = seq![68u8, 69, 76, 69, 84, 69];
            let head = seq![72u8, 69, 65, 68];
            let has_space = exists|k: int| 0 <= k < buffer.len() && buffer[k] == 32u8;
            &&& !valid_utf8(buffer) ==> r == Err::<RequestView, RequestError>(RequestError::InvalidUtf8)
            &&& valid_utf8(buffer) ==> {
                &&& starts(buffer, sleep) ==> r == Ok::<RequestView, RequestError>(RequestView::SlowGet)
                &&& !starts(buffer, sleep) && (starts(buffer, get) || starts(buffer, post)) ==> r == Ok::<
                    RequestView,
                    RequestError,
                >(RequestView::Get)
                &&& starts(buffer, put) ==> (if has_space {
                    r matches Ok(RequestView::Put(_))
                } else {
                    r == Err::<RequestView, RequestError>(RequestError::MissingTarget)
                })
                &&& starts(buffer, delete) ==> (if has_space {
                    r matches Ok(RequestView::Delete(_))
                } else {
                    r == Err::<RequestView, RequestError>(RequestError::MissingTarget)
                })
                &&& starts(buffer, head) ==> r == Ok::<RequestView, RequestError>(RequestView::Head)
                &&& !starts(buffer, get) && !starts(buffer, post) && !starts(buffer, put) && !starts(
                    buffer,
                    delete,
                ) && !starts(buffer, head) ==> r == Ok::<RequestView, RequestError>(
                    RequestView::Unknown,
                )
            }
        }),
{
    reveal_strlit("GET /sleep HTTP/1.1\r\n");
    reveal_strlit("GET");
    reveal_strlit("POST");
    reveal_strlit("PUT");
    reveal_strlit("DELETE");
    reveal_strlit("HEAD");
    assert(ascii("GET /sleep HTTP/1.1\r\n"@) =~= seq![71u8, 69, 84, 32, 47, 115, 108, 101, 101, 112, 32, 72, 84, 84, 80, 47, 49, 46, 49, 13, 10]);
    assert(ascii("GET"@) =~= seq![71u8, 69, 84]);
    assert(ascii("POST"@) =~= seq![80u8, 79, 83, 84]);
    assert(ascii("PUT"@) =~= seq![80u8, 85, 84]);
    assert(ascii("DELETE"@) =~= seq![68u8, 69, 76, 69, 84, 69]);
    assert(ascii("HEAD"@) =~= seq![72u8, 69, 65, 68]);
    let get = seq![71u8, 69, 84];
    let post = seq![80u8, 79, 83, 84];
    let put = seq![80u8, 85, 84];
    let delete = seq![68u8, 69, 76, 69, 84, 69];
    let head = seq![72u8, 69, 65, 68];
    assert forall|p: Seq<u8>| #[trigger] starts(buffer, p) && p.len() >= 2 implies buffer[0] == p[0]
        && buffer[1] == p[1] by {
        assert(buffer.take(p.len() as int)[0] == buffer[0]);
        assert(buffer.take(p.len() as int)[1] == buffer[1]);
    }
    assert(starts(buffer, get) ==> buffer[0] == 71u8);
    let sleep = seq![71u8, 69, 84, 32, 47, 115, 108, 101, 101, 112, 32, 72, 84, 84, 80, 47, 49, 46, 49, 13, 10];
    if starts(buffer, sleep) {
        assert(buffer.take(3) =~= buffer.take(21).take(3));
        assert(sleep.take(3) =~= get);
        assert(starts(buffer, get));
    }
    assert(starts(buffer, post) ==> buffer[0] == 80u8 && buffer[1] == 79u8);
    assert(starts(buffer, put) ==> buffer[0] == 80u8 && buffer[1] == 85u8);
    assert(starts(buffer, delete) ==> buffer[0] == 68u8);
    assert(starts(buffer, head) ==> buffer[0] == 72u8);
    let i = lemma_first_occurrence(buffer, 32u8);
    if i == buffer.len() {
        lemma_split_all_no_separator(buffer, 32u8);
    } else {
        let head = buffer.take(i);
        let rest = buffer.skip(i + 1);
        assert(buffer =~= head + seq![32u8] + rest);
        lemma_split_all_concat(head, rest, 32u8);
        lemma_split_all_nonempty(head, 32u8);
        lemma_split_all_nonempty(rest, 32u8);
    }
}

/// The page that the static server sends.
#[derive(Debug, PartialEq, Eq, Structural, Clone, Copy)]
pub enum StaticPage {
    /// `GET / HTTP/1.1`: the index page.
    Index,
    /// `GET /sleep HTTP/1.1`: the index page, after a wait.
    SlowIndex,
    /// Anything else: the not-found page.
    NotFound,
}

/// The page that the static server sends for the received bytes `buffer`.
pub open spec fn static_page_spec(buffer: Seq<u8>) -> StaticPage {
    if has_prefix(buffer, ascii("GET / HTTP/1.1\r\n"@)) {
        StaticPage::Index
    } else if has_prefix(buffer, ascii("GET /sleep HTTP/1.1\r\n"@)) {
        StaticPage::SlowIndex
    } else {
        StaticPage::NotFound
    }
}

/// Decides which page the static server sends for `buffer`.
pub fn route_page(buffer: &[u8]) -> (p: StaticPage)
    ensures
        p == static_page_spec(buffer@),
{
    proof {
        reveal_strlit("GET / HTTP/1.1\r\n");
        reveal_strlit("GET /sleep HTTP/1.1\r\n");
    }
    let index = ascii_bytes("GET / HTTP/1.1\r\n");
    let slow = ascii_bytes("GET /sleep HTTP/1.1\r\n");
    if bytes_start_with(buffer, index.as_slice()) {
        StaticPage::Index
    } else if bytes_start_with(buffer, slow.as_slice()) {
        StaticPage::SlowIndex
    } else {
        StaticPage::NotFound
    }
}

/// The static server sends the index for `GET / HTTP/1.1` and CRLF, the
/// index after a wait for `GET /sleep HTTP/1.1` and CRLF, and the not-found
/// page for any other bytes.
pub proof fn lemma_static_page_by_request(buffer: Seq<u8>)
    ensures
        ({
            let index = seq![71u8, 69, 84, 32, 47, 32, 72, 84, 84, 80, 47, 49, 46, 49, 13, 10];
            let sleep = seq![71u8, 69, 84, 32, 47, 115, 108, 101, 101, 112, 32, 72, 84, 84, 80, 47, 49, 46, 49, 13, 10];
            &&& starts(buffer, index) ==> static_page_spec(buffer) == StaticPage::Index
            &&& starts(buffer, sleep) ==> static_page_spec(buffer) == StaticPage::SlowIndex
            &&& !starts(buffer, index) && !starts(buffer, sleep) ==> static_page_spec(buffer)
                == StaticPage::NotFound
        }),
{
    reveal_strlit("GET / HTTP/1.1\r\n");
    reveal_strlit("GET /sleep HTTP/1.1\r\n");
    let index = seq![71u8, 69, 84, 32, 47, 32, 72, 84, 84, 80, 47, 49, 46, 49, 13, 10];
    let sleep = seq![71u8, 69, 84, 32, 47, 115, 108, 101, 101, 112, 32, 72, 84, 84, 80, 47, 49, 46, 49, 13, 10];
    assert(ascii("GET / HTTP/1.1\r\n"@) =~= index);
    assert(ascii("GET /sleep HTTP/1.1\r\n"@) =~= sleep);
    if starts(buffer, sleep) && starts(buffer, index) {
        assert(buffer.take(16)[5] == buffer[5]);
        assert(buffer.take(21)[5] == buffer[5]);
    }
}

impl StaticPage {
    /// The status line sent with the page.
    pub fn status_line(&self) -> (r: &'static str)
        ensures
            r@ == (if *self == StaticPage::NotFound {
                "HTTP/1.1 404 NOT FOUND"@
            } else {
                "HTTP/1.1 200 OK"@
            }),
    {
        match self {
            StaticPage::NotFound => status_not_found(),
            _ => status_ok(),
        }
    }

    /// The file that holds the page.
    pub fn file_name(&self) -> (r: &'static str)
        ensures
            r@ == (if *self == StaticPage::NotFound {
                "404.html"@
            } else {
                "hi.html"@
            }),
    {
        match self {
            StaticPage::NotFound => "404.html",
            _ => "hi.html",
        }
    }

    /// Whether the server waits before it answers.
    pub fn waits(&self) -> (r: bool)
        ensures
            r == (*self == StaticPage::SlowIndex),
    {
        match self {
            StaticPage::SlowIndex => true,
            _ => false,
        }
    }
}

/// The static server's answer: `status_line`, the length of `contents`, and
/// `contents`.
pub fn static_response(status_line: &str, contents: &[u8]) -> (r: Vec<u8>)
    ensures
        r@ == framed(encode_utf8(status_line@), contents@.len(), contents@),
{
    frame_response(status_line, contents.len(), contents)
}

} // verus!

//! Request handling for the demonstration web server: classify the raw
//! request bytes by their request line and choose the response status and
//! template.  Reading the socket, sleeping for the slow route and sending
//! the response are the server's business, outside this library.

use vstd::prelude::*;

verus! {

/// What a request asks for: the front page, the deliberately slow front
/// page, or something the server does not serve.
#[derive(Clone, Copy, Debug, PartialEq, Eq, Structural)]
pub enum RequestKind {
    Root,
    Sleep,
    NotFound,
}

/// The bytes of the request line `GET / HTTP/1.1\r\n`.
pub open spec fn root_request_line() -> Seq<u8> {
    seq![71u8, 69u8, 84u8, 32u8, 47u8, 32u8, 72u8, 84u8, 84u8, 80u8, 47u8, 49u8, 46u8, 49u8, 13u8, 10u8]
}

/// The bytes of the request line `GET /sleep HTTP/1.1\r\n`.
pub open spec fn sleep_request_line() -> Seq<u8> {
    seq![71u8, 69u8, 84u8, 32u8, 47u8, 115u8, 108u8, 101u8, 101u8, 112u8, 32u8, 72u8, 84u8, 84u8, 80u8, 47u8, 49u8, 46u8, 49u8, 13u8, 10u8]
}

/// How a request is classified: by the request line its bytes start with.
pub open spec fn classify(req: Seq<u8>) -> RequestKind {
    if root_request_line().is_prefix_of(req) {
        RequestKind::Root
    } else if sleep_request_line().is_prefix_of(req) {
        RequestKind::Sleep
    } else {
        RequestKind::NotFound
    }
}

/// The status line the server answers with for each kind of request.
pub open spec fn status_of(kind: RequestKind) -> Seq<char> {
    if kind is NotFound {
        "HTTP/1.1 404 NOT FOUND"@
    } else {
        "HTTP/1.1 200 OK"@
    }
}

/// The template file the server answers with for each kind of request.
pub open spec fn template_of(kind: RequestKind) -> Seq<char> {
    if kind is NotFound {
        "404.html"@
    } else {
        "hello.html"@
    }
}

/// Whether `buffer` starts with exactly the bytes of `prefix`.
fn starts_with(buffer: &[u8], prefix: &[u8]) -> (r: bool)
    ensures
        r == prefix@.is_prefix_of(buffer@),
{
    if prefix.len() > buffer.len() {
        return false;
    }
    let mut k: usize = 0;
    while k < prefix.len()
        invariant
            k <= prefix@.len() <= buffer@.len(),
            forall|t: int| 0 <= t < k ==> buffer@[t] == prefix@[t],
        decreases prefix@.len() - k,
    {
        if buffer[k] != prefix[k] {
            assert(!prefix@.is_prefix_of(buffer@)) by {
                assert(buffer@.subrange(0, prefix@.len() as int)[k as int] == buffer@[k as int]);
            }
            return false;
        }
        k = k + 1;
    }
    proof {
        assert(prefix@ =~= buffer@.subrange(0, prefix@.len() as int));
    }
    true
}

/// The bytes of the front-page request line.
fn root_request_prefix() -> (v: Vec<u8>)
    ensures
        v@ == root_request_line(),
{
    let mut v: Vec<u8> = Vec::new();
    v.push(71);
    v.push(69);
    v.push(84);
    v.push(32);
    v.push(47);
    v.push(32);
    v.push(72);
    v.push(84);
    v.push(84);
    v.push(80);
    v.push(47);
    v.push(49);
    v.push(46);
    v.push(49);
    v.push(13);
    v.push(10);
    proof {
        assert(v@ =~= root_request_line());
    }
    v
}

/// The bytes of the slow front-page request line.
fn sleep_request_prefix() -> (v: Vec<u8>)
    ensures
        v@ == sleep_request_line(),
{
    let mut v: Vec<u8> = Vec::new();
    v.push(71);
    v.push(69);
    v.push(84);
    v.push(32);
    v.push(47);
    v.push(115);
    v.push(108);
    v.push(101);
    v.push(101);
    v.push(112);
    v.push(32);
    v.push(72);
    v.push(84);
    v.push(84);
    v.push(80);
    v.push(47);
    v.push(49);
    v.push(46);
    v.push(49);
    v.push(13);
    v.push(10);
    proof {
        assert(v@ =~= sleep_request_line());
    }
    v
}

/// Classify raw request bytes by the request line they start with.
pub fn handle_request(buffer: &[u8]) -> (r: RequestKind)
    ensures
        r == classify(buffer@),
{
    let root = root_request_prefix();
    if starts_with(buffer, root.as_slice()) {
        return RequestKind::Root;
    }
    let sleep = sleep_request_prefix();
    if starts_with(buffer, sleep.as_slice()) {
        return RequestKind::Sleep;
    }
    RequestKind::NotFound
}

/// The status line and template file the server sends for each kind of
/// request: the front page for both the fast and the slow route, and the
/// not-found page otherwise.
pub fn response_parts(kind: RequestKind) -> (r: (&'static str, &'static str))
    ensures
        r.0@ == status_of(kind),
        r.1@ == template_of(kind),
{
    match kind {
        RequestKind::NotFound => ("HTTP/1.1 404 NOT FOUND", "404.html"),
        _ => ("HTTP/1.1 200 OK", "hello.html"),
    }
}

} // verus!

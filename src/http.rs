use vstd::prelude::*;
use vstd::string::StringSliceAdditionalSpecFns;

verus! {

/// The request line that asks for the index page.
pub open spec fn index_request() -> Seq<u8> {
    "GET / HTTP/1.1".spec_bytes()
}

/// The request line that asks for the index page after a pause.
pub open spec fn slow_request() -> Seq<u8> {
    "GET /sleep HTTP/1.1".spec_bytes()
}

/// What the server does with a request, decided by its first line.
#[derive(PartialEq, Eq, Structural, Clone, Copy, Debug)]
pub enum Route {
    /// Serve the index page.
    Index,
    /// Pause, then serve the index page.
    SlowIndex,
    /// Serve the not-found page.
    NotFound,
}

/// The route of a request line: exact matches only.
pub open spec fn route_of(line: Seq<u8>) -> Route {
    if line == index_request() {
        Route::Index
    } else if line == slow_request() {
        Route::SlowIndex
    } else {
        Route::NotFound
    }
}

/// Whether two byte strings are equal.
pub fn bytes_equal(a: &[u8], b: &[u8]) -> (r: bool)
    ensures
        r == (a@ == b@),
{
    if a.len() != b.len() {
        return false;
    }
    let mut i: usize = 0;
    while i < a.len()
        invariant
            a@.len() == b@.len(),
            i <= a@.len(),
            forall|j: int| 0 <= j < i ==> a@[j] == b@[j],
        decreases a@.len() - i,
    {
        if a[i] != b[i] {
            return false;
        }
        i = i + 1;
    }
    assert(a@ =~= b@);
    true
}

/// Decides what to do with a request from its first line.
pub fn route(request_line: &[u8]) -> (r: Route)
    ensures
        r == route_of(request_line@),
{
    if bytes_equal(request_line, "GET / HTTP/1.1".as_bytes()) {
        Route::Index
    } else if bytes_equal(request_line, "GET /sleep HTTP/1.1".as_bytes()) {
        Route::SlowIndex
    } else {
        Route::NotFound
    }
}

/// The status line that answers a route.
pub open spec fn status_of(r: Route) -> Seq<char> {
    match r {
        Route::NotFound => "HTTP/1.1 404 NOT FOUND"@,
        _ => "HTTP/1.1 200 OK"@,
    }
}

/// The file whose contents answer a route.
pub open spec fn page_of(r: Route) -> Seq<char> {
    match r {
        Route::NotFound => "src/404.html"@,
        _ => "src/Hello.html"@,
    }
}

impl Route {
    /// The status line that answers this route.
    pub fn status_line(&self) -> (r: &'static str)
        ensures
            r@ == status_of(*self),
    {
        match self {
            Route::NotFound => "HTTP/1.1 404 NOT FOUND",
            _ => "HTTP/1.1 200 OK",
        }
    }

    /// The file whose contents answer this route.
    pub fn page(&self) -> (r: &'static str)
        ensures
            r@ == page_of(*self),
    {
        match self {
            Route::NotFound => "src/404.html",
            _ => "src/Hello.html",
        }
    }

    /// Whether the answer waits before it is sent.
    pub fn pauses(&self) -> (r: bool)
        ensures
            r == (*self == Route::SlowIndex),
    {
        match self {
            Route::SlowIndex => true,
            _ => false,
        }
    }
}

/// The decimal digits of `n`, most significant first, without leading zeros.
pub open spec fn decimal(n: nat) -> Seq<u8>
    decreases n,
{
    if n < 10 {
        seq![(48 + n) as u8]
    } else {
        decimal(n / 10).push((48 + n % 10) as u8)
    }
}

/// Appends the decimal digits of `n` to `out`.
pub fn push_decimal(out: &mut Vec<u8>, n: usize)
    ensures
        final(out)@ == old(out)@ + decimal(n as nat),
    decreases n,
{
    if n >= 10 {
        push_decimal(out, n / 10);
    }
    let d: u8 = (n % 10) as u8;
    out.push(48 + d);
    assert(final(out)@ =~= old(out)@ + decimal(n as nat));
}

/// Appends every byte of `b` to `out`.
pub fn push_bytes(out: &mut Vec<u8>, b: &[u8])
    ensures
        final(out)@ == old(out)@ + b@,
{
    let mut i: usize = 0;
    while i < b.len()
        invariant
            i <= b@.len(),
            out@ == old(out)@ + b@.subrange(0, i as int),
        decreases b@.len() - i,
    {
        out.push(b[i]);
        i = i + 1;
        assert(out@ =~= old(out)@ + b@.subrange(0, i as int));
    }
    assert(b@.subrange(0, b@.len() as int) =~= b@);
}

/// A full response: status line, a Content-Length header giving the body's
/// length in bytes, a blank line, then the body.
pub open spec fn response_of(status: Seq<u8>, body: Seq<u8>) -> Seq<u8> {
    status + "\r\nContent-Length: ".spec_bytes() + decimal(body.len()) + "\r\n\r\n".spec_bytes()
        + body
}

/// Frames `body` as a response under `status`.
pub fn response(status: &[u8], body: &[u8]) -> (r: Vec<u8>)
    ensures
        r@ == response_of(status@, body@),
{
    let mut out: Vec<u8> = Vec::new();
    push_bytes(&mut out, status);
    push_bytes(&mut out, "\r\nContent-Length: ".as_bytes());
    push_decimal(&mut out, body.len());
    push_bytes(&mut out, "\r\n\r\n".as_bytes());
    push_bytes(&mut out, body);
    assert(out@ =~= response_of(status@, body@));
    out
}

} // verus!

//! Response shaping.
//!
//! The route decides the body: the raw route always answers in plain
//! text, the root route negotiates between the fixed HTML page and the
//! plain-text address line.  A failed resolution becomes a server
//! error whose body is the reason.  Every response, whatever its
//! outcome, carries the anti-indexing header and the open CORS header;
//! successful plain-text responses also carry a no-store cache
//! directive, since the answer may change between requests.

use vstd::prelude::*;

use crate::format::{ip_line, ip_text};
use crate::headers::{contains_bytes, contains_seq, Headers, spec_lookup, value_is_text,
    visible_ascii};
use crate::ip::{chars_of, IpAddress};
use crate::resolve::{AppState, Error, get_ip, spec_get_ip};

verus! {

/// An HTTP response, as far as this library shapes one: a status code,
/// header pairs in order, and a body.
pub struct HttpResponse {
    pub status: u16,
    pub headers: Vec<(String, String)>,
    pub body: String,
}

/// The response carries the given header with the given value.
pub open spec fn has_header(r: HttpResponse, name: Seq<char>, value: Seq<char>) -> bool {
    exists|i: int| 0 <= i < r.headers@.len() && r.headers@[i].0@ == name && r.headers@[i].1@
        == value
}

/// A response body: the fixed HTML page, or a line of plain text.
pub enum HtmlOrRaw {
    Html(&'static str),
    Raw(String),
}

impl HtmlOrRaw {
    /// Renders the body as a successful response: HTML under its
    /// content type; plain text under its content type and a no-store
    /// cache directive, so the address is never reused from a cache.
    pub fn into_response(self) -> (r: HttpResponse)
        ensures
            r.status == 200,
            match self {
                HtmlOrRaw::Html(p) => r.body@ == p@ && r.headers@.len() == 1 && r.headers@[0].0@
                    == "content-type"@ && r.headers@[0].1@ == "text/html; charset=utf-8"@,
                HtmlOrRaw::Raw(s) => r.body@ == s@ && r.headers@.len() == 2 && r.headers@[0].0@
                    == "content-type"@ && r.headers@[0].1@ == "text/plain; charset=utf-8"@
                    && r.headers@[1].0@ == "cache-control"@ && r.headers@[1].1@ == "no-store"@,
            },
    {
        match self {
            HtmlOrRaw::Html(p) => {
                let mut hs: Vec<(String, String)> = Vec::new();
                hs.push(("content-type".to_owned(), "text/html; charset=utf-8".to_owned()));
                HttpResponse { status: 200, headers: hs, body: p.to_owned() }
            },
            HtmlOrRaw::Raw(s) => {
                let mut hs: Vec<(String, String)> = Vec::new();
                hs.push(("content-type".to_owned(), "text/plain; charset=utf-8".to_owned()));
                hs.push(("cache-control".to_owned(), "no-store".to_owned()));
                HttpResponse { status: 200, headers: hs, body: s }
            },
        }
    }
}

/// The reason each error answers with.
pub open spec fn spec_message(e: Error) -> Seq<char> {
    match e {
        Error::MissingTrustedHeader => "No header found"@,
        Error::InvalidHeaderEncoding => "Could not convert supplied header to string"@,
        Error::InvalidIpFormat => "Could not convert supplied header to IP address"@,
    }
}

impl Error {
    /// The reason, in words.
    pub fn message(&self) -> (r: &'static str)
        ensures
            r@ == spec_message(*self),
    {
        match self {
            Error::MissingTrustedHeader => "No header found",
            Error::InvalidHeaderEncoding => "Could not convert supplied header to string",
            Error::InvalidIpFormat => "Could not convert supplied header to IP address",
        }
    }

    /// Renders the error as a server-error response whose body is the
    /// reason.
    pub fn into_response(self) -> (r: HttpResponse)
        ensures
            r.status == 500,
            r.body@ == spec_message(self),
            r.headers@.len() == 1,
            r.headers@[0].0@ == "content-type"@,
            r.headers@[0].1@ == "text/plain; charset=utf-8"@,
    {
        let mut hs: Vec<(String, String)> = Vec::new();
        hs.push(("content-type".to_owned(), "text/plain; charset=utf-8".to_owned()));
        HttpResponse { status: 500, headers: hs, body: self.message().to_owned() }
    }
}

/// Appends the open CORS header: any origin may read the response.
pub fn nocors(r: &mut HttpResponse)
    ensures
        final(r).status == old(r).status,
        final(r).body@ == old(r).body@,
        final(r).headers@.len() == old(r).headers@.len() + 1,
        final(r).headers@.subrange(0, old(r).headers@.len() as int) == old(r).headers@,
        final(r).headers@.last().0@ == "access-control-allow-origin"@,
        final(r).headers@.last().1@ == "*"@,
        has_header(*final(r), "access-control-allow-origin"@, "*"@),
        forall|n: Seq<char>, v: Seq<char>| has_header(*old(r), n, v) ==> #[trigger] has_header(
            *final(r), n, v),
{
    let ghost pre = r.headers@;
    r.headers.push(("access-control-allow-origin".to_owned(), "*".to_owned()));
    proof {
        assert(r.headers@.subrange(0, pre.len() as int) =~= pre);
        assert(r.headers@[pre.len() as int].0@ == "access-control-allow-origin"@);
        assert(forall|i: int| 0 <= i < pre.len() ==> r.headers@[i] == pre[i]);
    }
}

/// Appends the anti-indexing header: crawlers must not index any page
/// this service serves.
pub fn noindex(r: &mut HttpResponse)
    ensures
        final(r).status == old(r).status,
        final(r).body@ == old(r).body@,
        final(r).headers@.len() == old(r).headers@.len() + 1,
        final(r).headers@.subrange(0, old(r).headers@.len() as int) == old(r).headers@,
        final(r).headers@.last().0@ == "x-robots-tag"@,
        final(r).headers@.last().1@ == "noindex"@,
        has_header(*final(r), "x-robots-tag"@, "noindex"@),
        forall|n: Seq<char>, v: Seq<char>| has_header(*old(r), n, v) ==> #[trigger] has_header(
            *final(r), n, v),
{
    let ghost pre = r.headers@;
    r.headers.push(("x-robots-tag".to_owned(), "noindex".to_owned()));
    proof {
        assert(r.headers@.subrange(0, pre.len() as int) =~= pre);
        assert(r.headers@[pre.len() as int].0@ == "x-robots-tag"@);
        assert(forall|i: int| 0 <= i < pre.len() ==> r.headers@[i] == pre[i]);
    }
}

/// The fixed HTML page, as characters.
pub open spec fn spec_index_page() -> Seq<char> {
    "<!DOCTYPE html><html><head><meta charset=\"utf-8\"><title>What is my IP</title></head><body><h1>Your IP address</h1><p id=\"ip\">loading&hellip;</p><script>fetch('/raw').then(function(r){return r.text();}).then(function(t){document.getElementById('ip').textContent=t.trim();});</script></body></html>"@
}

/// The fixed HTML page.
pub fn index_page() -> (r: &'static str)
    ensures
        r@ == spec_index_page(),
{
    "<!DOCTYPE html><html><head><meta charset=\"utf-8\"><title>What is my IP</title></head><body><h1>Your IP address</h1><p id=\"ip\">loading&hellip;</p><script>fetch('/raw').then(function(r){return r.text();}).then(function(t){document.getElementById('ip').textContent=t.trim();});</script></body></html>"
}

/// The name of the negotiation header, as lowercase bytes.
pub open spec fn accept_name() -> Seq<u8> {
    seq![97u8, 99u8, 99u8, 101u8, 112u8, 116u8]
}

/// The text whose presence in the negotiation header asks for HTML.
pub open spec fn text_html() -> Seq<u8> {
    seq![116u8, 101u8, 120u8, 116u8, 47u8, 104u8, 116u8, 109u8, 108u8]
}

/// The request asks for HTML: it carries a negotiation header whose
/// value is header text and mentions the HTML media type.  A missing
/// header or one that is not text asks for plain text.
pub open spec fn spec_accepts_html(hs: Seq<(Seq<u8>, Seq<u8>)>) -> bool {
    match spec_lookup(hs, accept_name()) {
        None => false,
        Some(v) => visible_ascii(v) && contains_seq(v, text_html()),
    }
}

/// Whether the request asks for HTML.
pub fn accepts_html(headers: &Headers) -> (r: bool)
    ensures
        r == spec_accepts_html(headers@),
{
    let mut nm: Vec<u8> = Vec::new();
    nm.push(97);
    nm.push(99);
    nm.push(99);
    nm.push(101);
    nm.push(112);
    nm.push(116);
    proof {
        assert(nm@ =~= accept_name());
    }
    let mut th: Vec<u8> = Vec::new();
    th.push(116);
    th.push(101);
    th.push(120);
    th.push(116);
    th.push(47);
    th.push(104);
    th.push(116);
    th.push(109);
    th.push(108);
    proof {
        assert(th@ =~= text_html());
    }
    match headers.get(nm.as_slice()) {
        None => false,
        Some(v) => value_is_text(v.as_slice()) && contains_bytes(v.as_slice(), th.as_slice()),
    }
}

/// The root route: resolve the client address, then negotiate.  A
/// request that asks for HTML gets the fixed page; any other gets the
/// address line.  A failed resolution is handed back unchanged.
pub fn home(sock_addr: IpAddress, headers: &Headers, state: &AppState) -> (r: Result<
    HtmlOrRaw,
    Error,
>)
    ensures
        match spec_get_ip(sock_addr, headers@, state.trusted_header()) {
            Err(e) => r matches Err(e2) && e2 == e,
            Ok(ip) => if spec_accepts_html(headers@) {
                r matches Ok(x) && x matches HtmlOrRaw::Html(p) && p@ == spec_index_page()
            } else {
                r matches Ok(x) && x matches HtmlOrRaw::Raw(s) && s@ == chars_of(ip_text(ip).push(
                    10u8))
            },
        },
{
    let wants_html = accepts_html(headers);
    let ip = match get_ip(sock_addr, headers, state) {
        Ok(ip) => ip,
        Err(e) => {
            return Err(e);
        },
    };
    if wants_html {
        Ok(HtmlOrRaw::Html(index_page()))
    } else {
        Ok(HtmlOrRaw::Raw(ip_line(&ip)))
    }
}

/// The raw route: resolve the client address and answer its text line,
/// whatever the request would otherwise negotiate.
pub fn raw(sock_addr: IpAddress, headers: &Headers, state: &AppState) -> (r: Result<String, Error>)
    ensures
        match spec_get_ip(sock_addr, headers@, state.trusted_header()) {
            Err(e) => r matches Err(e2) && e2 == e,
            Ok(ip) => r matches Ok(s) && s@ == chars_of(ip_text(ip).push(10u8)),
        },
{
    let ip = match get_ip(sock_addr, headers, state) {
        Ok(ip) => ip,
        Err(e) => {
            return Err(e);
        },
    };
    Ok(ip_line(&ip))
}

/// The raw route's path, as bytes.
pub open spec fn raw_path() -> Seq<u8> {
    seq![47u8, 114u8, 97u8, 119u8]
}

/// The root route's path, as bytes.
pub open spec fn root_path() -> Seq<u8> {
    seq![47u8]
}

fn path_is_raw(p: &[u8]) -> (r: bool)
    ensures
        r == (p@ == raw_path()),
{
    let hit = p.len() == 4 && p[0] == 47 && p[1] == 114 && p[2] == 97 && p[3] == 119;
    proof {
        if hit {
            assert(p@ =~= raw_path());
        }
    }
    hit
}

fn path_is_root(p: &[u8]) -> (r: bool)
    ensures
        r == (p@ == root_path()),
{
    let hit = p.len() == 1 && p[0] == 47;
    proof {
        if hit {
            assert(p@ =~= root_path());
        }
    }
    hit
}

/// Handles one request: route on the path, resolve and negotiate,
/// render, and stamp the headers every response must carry.  A path
/// that is no route of this service is answered with an empty
/// not-found response.
pub fn handle(state: &AppState, peer: IpAddress, headers: &Headers, path: &[u8]) -> (r:
    HttpResponse)
    ensures
        has_header(r, "x-robots-tag"@, "noindex"@),
        has_header(r, "access-control-allow-origin"@, "*"@),
        path@ == raw_path() ==> match spec_get_ip(peer, headers@, state.trusted_header()) {
            Ok(ip) => r.status == 200 && r.body@ == chars_of(ip_text(ip).push(10u8)) && has_header(
                r, "content-type"@, "text/plain; charset=utf-8"@) && has_header(r,
                "cache-control"@, "no-store"@),
            Err(e) => r.status == 500 && r.body@ == spec_message(e) && has_header(r,
                "content-type"@, "text/plain; charset=utf-8"@),
        },
        path@ == root_path() ==> match spec_get_ip(peer, headers@, state.trusted_header()) {
            Ok(ip) => r.status == 200 && (if spec_accepts_html(headers@) {
                r.body@ == spec_index_page() && has_header(r, "content-type"@,
                    "text/html; charset=utf-8"@)
            } else {
                r.body@ == chars_of(ip_text(ip).push(10u8)) && has_header(r, "content-type"@,
                    "text/plain; charset=utf-8"@) && has_header(r, "cache-control"@, "no-store"@)
            }),
            Err(e) => r.status == 500 && r.body@ == spec_message(e) && has_header(r,
                "content-type"@, "text/plain; charset=utf-8"@),
        },
        path@ != raw_path() && path@ != root_path() ==> r.status == 404 && r.body@ == Seq::<
            char,
        >::empty(),
{
    proof {
        assert(raw_path().len() == 4);
        assert(root_path().len() == 1);
    }
    if path_is_raw(path) {
        let mut resp = match raw(peer, headers, state) {
            Ok(s) => HtmlOrRaw::Raw(s).into_response(),
            Err(e) => e.into_response(),
        };
        noindex(&mut resp);
        nocors(&mut resp);
        return resp;
    }
    if path_is_root(path) {
        match home(peer, headers, state) {
            Ok(x) => {
                let mut resp = x.into_response();
                noindex(&mut resp);
                nocors(&mut resp);
                return resp;
            },
            Err(e) => {
                let mut resp = e.into_response();
                noindex(&mut resp);
                nocors(&mut resp);
                return resp;
            },
        }
    }
    let mut resp = HttpResponse { status: 404, headers: Vec::new(), body: String::new() };
    noindex(&mut resp);
    nocors(&mut resp);
    resp
}

} // verus!

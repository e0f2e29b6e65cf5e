//! Decisions of the proxy on a browser's request: which kind of request it
//! is, where it goes, and what is forwarded to the backend.

use vstd::prelude::*;
use crate::ipv4::{Ipv4Addr, ipv4_text};
use crate::targets::{is_target, spec_is_target};
use crate::text::{
    chars_eq_ignore_ascii_case, chars_of, chars_starts_with, eq_ignore_ascii_case, find_char, find_from,
    first_piece, last_index_of, lemma_find_from_bounds, lemma_find_from_first, lemma_split_on_concat,
    lemma_split_on_no_sep, occurs_at, lowercase, parse_usize, rfind_char, second_piece,
    spec_parse_usize, split_on, split_whitespace, to_lowercase, trim, trim_str, words,
};

verus! {

/// The views of a list of header lines.
pub open spec fn lines(headers: Seq<String>) -> Seq<Seq<char>> {
    headers.map_values(|h: String| h@)
}

/// A header line whose lowercase form starts with `prefix`.
pub open spec fn header_matches(h: Seq<char>, prefix: Seq<char>) -> bool {
    prefix.is_prefix_of(lowercase(h))
}

/// The index of the first header at or after `i` that matches `prefix`.
pub open spec fn find_header_from(hs: Seq<Seq<char>>, prefix: Seq<char>, i: int) -> Option<int>
    decreases hs.len() - i,
    when 0 <= i
{
    if i >= hs.len() {
        None
    } else if header_matches(hs[i], prefix) {
        Some(i)
    } else {
        find_header_from(hs, prefix, i + 1)
    }
}

/// The value of the first header that matches `prefix`: the text between its
/// first and second `:` (as `split(':').nth(1)`), when it has a first `:`.
pub open spec fn header_value(hs: Seq<Seq<char>>, prefix: Seq<char>) -> Option<Seq<char>> {
    match find_header_from(hs, prefix, 0) {
        None => None,
        Some(k) => {
            let parts = split_on(hs[k], ':');
            if parts.len() > 1 {
                Some(parts[1])
            } else {
                None
            }
        },
    }
}

fn find_header(headers: &[String], prefix: &str) -> (r: Option<usize>)
    ensures
        match r {
            Some(k) => find_header_from(lines(headers@), prefix@, 0) == Some(k as int) && k < headers@.len(),
            None => find_header_from(lines(headers@), prefix@, 0) is None,
        },
{
    let p = chars_of(prefix);
    let ghost hs = lines(headers@);
    let mut i: usize = 0;
    while i < headers.len()
        invariant
            i <= headers.len(),
            p@ == prefix@,
            hs == lines(headers@),
            find_header_from(hs, prefix@, 0) == find_header_from(hs, prefix@, i as int),
        decreases headers.len() - i,
    {
        let lower = to_lowercase(headers[i].as_str());
        let lc = chars_of(lower.as_str());
        assert(hs[i as int] == headers@[i as int]@);
        if chars_starts_with(lc.as_slice(), p.as_slice()) {
            return Some(i);
        }
        i = i + 1;
    }
    None
}

fn header_value_of<'a>(headers: &'a [String], prefix: &str) -> (r: Option<&'a str>)
    ensures
        match r {
            Some(v) => header_value(lines(headers@), prefix@) == Some(v@),
            None => header_value(lines(headers@), prefix@) is None,
        },
{
    match find_header(headers, prefix) {
        None => None,
        Some(k) => {
            assert(lines(headers@)[k as int] == headers@[k as int]@);
            second_piece(headers[k].as_str(), ':')
        },
    }
}

/// The host a plain HTTP request is for: from an absolute `http://` URI the
/// authority up to the first `/` and then up to the first `:`; otherwise the
/// trimmed value of the first `Host:` header, or empty text.
pub open spec fn spec_request_host(uri: Seq<char>, hs: Seq<Seq<char>>) -> Seq<char> {
    if "http://"@.is_prefix_of(uri) {
        split_on(split_on(uri.skip(7), '/')[0], ':')[0]
    } else {
        match header_value(hs, "host:"@) {
            Some(v) => trim(v),
            None => Seq::<char>::empty(),
        }
    }
}

pub fn request_host<'a>(uri: &'a str, headers: &'a [String]) -> (r: &'a str)
    ensures
        r@ == spec_request_host(uri@, lines(headers@)),
{
    let u = chars_of(uri);
    let scheme = chars_of("http://");
    proof {
        reveal_strlit("http://");
    }
    if chars_starts_with(u.as_slice(), scheme.as_slice()) {
        let rest = uri.substring_char(7, u.len());
        assert(rest@ =~= uri@.skip(7));
        return first_piece(first_piece(rest, '/'), ':');
    }
    match header_value_of(headers, "host:") {
        Some(v) => trim_str(v),
        None => {
            let e = uri.substring_char(0, 0);
            assert(e@ =~= Seq::<char>::empty());
            e
        },
    }
}

/// The path a plain HTTP request asks for: from an absolute `http://` URI
/// the part from the first `/` after the scheme (or `/` when there is none);
/// any other URI is the path itself.
pub open spec fn spec_request_path(uri: Seq<char>) -> Seq<char> {
    if "http://"@.is_prefix_of(uri) {
        let rest = uri.skip(7);
        match find_from(rest, seq!['/'], 0) {
            Some(i) => rest.skip(i),
            None => "/"@,
        }
    } else {
        uri
    }
}

pub fn request_path(uri: &str) -> (r: &str)
    ensures
        r@ == spec_request_path(uri@),
{
    let u = chars_of(uri);
    let scheme = chars_of("http://");
    proof {
        reveal_strlit("http://");
    }
    if chars_starts_with(u.as_slice(), scheme.as_slice()) {
        let rest = uri.substring_char(7, u.len());
        let r = chars_of(rest);
        assert(rest@ =~= uri@.skip(7));
        match find_char(r.as_slice(), '/', 0) {
            Some(i) => {
                proof {
                    lemma_find_from_bounds(rest@, seq!['/'], 0);
                }
                let p = rest.substring_char(i, r.len());
                assert(p@ =~= rest@.skip(i as int));
                p
            },
            None => "/",
        }
    } else {
        uri
    }
}

/// An absolute `http://` URI is taken apart into the host and the path it
/// was put together from, whatever the headers say: the host must hold no
/// `/` or `:`, the path must start with `/`.
pub proof fn law_absolute_uri_parts(host: Seq<char>, path: Seq<char>, hs: Seq<Seq<char>>)
    requires
        !host.contains('/'),
        !host.contains(':'),
        path.len() > 0,
        path[0] == '/',
    ensures
        spec_request_host("http://"@ + host + path, hs) == host,
        spec_request_path("http://"@ + host + path) == path,
{
    reveal_strlit("http://");
    let uri = "http://"@ + host + path;
    let rest = host + path;
    assert("http://"@.is_prefix_of(uri)) by {
        assert(uri.take(7) =~= "http://"@);
    }
    assert(uri.skip(7) =~= rest);
    assert(rest =~= host + seq!['/'] + path.skip(1));
    lemma_split_on_concat(host, path.skip(1), '/');
    lemma_split_on_no_sep(host, '/');
    lemma_split_on_no_sep(host, ':');
    assert(split_on(rest, '/')[0] == host);
    assert(rest.subrange(host.len() as int, host.len() + 1int) =~= seq!['/']);
    assert forall|j: int| 0 <= j < host.len() implies !#[trigger] occurs_at(rest, seq!['/'], j) by {
        if occurs_at(rest, seq!['/'], j) {
            assert(rest.subrange(j, j + 1)[0] == host[j]);
        }
    }
    lemma_find_from_first(rest, seq!['/'], 0, host.len() as int);
    assert(rest.skip(host.len() as int) =~= path);
}

/// The body length a request announces: the first `Content-Length:` header's
/// value, trimmed and read as a number, or 0 when there is none or it is not
/// a number.
pub open spec fn spec_content_length(hs: Seq<Seq<char>>) -> usize {
    match header_value(hs, "content-length:"@) {
        Some(v) => match spec_parse_usize(trim(v)) {
            Some(n) => n,
            None => 0,
        },
        None => 0,
    }
}

pub fn content_length(headers: &[String]) -> (n: usize)
    ensures
        n == spec_content_length(lines(headers@)),
{
    match header_value_of(headers, "content-length:") {
        Some(v) => match parse_usize(trim_str(v)) {
            Some(n) => n,
            None => 0,
        },
        None => 0,
    }
}

/// The method and URI of a request line: its first two words, when it has two.
pub fn parse_request_line(req_line: &str) -> (r: Option<(&str, &str)>)
    ensures
        match r {
            Some((m, u)) => words(req_line@).len() >= 2 && m@ == words(req_line@)[0] && u@ == words(
                req_line@,
            )[1],
            None => words(req_line@).len() < 2,
        },
{
    let parts = split_whitespace(req_line);
    if parts.len() < 2 {
        None
    } else {
        Some((parts[0], parts[1]))
    }
}

/// Whether a request line is a `CONNECT` (its first word, without regard to
/// ASCII case).
pub open spec fn spec_is_connect(req_line: Seq<char>) -> bool {
    let method = if words(req_line).len() > 0 {
        words(req_line)[0]
    } else {
        Seq::<char>::empty()
    };
    eq_ignore_ascii_case(method, "CONNECT"@)
}

pub fn is_connect(req_line: &str) -> (r: bool)
    ensures
        r == spec_is_connect(req_line@),
{
    let parts = split_whitespace(req_line);
    let connect = chars_of("CONNECT");
    if parts.len() > 0 {
        let m = chars_of(parts[0]);
        chars_eq_ignore_ascii_case(m.as_slice(), connect.as_slice())
    } else {
        let m: Vec<char> = Vec::new();
        assert(m@ =~= Seq::<char>::empty());
        chars_eq_ignore_ascii_case(m.as_slice(), connect.as_slice())
    }
}

/// The host of a `CONNECT` request line: its second word (or empty text)
/// up to its last `:`, or the whole word when it has none.
pub open spec fn spec_connect_host(req_line: Seq<char>) -> Seq<char> {
    let target = if words(req_line).len() > 1 {
        words(req_line)[1]
    } else {
        Seq::<char>::empty()
    };
    match last_index_of(target, ':') {
        Some(i) => target.take(i),
        None => target,
    }
}

pub fn connect_host(req_line: &str) -> (r: &str)
    ensures
        r@ == spec_connect_host(req_line@),
{
    let parts = split_whitespace(req_line);
    let target: &str = if parts.len() > 1 {
        parts[1]
    } else {
        ""
    };
    proof {
        reveal_strlit("");
        assert(""@ =~= Seq::<char>::empty());
    }
    let t = chars_of(target);
    match rfind_char(t.as_slice(), ':') {
        Some(i) => target.substring_char(0, i),
        None => target,
    }
}

/// How a `CONNECT` is served.
#[derive(Clone, Copy, Debug, PartialEq, Eq, Structural)]
pub enum ConnectMode {
    /// A target host: TLS is ended at the proxy with a certificate of its own.
    Mitm,
    /// Any other host: bytes are relayed untouched.
    Tunnel,
}

pub fn connect_mode(host: &str) -> (m: ConnectMode)
    ensures
        m == (if spec_is_target(host@) {
            ConnectMode::Mitm
        } else {
            ConnectMode::Tunnel
        }),
{
    if is_target(host) {
        ConnectMode::Mitm
    } else {
        ConnectMode::Tunnel
    }
}

/// The TCP address of port 443: the given address when there is one, else
/// the host name.
pub open spec fn spec_connect_addr(host: Seq<char>, ip: Option<Ipv4Addr>) -> Seq<char> {
    match ip {
        Some(ip) => ipv4_text(ip) + ":443"@,
        None => host + ":443"@,
    }
}

pub fn connect_addr(host: &str, ip: Option<Ipv4Addr>) -> (r: String)
    ensures
        r@ == spec_connect_addr(host@, ip),
{
    let mut r = match ip {
        Some(ip) => ip.to_string(),
        None => String::from_str(host),
    };
    r.append(":443");
    r
}

/// A header line that is passed on to the backend: all but the proxy's own
/// `Proxy-Connection` and `Proxy-Authenticate`.
pub open spec fn kept_header(h: Seq<char>) -> bool {
    !header_matches(h, "proxy-connection:"@) && !header_matches(h, "proxy-authenticate:"@)
}

/// The kept header lines, each ended by CR LF.
pub open spec fn header_block(hs: Seq<Seq<char>>) -> Seq<char>
    decreases hs.len(),
{
    if hs.len() == 0 {
        Seq::<char>::empty()
    } else {
        header_block(hs.drop_last()) + if kept_header(hs.last()) {
            hs.last() + "\r\n"@
        } else {
            Seq::<char>::empty()
        }
    }
}

/// The request head sent to the backend for a plain HTTP request: an
/// HTTP/1.1 request line for the path, the kept headers, a blank line.
pub open spec fn spec_forward_head(method: Seq<char>, path: Seq<char>, hs: Seq<Seq<char>>) -> Seq<char> {
    method + " "@ + path + " HTTP/1.1\r\n"@ + header_block(hs) + "\r\n"@
}

proof fn lemma_header_block_keeps(hs: Seq<Seq<char>>, i: int)
    requires
        0 <= i < hs.len(),
        kept_header(hs[i]),
    ensures
        exists|p: int|
            0 <= p && p + hs[i].len() + 2 <= header_block(hs).len() && #[trigger] header_block(hs).subrange(
                p,
                p + hs[i].len() + 2,
            ) == hs[i] + "\r\n"@,
    decreases hs.len(),
{
    let init = hs.drop_last();
    let b = header_block(init);
    let tail = if kept_header(hs.last()) {
        hs.last() + "\r\n"@
    } else {
        Seq::<char>::empty()
    };
    assert(header_block(hs) == b + tail);
    reveal_strlit("\r\n");
    if i < hs.len() - 1 {
        assert(init[i] == hs[i]);
        lemma_header_block_keeps(init, i);
        let p = choose|p: int|
            0 <= p && p + init[i].len() + 2 <= b.len() && #[trigger] b.subrange(p, p + init[i].len() + 2)
                == init[i] + "\r\n"@;
        assert(header_block(hs).subrange(p, p + hs[i].len() + 2) =~= b.subrange(p, p + hs[i].len() + 2));
    } else {
        let p = b.len() as int;
        assert(header_block(hs).subrange(p, p + hs[i].len() + 2) =~= hs[i] + "\r\n"@);
    }
}

/// Every kept header line is forwarded verbatim: the head sent to the
/// backend holds each header line other than `Proxy-Connection` and
/// `Proxy-Authenticate` unchanged, followed by CR LF, after the request line
/// `method path HTTP/1.1`.
pub proof fn law_forward_head_keeps_headers(method: Seq<char>, path: Seq<char>, hs: Seq<Seq<char>>, i: int)
    requires
        0 <= i < hs.len(),
        kept_header(hs[i]),
    ensures
        (method + " "@ + path + " HTTP/1.1\r\n"@).is_prefix_of(spec_forward_head(method, path, hs)),
        exists|p: int|
            (method + " "@ + path + " HTTP/1.1\r\n"@).len() <= p && p + hs[i].len() + 2 <= spec_forward_head(
                method,
                path,
                hs,
            ).len() && #[trigger] spec_forward_head(method, path, hs).subrange(p, p + hs[i].len() + 2) == hs[i]
                + "\r\n"@,
{
    let pre = method + " "@ + path + " HTTP/1.1\r\n"@;
    let b = header_block(hs);
    let full = spec_forward_head(method, path, hs);
    assert(full == pre + b + "\r\n"@);
    assert(full.subrange(0, pre.len() as int) =~= pre);
    lemma_header_block_keeps(hs, i);
    let q = choose|q: int|
        0 <= q && q + hs[i].len() + 2 <= b.len() && #[trigger] b.subrange(q, q + hs[i].len() + 2) == hs[i]
            + "\r\n"@;
    let p = pre.len() + q;
    assert(full.subrange(p, p + hs[i].len() + 2) =~= b.subrange(q, q + hs[i].len() + 2));
}

pub fn forward_head(method: &str, path: &str, headers: &[String]) -> (r: String)
    ensures
        r@ == spec_forward_head(method@, path@, lines(headers@)),
{
    let mut r = String::from_str(method);
    r.append(" ");
    r.append(path);
    r.append(" HTTP/1.1\r\n");
    let ghost start = r@;
    let ghost hs = lines(headers@);
    let pc = chars_of("proxy-connection:");
    let pa = chars_of("proxy-authenticate:");
    let mut i: usize = 0;
    while i < headers.len()
        invariant
            i <= headers.len(),
            hs == lines(headers@),
            pc@ == "proxy-connection:"@,
            pa@ == "proxy-authenticate:"@,
            r@ == start + header_block(hs.take(i as int)),
        decreases headers.len() - i,
    {
        let lower = to_lowercase(headers[i].as_str());
        let lc = chars_of(lower.as_str());
        assert(hs[i as int] == headers@[i as int]@);
        assert(hs.take(i + 1).drop_last() =~= hs.take(i as int));
        assert(hs.take(i + 1).last() == hs[i as int]);
        if !chars_starts_with(lc.as_slice(), pc.as_slice()) && !chars_starts_with(lc.as_slice(), pa.as_slice()) {
            r.append(headers[i].as_str());
            r.append("\r\n");
            assert(r@ =~= start + header_block(hs.take(i + 1)));
        } else {
            assert(r@ =~= start + header_block(hs.take(i + 1)));
        }
        i = i + 1;
    }
    assert(hs.take(headers.len() as int) =~= hs);
    r.append("\r\n");
    r
}

/// Whether a line read from the browser ends the request head: the blank
/// line, or nothing read.
pub fn ends_head(line: &str) -> (r: bool)
    ensures
        r == (line@ == "\r\n"@ || line@.len() == 0),
{
    let l = chars_of(line);
    let crlf = chars_of("\r\n");
    crate::text::chars_eq(l.as_slice(), crlf.as_slice()) || l.len() == 0
}

/// The outcome of one read while relaying.
#[derive(Clone, Copy, Debug, PartialEq, Eq, Structural)]
pub enum ReadOutcome {
    /// A read returned this many bytes; none means the peer closed its side.
    Data(usize),
    /// Nothing to read yet.
    WouldBlock,
    /// Any other error, a timeout among them.
    Failed,
}

/// What a relay does with a read.
#[derive(Clone, Copy, Debug, PartialEq, Eq, Structural)]
pub enum RelayAction {
    /// Write the bytes to the other side and go on.
    Forward(usize),
    /// Go on.
    Continue,
    /// End the relay.
    Stop,
}

/// A relay forwards what it reads, waits when nothing is ready, and stops
/// when a side closes or fails.
pub fn relay_action(r: ReadOutcome) -> (a: RelayAction)
    ensures
        a == match r {
            ReadOutcome::Data(n) => if n > 0 {
                RelayAction::Forward(n)
            } else {
                RelayAction::Stop
            },
            ReadOutcome::WouldBlock => RelayAction::Continue,
            ReadOutcome::Failed => RelayAction::Stop,
        },
{
    match r {
        ReadOutcome::Data(n) => if n > 0 {
            RelayAction::Forward(n)
        } else {
            RelayAction::Stop
        },
        ReadOutcome::WouldBlock => RelayAction::Continue,
        ReadOutcome::Failed => RelayAction::Stop,
    }
}

} // verus!

use vstd::prelude::*;

use crate::deps::RedirectStep;
use crate::dns::copy_bytes;
use crate::text::{
    eq_lit, push_char,
    chars_of, dec, eq_ignore_case, eq_ignore_case_exec, find_char_from, first_index_from, has_prefix,
    is_ws, is_ws_exec, last_index, last_index_exec, lemma_last_index_bound, ws_suffix_len, owned, parse_unsigned, parse_unsigned_exec,
    push_chars, push_dec, slice_range, starts_with_lit, string_of, trim, trim_exec, ws_prefix_len,
};

verus! {

/// The parts of an `http://` or `https://` URL: whether it uses TLS, the
/// host, the port (the scheme's default unless given) and the path (`/`
/// unless given).
pub open spec fn url_parts(u: Seq<char>) -> Result<(bool, Seq<char>, u16, Seq<char>), Seq<char>> {
    if !has_prefix(u, "https://"@) && !has_prefix(u, "http://"@) {
        Err("URL must start with http:// or https://"@)
    } else {
        let tls = has_prefix(u, "https://"@);
        let rest = if tls {
            u.skip(8)
        } else {
            u.skip(7)
        };
        let authority = match first_index_from(rest, '/', 0) {
            Some(i) => rest.take(i),
            None => rest,
        };
        let path = match first_index_from(rest, '/', 0) {
            Some(i) => rest.skip(i),
            None => "/"@,
        };
        let colon = last_index(authority, ':');
        if colon < 0 {
            Ok((tls, authority, if tls { 443u16 } else { 80u16 }, path))
        } else {
            match parse_unsigned(authority.skip(colon + 1), 65535) {
                Some(p) => Ok((tls, authority.take(colon), p as u16, path)),
                None => Err("invalid port"@),
            }
        }
    }
}

/// Splits an `http://` or `https://` URL into TLS flag, host, port and path.
pub fn parse_url(url: &str) -> (r: Result<(bool, String, u16, String), String>)
    ensures
        match url_parts(url@) {
            Ok((t, h, p, pa)) => r matches Ok((tt, hh, pp, ppa)) && tt == t && hh@ == h && pp == p
                && ppa@ == pa,
            Err(m) => r matches Err(e) && e@ == m,
        },
{
    let u = chars_of(url);
    proof {
        reveal_strlit("https://");
        reveal_strlit("http://");
    }
    let tls = starts_with_lit(u.as_slice(), "https://");
    if !tls && !starts_with_lit(u.as_slice(), "http://") {
        return Err(owned("URL must start with http:// or https://"));
    }
    let start: usize = if tls { 8 } else { 7 };
    let rest = slice_range(u.as_slice(), start, u.len());
    assert(rest@ == u@.skip(start as int));
    let (authority, path) = match find_char_from(rest, '/', 0) {
        Some(i) => {
            proof {
                assert(first_index_from(rest@, '/', 0) == Some(i as int)) by {
                    let j = choose|j: int| 0 <= j < rest@.len() && rest@[j] == '/' && forall|k: int| 0 <= k < j ==> rest@[k] != '/';
                    assert(j == i as int);
                }
            }
            (slice_range(rest, 0, i), string_of(slice_range(rest, i, rest.len())))
        },
        None => (rest, owned("/")),
    };
    let colon = last_index_exec(authority, ':');
    let port_default: u16 = if tls { 443 } else { 80 };
    match colon {
        None => Ok((tls, string_of(authority), port_default, path)),
        Some(c) => {
            let digits = slice_range(authority, c + 1, authority.len());
            match parse_unsigned_exec(digits, 65535) {
                Some(p) => Ok((tls, string_of(slice_range(authority, 0, c)), p as u16, path)),
                None => Err(owned("invalid port")),
            }
        },
    }
}

/// The number of leading characters that are not whitespace.
pub open spec fn word_len(s: Seq<char>) -> nat
    decreases s.len(),
{
    if s.len() > 0 && !is_ws(s[0]) {
        1 + word_len(s.drop_first())
    } else {
        0
    }
}

/// `split_whitespace().nth(n)`: the `n`th run of non-whitespace characters.
pub open spec fn nth_word(s: Seq<char>, n: nat) -> Option<Seq<char>>
    decreases n,
{
    let t = s.skip(ws_prefix_len(s) as int);
    if t.len() == 0 {
        None
    } else if n == 0 {
        Some(t.take(word_len(t) as int))
    } else {
        nth_word(t.skip(word_len(t) as int), (n - 1) as nat)
    }
}

/// Finds the `n`th word of `s`.
pub fn nth_word_exec(s: &[char], n: usize) -> (r: Option<Vec<char>>)
    ensures
        match nth_word(s@, n as nat) {
            Some(w) => r matches Some(v) && v@ == w,
            None => r is None,
        },
{
    let mut i: usize = 0;
    let mut k: usize = 0;
    assert(s@.skip(0) =~= s@);
    loop
        invariant
            i <= s.len(),
            k <= n,
            nth_word(s@, n as nat) == nth_word(s@.skip(i as int), (n - k) as nat),
        decreases s.len() - i,
    {
        let ghost t0 = s@.skip(i as int);
        let mut j = i;
        while j < s.len() && is_ws_exec(s[j])
            invariant
                i <= j <= s.len(),
                t0 == s@.skip(i as int),
                ws_prefix_len(t0) == (j - i) + ws_prefix_len(s@.skip(j as int)),
            decreases s.len() - j,
        {
            assert(s@.skip(j as int).drop_first() =~= s@.skip(j + 1));
            j = j + 1;
        }
        assert(t0.skip(j - i) =~= s@.skip(j as int));
        if j == s.len() {
            return None;
        }
        let mut e = j;
        while e < s.len() && !is_ws_exec(s[e])
            invariant
                j <= e <= s.len(),
                word_len(s@.skip(j as int)) == (e - j) + word_len(s@.skip(e as int)),
            decreases s.len() - e,
        {
            assert(s@.skip(e as int).drop_first() =~= s@.skip(e + 1));
            e = e + 1;
        }
        assert(s@.skip(j as int).take(e - j) =~= s@.subrange(j as int, e as int));
        assert(s@.skip(j as int).skip(e - j) =~= s@.skip(e as int));
        if k == n {
            return Some(vstd::slice::slice_to_vec(slice_range(s, j, e)));
        }
        k = k + 1;
        i = e;
    }
}

/// Reads the status code, the second word of an HTTP status line.
pub fn parse_http_status(status_line: &str) -> (r: Result<u16, String>)
    ensures
        match nth_word(status_line@, 1) {
            Some(w) => match parse_unsigned(w, 65535) {
                Some(v) => r == Ok::<u16, String>(v as u16),
                None => r matches Err(e) && e@ == "invalid HTTP status line"@,
            },
            None => r matches Err(e) && e@ == "invalid HTTP status line"@,
        },
{
    let cs = chars_of(status_line);
    match nth_word_exec(cs.as_slice(), 1) {
        Some(w) => match parse_unsigned_exec(w.as_slice(), 65535) {
            Some(v) => Ok(v as u16),
            None => Err(owned("invalid HTTP status line")),
        },
        None => Err(owned("invalid HTTP status line")),
    }
}

/// The character views of header pairs.
pub open spec fn pair_views(hs: Seq<(String, String)>) -> Seq<(Seq<char>, Seq<char>)> {
    hs.map_values(|p: (String, String)| (p.0@, p.1@))
}

/// The index of the first header at or after `i` named `location`, in any case.
pub open spec fn location_from(hs: Seq<(Seq<char>, Seq<char>)>, i: int) -> Option<int>
    decreases hs.len() - i,
{
    if i < 0 || i >= hs.len() {
        None
    } else if eq_ignore_case(hs[i].0, "location"@) {
        Some(i)
    } else {
        location_from(hs, i + 1)
    }
}

/// Where a redirect with headers `hs` leads from `current`: the `Location`
/// header, trimmed; an absolute URL as it is, a path from the root on the
/// current scheme and authority (the port only where it is not the
/// scheme's), any other path beside the current path's last segment.
pub open spec fn redirect_target(hs: Seq<(Seq<char>, Seq<char>)>, current: Seq<char>) -> Result<Option<Seq<char>>, Seq<char>> {
    match location_from(hs, 0) {
        None => Ok(None),
        Some(i) => {
            let loc = trim(hs[i].1);
            if has_prefix(loc, "http://"@) || has_prefix(loc, "https://"@) {
                Ok(Some(loc))
            } else {
                match url_parts(current) {
                    Err(m) => Err(m),
                    Ok((tls, host, port, path)) => {
                        let scheme = if tls {
                            "https"@
                        } else {
                            "http"@
                        };
                        let authority = if (tls && port == 443) || (!tls && port == 80) {
                            host
                        } else {
                            host + seq![':'] + dec(port as nat)
                        };
                        if loc.len() > 0 && loc[0] == '/' {
                            Ok(Some(scheme + "://"@ + authority + loc))
                        } else {
                            let li = last_index(path, '/');
                            let base = if li >= 0 {
                                path.take(li)
                            } else {
                                seq![]
                            };
                            Ok(Some(scheme + "://"@ + authority + base + seq!['/'] + loc))
                        }
                    },
                }
            }
        },
    }
}

/// The URL that the `Location` header among `headers` points to from
/// `current_url`, if there is one.
pub fn redirect_location(headers: &[(String, String)], current_url: &str) -> (r: Result<Option<String>, String>)
    ensures
        match redirect_target(pair_views(headers@), current_url@) {
            Ok(Some(u)) => r matches Ok(Some(x)) && x@ == u,
            Ok(None) => r matches Ok(None),
            Err(m) => r matches Err(e) && e@ == m,
        },
{
    let ghost hs = pair_views(headers@);
    let mut i: usize = 0;
    let mut found: Option<usize> = None;
    while i < headers.len() && found.is_none()
        invariant
            i <= headers@.len(),
            hs == pair_views(headers@),
            found is None ==> location_from(hs, 0) == location_from(hs, i as int),
            found matches Some(k) ==> location_from(hs, 0) == Some(k as int) && k < headers@.len(),
        decreases headers.len() - i + (if found is None { 1int } else { 0int }),
    {
        let name = chars_of(headers[i].0.as_str());
        let l = chars_of("location");
        assert(hs[i as int] == (headers@[i as int].0@, headers@[i as int].1@));
        if eq_ignore_case_exec(name.as_slice(), l.as_slice()) {
            found = Some(i);
        } else {
            i = i + 1;
        }
    }
    let k = match found {
        None => return Ok(None),
        Some(k) => k,
    };
    assert(hs[k as int] == (headers@[k as int].0@, headers@[k as int].1@));
    let value = chars_of(headers[k].1.as_str());
    let loc = trim_exec(value.as_slice());
    proof {
        reveal_strlit("http://");
        reveal_strlit("https://");
    }
    if starts_with_lit(loc.as_slice(), "http://") || starts_with_lit(loc.as_slice(), "https://") {
        return Ok(Some(string_of(loc.as_slice())));
    }
    let (tls, host, port, path) = parse_url(current_url)?;
    let mut out = String::new();
    if tls {
        out.append("https");
    } else {
        out.append("http");
    }
    out.append("://");
    out.append(host.as_str());
    if !((tls && port == 443) || (!tls && port == 80)) {
        push_char(&mut out, ':');
        push_dec(&mut out, port as u64);
    }
    if loc.len() > 0 && loc[0] == '/' {
        push_chars(&mut out, loc.as_slice());
        return Ok(Some(out));
    }
    let pcs = chars_of(path.as_str());
    match last_index_exec(pcs.as_slice(), '/') {
        Some(li) => push_chars(&mut out, slice_range(pcs.as_slice(), 0, li)),
        None => {},
    }
    push_char(&mut out, '/');
    push_chars(&mut out, loc.as_slice());
    Ok(Some(out))
}

/// The head of an HTTP/1.0 request: request line, `Host`, `Connection:
/// close`, `Content-Length` where there is a body, and the blank line.
pub open spec fn request_head(method: Seq<char>, host: Seq<char>, path: Seq<char>, body_len: nat) -> Seq<char> {
    method + seq![' '] + path + " HTTP/1.0\r\nHost: "@ + host + "\r\nConnection: close\r\n"@ + (if body_len > 0 {
        "Content-Length: "@ + dec(body_len) + "\r\n"@
    } else {
        seq![]
    }) + "\r\n"@
}

/// The bytes of a request: its head in UTF-8, then the body.
pub open spec fn request_bytes(method: Seq<char>, host: Seq<char>, path: Seq<char>, body: Seq<u8>) -> Seq<u8> {
    vstd::utf8::encode_utf8(request_head(method, host, path, body.len())) + body
}

/// Builds the bytes of an HTTP/1.0 request.
pub fn write_http_request(method: &str, host: &str, path: &str, body: &[u8]) -> (r: Vec<u8>)
    ensures
        r@ == request_bytes(method@, host@, path@, body@),
{
    let mut head = String::new();
    head.append(method);
    push_char(&mut head, ' ');
    head.append(path);
    head.append(" HTTP/1.0\r\nHost: ");
    head.append(host);
    head.append("\r\nConnection: close\r\n");
    if body.len() > 0 {
        head.append("Content-Length: ");
        push_dec(&mut head, body.len() as u64);
        head.append("\r\n");
    }
    head.append("\r\n");
    assert(head@ =~= request_head(method@, host@, path@, body@.len()));
    let mut out = copy_bytes(head.as_str().as_bytes());
    let mut i: usize = 0;
    let ghost start = out@;
    while i < body.len()
        invariant
            i <= body@.len(),
            out@ == start + body@.take(i as int),
        decreases body.len() - i,
    {
        out.push(body[i]);
        i = i + 1;
        assert(out@ =~= start + body@.take(i as int));
    }
    assert(body@.take(i as int) =~= body@);
    out
}

/// Decodes bytes as UTF-8 where they are valid (`std::str::from_utf8`). The
/// contract claims that it succeeds exactly on valid UTF-8 and then gives its
/// decoding.
#[verifier::external_body]
pub(crate) fn utf8_text(b: &[u8]) -> (r: Option<String>)
    ensures
        (r is Some) == vstd::utf8::valid_utf8(b@),
        r matches Some(s) ==> s@ == vstd::utf8::decode_utf8(b@),
{
    match std::str::from_utf8(b) {
        Ok(s) => Some(s.to_string()),
        Err(_) => None,
    }
}

/// The position after the line at `pos`: after its `\n`, or the end.
pub open spec fn line_end(b: Seq<u8>, pos: int) -> int
    decreases b.len() - pos,
{
    if pos < 0 || pos >= b.len() {
        b.len() as int
    } else if b[pos] == 10 {
        pos + 1
    } else {
        line_end(b, pos + 1)
    }
}

pub proof fn lemma_line_end(b: Seq<u8>, pos: int)
    requires
        0 <= pos < b.len(),
    ensures
        pos < line_end(b, pos) <= b.len(),
    decreases b.len() - pos,
{
    if b[pos] != 10 {
        if pos + 1 < b.len() {
            lemma_line_end(b, pos + 1);
        } else {
            assert(line_end(b, pos + 1) == b.len());
        }
    }
}

pub(crate) fn line_end_exec(b: &[u8], pos: usize) -> (r: usize)
    requires
        pos < b@.len(),
    ensures
        r == line_end(b@, pos as int),
{
    let mut i = pos;
    while i < b.len() && b[i] != 10
        invariant
            pos <= i <= b@.len(),
            line_end(b@, pos as int) == line_end(b@, i as int),
        decreases b.len() - i,
    {
        i = i + 1;
    }
    if i < b.len() {
        i + 1
    } else {
        i
    }
}

/// What a line reader reports for bytes that are not UTF-8.
pub open spec fn utf8_error() -> Seq<char> {
    "stream did not contain valid UTF-8"@
}

/// The line without its trailing `\r` and `\n` characters.
pub open spec fn strip_line_end(s: Seq<char>) -> Seq<char>
    decreases s.len(),
{
    if s.len() > 0 && (s.last() == '\r' || s.last() == '\n') {
        strip_line_end(s.drop_last())
    } else {
        s
    }
}

fn strip_line_end_exec(s: &[char]) -> (r: &[char])
    ensures
        r@ == strip_line_end(s@),
{
    let mut n = s.len();
    assert(s@.take(n as int) =~= s@);
    while n > 0 && (s[n - 1] == '\r' || s[n - 1] == '\n')
        invariant
            n <= s@.len(),
            strip_line_end(s@) == strip_line_end(s@.take(n as int)),
        decreases n,
    {
        assert(s@.take(n as int).drop_last() =~= s@.take(n - 1));
        n = n - 1;
    }
    slice_range(s, 0, n)
}

/// The header lines from `pos` on, each split at its first `:` and trimmed
/// (lines without one are passed over), added to `acc`; they end at a line
/// that is just `\r\n` or at the end. Also where the body starts.
pub open spec fn header_lines(
    b: Seq<u8>,
    pos: int,
    acc: Seq<(Seq<char>, Seq<char>)>,
) -> Result<(Seq<(Seq<char>, Seq<char>)>, int), Seq<char>>
    decreases b.len() - pos,
{
    if pos < 0 || pos >= b.len() {
        Ok((acc, pos))
    } else {
        let e = line_end(b, pos);
        let l = b.subrange(pos, e);
        if !vstd::utf8::valid_utf8(l) {
            Err(utf8_error())
        } else if vstd::utf8::decode_utf8(l) == "\r\n"@ {
            Ok((acc, e))
        } else {
            let t = strip_line_end(vstd::utf8::decode_utf8(l));
            proof {
                lemma_line_end(b, pos);
            }
            match first_index_from(t, ':', 0) {
                Some(i) => header_lines(b, e, acc.push((trim(t.take(i)), trim(t.skip(i + 1))))),
                None => header_lines(b, e, acc),
            }
        }
    }
}

/// A response: status code, headers and body.
pub struct HttpResponse {
    pub status: u16,
    pub headers: Vec<(String, String)>,
    pub body: Vec<u8>,
}

/// The status code, headers and body of the bytes of a response.
pub open spec fn response_parts(b: Seq<u8>) -> Result<(u16, Seq<(Seq<char>, Seq<char>)>, Seq<u8>), Seq<char>> {
    let e = line_end(b, 0);
    let l = b.subrange(0, e);
    if !vstd::utf8::valid_utf8(l) {
        Err(utf8_error())
    } else {
        match nth_word(vstd::utf8::decode_utf8(l), 1) {
            None => Err("invalid HTTP status line"@),
            Some(w) => match parse_unsigned(w, 65535) {
                None => Err("invalid HTTP status line"@),
                Some(st) => match header_lines(b, e, seq![]) {
                    Err(m) => Err(m),
                    Ok((hs, start)) => Ok((st as u16, hs, b.skip(start))),
                },
            },
        }
    }
}

/// Reads the headers from `pos` on.
fn read_headers(raw: &[u8], pos: usize) -> (r: Result<(Vec<(String, String)>, usize), String>)
    requires
        pos <= raw@.len(),
    ensures
        match header_lines(raw@, pos as int, seq![]) {
            Ok((hs, start)) => r matches Ok((v, st)) && pair_views(v@) == hs && st == start && st
                <= raw@.len(),
            Err(m) => r matches Err(e) && e@ == m,
        },
{
    let mut headers: Vec<(String, String)> = Vec::new();
    let mut cur = pos;
    assert(pair_views(headers@) =~= Seq::<(Seq<char>, Seq<char>)>::empty());
    while cur < raw.len()
        invariant
            cur <= raw@.len(),
            header_lines(raw@, pos as int, seq![]) == header_lines(raw@, cur as int, pair_views(headers@)),
        decreases raw.len() - cur,
    {
        let e = line_end_exec(raw, cur);
        proof {
            lemma_line_end(raw@, cur as int);
        }
        let text = match utf8_text(slice_range(raw, cur, e)) {
            Some(t) => t,
            None => return Err(owned("stream did not contain valid UTF-8")),
        };
        let cs = chars_of(text.as_str());
        if eq_lit(cs.as_slice(), "\r\n") {
            return Ok((headers, e));
        }
        let t = strip_line_end_exec(cs.as_slice());
        let tn = t.len();
        match find_char_from(t, ':', 0) {
            Some(i) => {
                proof {
                    assert(first_index_from(t@, ':', 0) == Some(i as int)) by {
                        let j = choose|j: int| 0 <= j < t@.len() && t@[j] == ':' && forall|k: int| 0 <= k < j ==> t@[k] != ':';
                        assert(j == i as int);
                    }
                }
                let name = trim_exec(slice_range(t, 0, i));
                let value = trim_exec(slice_range(t, i + 1, tn));
                let ghost before = headers@;
                headers.push((string_of(name.as_slice()), string_of(value.as_slice())));
                assert(pair_views(headers@) =~= pair_views(before).push((name@, value@)));
            },
            None => {},
        }
        cur = e;
    }
    Ok((headers, cur))
}

/// Splits the bytes of a response into status code, headers and body.
pub fn parse_response(raw: &[u8]) -> (r: Result<HttpResponse, String>)
    ensures
        match response_parts(raw@) {
            Ok((st, hs, body)) => r matches Ok(resp) && resp.status == st && pair_views(resp.headers@)
                == hs && resp.body@ == body,
            Err(m) => r matches Err(e) && e@ == m,
        },
{
    let e = if raw.len() == 0 {
        0
    } else {
        line_end_exec(raw, 0)
    };
    proof {
        if raw@.len() > 0 {
            lemma_line_end(raw@, 0);
        }
    }
    let line = match utf8_text(slice_range(raw, 0, e)) {
        Some(t) => t,
        None => return Err(owned("stream did not contain valid UTF-8")),
    };
    let status = parse_http_status(line.as_str())?;
    let (headers, start) = read_headers(raw, e)?;
    let body = copy_bytes(slice_range(raw, start, raw.len()));
    Ok(HttpResponse { status, headers, body })
}

/// What a request gives for the response `b`: the body of a 2xx response,
/// else `HTTP <status>`.
pub open spec fn exchange_result(b: Seq<u8>) -> Result<Seq<u8>, Seq<char>> {
    match response_parts(b) {
        Err(m) => Err(m),
        Ok((st, hs, body)) => if 200 <= st < 300 {
            Ok(body)
        } else {
            Err("HTTP "@ + dec(st as nat))
        },
    }
}

fn status_error(status: u16) -> (r: String)
    ensures
        r@ == "HTTP "@ + dec(status as nat),
{
    let mut e = owned("HTTP ");
    push_dec(&mut e, status as u64);
    e
}

/// One request over a stream that answers with `response`: the bytes
/// written to the stream, and the body of a 2xx response or the error.
pub fn sync_http_exchange(response: &[u8], method: &str, host: &str, path: &str, body: &[u8]) -> (r: (
    Vec<u8>,
    Result<Vec<u8>, String>,
))
    ensures
        r.0@ == request_bytes(method@, host@, path@, body@),
        match exchange_result(response@) {
            Ok(b) => r.1 matches Ok(x) && x@ == b,
            Err(m) => r.1 matches Err(e) && e@ == m,
        },
{
    let written = write_http_request(method, host, path, body);
    let result = match parse_response(response) {
        Err(e) => Err(e),
        Ok(resp) => if 200 <= resp.status && resp.status < 300 {
            Ok(resp.body)
        } else {
            Err(status_error(resp.status))
        },
    };
    (written, result)
}

/// What to do after a response to a request for `url` that followed
/// `redirects` redirects.
pub enum Fetched {
    /// The request is done: the body of a 2xx response.
    Body(Vec<u8>),
    /// Request this URL next.
    Redirect(String),
}

/// The next step after a response: a 3xx with a `Location` leads on (at
/// most five times), a 2xx gives its body, anything else is an error.
pub open spec fn fetch_step(
    status: u16,
    hs: Seq<(Seq<char>, Seq<char>)>,
    body: Seq<u8>,
    url: Seq<char>,
    redirects: nat,
) -> Result<Result<Seq<u8>, Seq<char>>, Seq<char>> {
    if 300 <= status < 400 && !(redirect_target(hs, url) matches Ok(None)) {
        match redirect_target(hs, url) {
            Err(m) => Err(m),
            Ok(next) => if redirects + 1 > 5 {
                Err("too many redirects"@)
            } else {
                Ok(Err(next->0))
            },
        }
    } else if 200 <= status < 300 {
        Ok(Ok(body))
    } else {
        Err("HTTP "@ + dec(status as nat))
    }
}

/// Decides what follows a response: the body, the next URL, or the error.
/// In the result, `Ok(Ok(body))` is a body and `Ok(Err(url))` a redirect.
pub fn handle_response(response: HttpResponse, url: &str, redirects: usize) -> (r: Result<Fetched, String>)
    ensures
        match fetch_step(response.status, pair_views(response.headers@), response.body@, url@, redirects as nat) {
            Ok(Ok(b)) => r matches Ok(Fetched::Body(x)) && x@ == b,
            Ok(Err(u)) => r matches Ok(Fetched::Redirect(x)) && x@ == u,
            Err(m) => r matches Err(e) && e@ == m,
        },
{
    if 300 <= response.status && response.status < 400 {
        if let Some(next) = redirect_location(response.headers.as_slice(), url)? {
            if redirects >= 5 {
                return Err(owned("too many redirects"));
            }
            return Ok(Fetched::Redirect(next));
        }
    }
    if !(200 <= response.status && response.status < 300) {
        return Err(status_error(response.status));
    }
    Ok(Fetched::Body(response.body))
}

/// Records a hop of a redirect chain and says where it leads: nowhere for
/// a response that is not a 3xx or has no `Location`, else the next URL; an
/// eleventh hop that still leads on is an error.
pub fn follow_step(steps: &mut Vec<RedirectStep>, url: &str, status: u16, headers: &[(String, String)]) -> (r: Result<Option<String>, String>)
    ensures
        final(steps)@.len() == old(steps)@.len() + 1,
        final(steps)@.last().status == status,
        final(steps)@.last().url@ == url@,
        forall|k: int| 0 <= k < old(steps)@.len() ==> #[trigger] final(steps)@[k] == old(steps)@[k],
        !(300 <= status < 400) ==> r matches Ok(None),
        300 <= status < 400 ==> match redirect_target(pair_views(headers@), url@) {
            Err(m) => r matches Err(e) && e@ == m,
            Ok(None) => r matches Ok(None),
            Ok(Some(n)) => if old(steps)@.len() + 1 >= 11 {
                r matches Err(e) && e@ == "too many redirects"@
            } else {
                r matches Ok(Some(x)) && x@ == n
            },
        },
{
    steps.push(RedirectStep { status, url: owned(url) });
    if !(300 <= status && status < 400) {
        return Ok(None);
    }
    match redirect_location(headers, url)? {
        Some(next) => if steps.len() >= 11 {
            Err(owned("too many redirects"))
        } else {
            Ok(Some(next))
        },
        None => Ok(None),
    }
}


proof fn lemma_none_after_last(s: Seq<char>, c: char)
    ensures
        forall|j: int| last_index(s, c) < j < s.len() ==> s[j] != c,
    decreases s.len(),
{
    lemma_last_index_bound(s, c);
    if s.len() > 0 && s.last() != c {
        lemma_none_after_last(s.drop_last(), c);
        assert forall|j: int| last_index(s, c) < j < s.len() implies s[j] != c by {
            if j < s.len() - 1 {
                assert(s.drop_last()[j] == s[j]);
            }
        }
    }
}

/// A relative `Location` (not absolute, not from the root) resolves beside
/// the last segment of the current path: the new URL is the current scheme
/// and authority (with the port where it is not the scheme's), then the
/// current path up to its last `/`, then `/` and the location. So from
/// `http://example.com/a/b`, `c` leads to `http://example.com/a/c`.
pub proof fn law_relative_location(hs: Seq<(Seq<char>, Seq<char>)>, current: Seq<char>)
    requires
        hs.len() > 0,
        eq_ignore_case(hs[0].0, "location"@),
        hs[0].1.len() > 0,
        !is_ws(hs[0].1[0]),
        !is_ws(hs[0].1.last()),
        hs[0].1[0] != '/',
        !has_prefix(hs[0].1, "http://"@),
        !has_prefix(hs[0].1, "https://"@),
        url_parts(current) is Ok,
    ensures
        ({
            let (tls, host, port, path) = url_parts(current)->Ok_0;
            let loc = hs[0].1;
            let start = (if tls { "https"@ } else { "http"@ }) + "://"@ + (if port == (if tls { 443u16 } else { 80u16 }) {
                host
            } else {
                host + seq![':'] + dec(port as nat)
            });
            redirect_target(hs, current) matches Ok(Some(u)) && exists|k: int|
                0 <= k <= path.len() && (forall|j: int| k < j < path.len() ==> path[j] != '/') && (0 < k ==> k
                    < path.len() && path[k] == '/') && u == start + #[trigger] path.take(k) + "/"@
                    + loc
        }),
{
    let (tls, host, port, path) = url_parts(current)->Ok_0;
    let loc = hs[0].1;
    assert(location_from(hs, 0) == Some(0int));
    assert(ws_prefix_len(loc) == 0);
    assert(loc.skip(0) =~= loc);
    assert(ws_suffix_len(loc) == 0);
    assert(loc.take(loc.len() as int) =~= loc);
    assert(trim(loc) == loc);
    assert(!(loc.len() > 0 && loc[0] == '/'));
    lemma_last_index_bound(path, '/');
    lemma_none_after_last(path, '/');
    let li = last_index(path, '/');
    assert(seq!['/'] == "/"@) by {
        reveal_strlit("/");
    }
    let start = (if tls { "https"@ } else { "http"@ }) + "://"@ + (if port == (if tls { 443u16 } else { 80u16 }) {
        host
    } else {
        host + seq![':'] + dec(port as nat)
    });
    if li >= 0 {
        assert(redirect_target(hs, current) == Ok::<Option<Seq<char>>, Seq<char>>(
            Some((if tls { "https"@ } else { "http"@ }) + "://"@ + (if (tls && port == 443) || (!tls && port == 80) {
                host
            } else {
                host + seq![':'] + dec(port as nat)
            }) + path.take(li) + seq!['/'] + loc),
        ));
        assert(redirect_target(hs, current)->Ok_0->Some_0 == start + path.take(li) + "/"@ + loc);
    } else {
        assert(path.take(0) =~= Seq::<char>::empty());
        assert(forall|j: int| 0 < j < path.len() ==> path[j] != '/');
        if path.len() > 0 {
            assert(path[0] != '/');
        }
        assert(redirect_target(hs, current) == Ok::<Option<Seq<char>>, Seq<char>>(
            Some((if tls { "https"@ } else { "http"@ }) + "://"@ + (if (tls && port == 443) || (!tls && port == 80) {
                host
            } else {
                host + seq![':'] + dec(port as nat)
            }) + path.take(0) + seq!['/'] + loc),
        ));
        assert(redirect_target(hs, current)->Ok_0->Some_0 == start + path.take(0) + "/"@ + loc);
    }
}


/// How the other `Location`s resolve. Without a header named `location`
/// (in any case) there is no redirect. An absolute `http://` or `https://`
/// location, once trimmed, is the new URL as it is; a location from the
/// root (starting with `/`) follows the current scheme and authority (with
/// the port where it is not the scheme's); and a relative location from a
/// URL that cannot be read gives that URL's error.
pub proof fn law_location_kinds(hs: Seq<(Seq<char>, Seq<char>)>, current: Seq<char>)
    ensures
        (forall|i: int| 0 <= i < hs.len() ==> !eq_ignore_case(#[trigger] hs[i].0, "location"@)) ==> redirect_target(
            hs,
            current,
        ) == Ok::<Option<Seq<char>>, Seq<char>>(None),
        hs.len() > 0 && eq_ignore_case(hs[0].0, "location"@) ==> ({
            let loc = trim(hs[0].1);
            &&& (has_prefix(loc, "http://"@) || has_prefix(loc, "https://"@)) ==> redirect_target(hs, current)
                == Ok::<Option<Seq<char>>, Seq<char>>(Some(loc))
            &&& !has_prefix(loc, "http://"@) && !has_prefix(loc, "https://"@) ==> match url_parts(current) {
                Err(m) => redirect_target(hs, current) == Err::<Option<Seq<char>>, Seq<char>>(m),
                Ok((tls, host, port, path)) => loc.len() > 0 && loc[0] == '/' ==> redirect_target(hs, current)
                    == Ok::<Option<Seq<char>>, Seq<char>>(
                    Some(
                        (if tls { "https"@ } else { "http"@ }) + "://"@ + (if port == (if tls { 443u16 } else { 80u16 }) {
                            host
                        } else {
                            host + seq![':'] + dec(port as nat)
                        }) + loc,
                    ),
                ),
            }
        }),
{
    if forall|i: int| 0 <= i < hs.len() ==> !eq_ignore_case(#[trigger] hs[i].0, "location"@) {
        lemma_no_location(hs, 0);
    }
    if hs.len() > 0 && eq_ignore_case(hs[0].0, "location"@) {
        assert(location_from(hs, 0) == Some(0int));
    }
}

proof fn lemma_no_location(hs: Seq<(Seq<char>, Seq<char>)>, i: int)
    requires
        0 <= i,
        forall|k: int| 0 <= k < hs.len() ==> !eq_ignore_case(#[trigger] hs[k].0, "location"@),
    ensures
        location_from(hs, i) is None,
    decreases hs.len() - i,
{
    if i < hs.len() {
        lemma_no_location(hs, i + 1);
    }
}

} // verus!

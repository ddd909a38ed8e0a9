use vstd::prelude::*;

use crate::deps::DirFs;
use crate::ipv4::Ipv4Addr;
use crate::text::{
    chars_of, dec, first_index_from, find_char_from, join, last_index, last_index_exec, owned,
    parse_unsigned, parse_unsigned_exec, push_char, push_chars, push_dec, push_join, slice_range,
    split_char, split_exec, string_of, views,
};

verus! {

/// The most bytes a request's header block may take.
pub const MAX_HTTP_HEADER_BYTES: usize = 16384;

pub open spec fn server_usage() -> Seq<char> {
    "usage: httpserver <dir> [port] [--tls]"@
}

/// The arguments other than `--tls`, in order.
pub open spec fn without_tls(a: Seq<Seq<char>>) -> Seq<Seq<char>>
    decreases a.len(),
{
    if a.len() == 0 {
        seq![]
    } else if a.last() == "--tls"@ {
        without_tls(a.drop_last())
    } else {
        without_tls(a.drop_last()).push(a.last())
    }
}

/// The directory, port and TLS flag that `<dir> [port] [--tls]` selects:
/// 8080, or 8443 with TLS, unless a port is given.
pub open spec fn server_args(a: Seq<Seq<char>>) -> Result<(Seq<char>, u16, bool), Seq<char>> {
    let tls = a.contains("--tls"@);
    let rest = without_tls(a);
    if rest.len() == 1 {
        Ok((rest[0], if tls { 8443u16 } else { 8080u16 }, tls))
    } else if rest.len() == 2 {
        match parse_unsigned(rest[1], 65535) {
            Some(p) => Ok((rest[0], p as u16, tls)),
            None => Err("invalid port"@),
        }
    } else {
        Err(server_usage())
    }
}

pub fn parse_args(args: &[String]) -> (r: Result<(String, u16, bool), String>)
    ensures
        match server_args(views(args@)) {
            Ok((d, p, t)) => r matches Ok((dd, pp, tt)) && dd@ == d && pp == p && tt == t,
            Err(m) => r matches Err(e) && e@ == m,
        },
{
    let ghost a = views(args@);
    let mut tls = false;
    let mut rest: Vec<String> = Vec::new();
    let mut i: usize = 0;
    assert(a.take(0) =~= Seq::<Seq<char>>::empty());
    assert(views(rest@) =~= Seq::<Seq<char>>::empty());
    while i < args.len()
        invariant
            i <= args@.len(),
            a == views(args@),
            views(rest@) == without_tls(a.take(i as int)),
            tls == a.take(i as int).contains("--tls"@),
        decreases args.len() - i,
    {
        let cs = chars_of(args[i].as_str());
        assert(a.take(i + 1).drop_last() =~= a.take(i as int));
        assert(a[i as int] == cs@);
        if crate::text::eq_lit(cs.as_slice(), "--tls") {
            tls = true;
            assert(a.take(i + 1)[i as int] == "--tls"@);
        } else {
            let ghost before = rest@;
            rest.push(args[i].clone());
            assert(views(rest@) =~= views(before).push(args@[i as int]@));
            proof {
                if a.take(i + 1).contains("--tls"@) {
                    let t = a.take(i + 1);
                    let k = choose|k: int| 0 <= k < t.len() && #[trigger] t[k] == "--tls"@;
                    assert(a.take(i as int)[k] == "--tls"@);
                }
            }
        }
        i = i + 1;
    }
    assert(a.take(i as int) =~= a);
    if rest.len() == 1 {
        let port: u16 = if tls { 8443 } else { 8080 };
        Ok((rest[0].clone(), port, tls))
    } else if rest.len() == 2 {
        let pc = chars_of(rest[1].as_str());
        match parse_unsigned_exec(pc.as_slice(), 65535) {
            Some(p) => Ok((rest[0].clone(), p as u16, tls)),
            None => Err(owned("invalid port")),
        }
    } else {
        Err(owned("usage: httpserver <dir> [port] [--tls]"))
    }
}

/// What a character becomes in HTML text.
pub open spec fn escape_char(c: char) -> Seq<char> {
    if c == '&' {
        "&amp;"@
    } else if c == '<' {
        "&lt;"@
    } else if c == '>' {
        "&gt;"@
    } else if c == '"' {
        "&quot;"@
    } else if c == '\'' {
        "&#39;"@
    } else {
        seq![c]
    }
}

/// `s` with `& < > " '` replaced by their entities.
pub open spec fn html_escaped(s: Seq<char>) -> Seq<char>
    decreases s.len(),
{
    if s.len() == 0 {
        seq![]
    } else {
        html_escaped(s.drop_last()) + escape_char(s.last())
    }
}

/// Escapes text for HTML.
pub fn html_escape(s: &str) -> (r: String)
    ensures
        r@ == html_escaped(s@),
{
    let cs = chars_of(s);
    let mut out = String::new();
    let mut i: usize = 0;
    assert(cs@.take(0) =~= Seq::<char>::empty());
    while i < cs.len()
        invariant
            i <= cs@.len(),
            out@ == html_escaped(cs@.take(i as int)),
        decreases cs.len() - i,
    {
        let c = cs[i];
        assert(cs@.take(i + 1).drop_last() =~= cs@.take(i as int));
        if c == '&' {
            out.append("&amp;");
        } else if c == '<' {
            out.append("&lt;");
        } else if c == '>' {
            out.append("&gt;");
        } else if c == '"' {
            out.append("&quot;");
        } else if c == '\'' {
            out.append("&#39;");
        } else {
            push_char(&mut out, c);
        }
        i = i + 1;
    }
    assert(cs@.take(i as int) =~= cs@);
    out
}

/// Whether the text holds none of the characters that HTML gives meaning
/// to, apart from `&`.
pub open spec fn inert_html(s: Seq<char>) -> bool {
    forall|i: int| 0 <= i < s.len() ==> s[i] != '<' && s[i] != '>' && s[i] != '"' && s[i] != '\''
}

/// Escaped text holds no `<`, `>`, `"` or `'`: it cannot open a tag or end
/// an attribute value.
pub proof fn law_escaped_is_inert(s: Seq<char>)
    ensures
        inert_html(html_escaped(s)),
    decreases s.len(),
{
    if s.len() > 0 {
        law_escaped_is_inert(s.drop_last());
        let c = s.last();
        reveal_strlit("&amp;");
        reveal_strlit("&lt;");
        reveal_strlit("&gt;");
        reveal_strlit("&quot;");
        reveal_strlit("&#39;");
        let a = html_escaped(s.drop_last());
        let b = escape_char(c);
        assert forall|i: int| 0 <= i < (a + b).len() implies (a + b)[i] != '<' && (a + b)[i] != '>'
            && (a + b)[i] != '"' && (a + b)[i] != '\'' by {
            if i >= a.len() {
                assert((a + b)[i] == b[i - a.len()]);
            } else {
                assert((a + b)[i] == a[i]);
            }
        }
    }
}

/// `split_once('?')`: the path before the first `?`, and the query after it.
pub open spec fn query_split(p: Seq<char>) -> (Seq<char>, Option<Seq<char>>) {
    match first_index_from(p, '?', 0) {
        Some(i) => (p.take(i), Some(p.skip(i + 1))),
        None => (p, None),
    }
}

/// Splits a request path at its first `?`.
pub fn split_query(path: &str) -> (r: (String, Option<String>))
    ensures
        r.0@ == query_split(path@).0,
        match query_split(path@).1 {
            Some(q) => r.1 matches Some(x) && x@ == q,
            None => r.1 is None,
        },
{
    let cs = chars_of(path);
    let n = cs.len();
    match find_char_from(cs.as_slice(), '?', 0) {
        Some(i) => {
            proof {
                assert(first_index_from(cs@, '?', 0) == Some(i as int)) by {
                    let j = choose|j: int| 0 <= j < cs@.len() && cs@[j] == '?' && forall|k: int| 0 <= k < j ==> cs@[k] != '?';
                    assert(j == i as int);
                }
            }
            (string_of(slice_range(cs.as_slice(), 0, i)), Some(string_of(slice_range(cs.as_slice(), i + 1, n))))
        },
        None => (owned(path), None),
    }
}

/// `s` without its trailing `/` characters.
pub open spec fn trim_slashes(s: Seq<char>) -> Seq<char>
    decreases s.len(),
{
    if s.len() > 0 && s.last() == '/' {
        trim_slashes(s.drop_last())
    } else {
        s
    }
}

/// The pieces that are neither empty nor `..`, in order.
pub open spec fn kept_segments(parts: Seq<Seq<char>>) -> Seq<Seq<char>>
    decreases parts.len(),
{
    if parts.len() == 0 {
        seq![]
    } else if parts.last().len() > 0 && parts.last() != ".."@ {
        kept_segments(parts.drop_last()).push(parts.last())
    } else {
        kept_segments(parts.drop_last())
    }
}

/// The segments of a request path that are served: those of the part before
/// the query that are neither empty nor `..`.
pub open spec fn served_segments(request_path: Seq<char>) -> Seq<Seq<char>> {
    kept_segments(split_char(query_split(request_path).0, '/'))
}

/// The file system path that a request path maps to under `root`.
pub open spec fn resolved_path(root: Seq<char>, request_path: Seq<char>) -> Seq<char> {
    let segs = served_segments(request_path);
    if segs.len() == 0 {
        trim_slashes(root)
    } else {
        trim_slashes(root) + seq!['/'] + join(segs, "/"@)
    }
}

/// Maps a request path to a file system path under `root`, dropping empty
/// and `..` segments.
pub fn resolve_path(root: &str, request_path: &str) -> (r: Option<String>)
    ensures
        r matches Some(p) && p@ == resolved_path(root@, request_path@),
{
    let (path, _) = split_query(request_path);
    let pcs = chars_of(path.as_str());
    let parts = split_exec(pcs.as_slice(), '/');
    let ghost ps = split_char(pcs@, '/');
    let mut segs: Vec<String> = Vec::new();
    let mut i: usize = 0;
    assert(ps.take(0) =~= Seq::<Seq<char>>::empty());
    assert(views(segs@) =~= Seq::<Seq<char>>::empty());
    while i < parts.len()
        invariant
            i <= parts@.len(),
            parts@.len() == ps.len(),
            forall|k: int| 0 <= k < parts@.len() ==> #[trigger] parts@[k]@ == ps[k],
            views(segs@) == kept_segments(ps.take(i as int)),
        decreases parts.len() - i,
    {
        assert(ps.take(i + 1).drop_last() =~= ps.take(i as int));
        assert(ps.take(i + 1).last() == parts@[i as int]@);
        if parts[i].len() > 0 && !crate::text::eq_lit(parts[i].as_slice(), "..") {
            let ghost before = segs@;
            segs.push(string_of(parts[i].as_slice()));
            assert(views(segs@) =~= views(before).push(parts@[i as int]@));
        }
        i = i + 1;
    }
    assert(ps.take(i as int) =~= ps);
    let rcs = chars_of(root);
    let mut n = rcs.len();
    assert(rcs@.take(n as int) =~= rcs@);
    while n > 0 && rcs[n - 1] == '/'
        invariant
            n <= rcs@.len(),
            trim_slashes(rcs@) == trim_slashes(rcs@.take(n as int)),
        decreases n,
    {
        assert(rcs@.take(n as int).drop_last() =~= rcs@.take(n - 1));
        n = n - 1;
    }
    let mut out = string_of(slice_range(rcs.as_slice(), 0, n));
    assert(out@ =~= trim_slashes(root@));
    if segs.len() > 0 {
        push_char(&mut out, '/');
        push_join(&mut out, segs.as_slice(), "/");
    }
    Some(out)
}

proof fn lemma_split_pieces_lack(s: Seq<char>, c: char)
    ensures
        forall|k: int| 0 <= k < split_char(s, c).len() ==> !(#[trigger] split_char(s, c)[k]).contains(c),
    decreases s.len(),
{
    if s.len() > 0 {
        lemma_split_pieces_lack(s.drop_last(), c);
        let rest = split_char(s.drop_last(), c);
        crate::text::lemma_split_char_nonempty(s.drop_last(), c);
        if s.last() != c {
            let l = rest.last().push(s.last());
            assert forall|k: int| 0 <= k < split_char(s, c).len() implies !(#[trigger] split_char(s, c)[k]).contains(c) by {
                if k == rest.len() - 1 {
                    assert(!rest.last().contains(c));
                    if l.contains(c) {
                        let j = choose|j: int| 0 <= j < l.len() && l[j] == c;
                        assert(rest.last()[j] == c);
                    }
                } else {
                    assert(split_char(s, c)[k] == rest[k]);
                }
            }
        } else {
            assert forall|k: int| 0 <= k < split_char(s, c).len() implies !(#[trigger] split_char(s, c)[k]).contains(c) by {
                if k < rest.len() {
                    assert(split_char(s, c)[k] == rest[k]);
                }
            }
        }
    }
}

proof fn lemma_kept_from(parts: Seq<Seq<char>>)
    ensures
        forall|k: int| 0 <= k < kept_segments(parts).len() ==> exists|j: int| 0 <= j < parts.len() && parts[j] == #[trigger] kept_segments(parts)[k],
        forall|k: int| 0 <= k < kept_segments(parts).len() ==> (#[trigger] kept_segments(parts)[k]).len() > 0 && kept_segments(parts)[k] != ".."@,
    decreases parts.len(),
{
    if parts.len() > 0 {
        lemma_kept_from(parts.drop_last());
        let r = kept_segments(parts.drop_last());
        assert forall|k: int| 0 <= k < kept_segments(parts).len() implies exists|j: int| 0 <= j < parts.len() && parts[j] == #[trigger] kept_segments(parts)[k] by {
            if k < r.len() {
                assert(kept_segments(parts)[k] == r[k]);
                let j = choose|j: int| 0 <= j < parts.drop_last().len() && parts.drop_last()[j] == r[k];
                assert(parts[j] == r[k]);
            } else {
                assert(parts[parts.len() - 1] == kept_segments(parts)[k]);
            }
        }
        assert forall|k: int| 0 <= k < kept_segments(parts).len() implies (#[trigger] kept_segments(parts)[k]).len() > 0 && kept_segments(parts)[k] != ".."@ by {
            if k < r.len() {
                assert(kept_segments(parts)[k] == r[k]);
            }
        }
    }
}

/// A request path cannot climb out of the root: the served path is the root
/// followed by segments that are neither empty nor `..` and hold no `/`.
pub proof fn law_resolved_stays_under_root(root: Seq<char>, request_path: Seq<char>)
    ensures
        ({
            let segs = served_segments(request_path);
            &&& resolved_path(root, request_path) == if segs.len() == 0 {
                trim_slashes(root)
            } else {
                trim_slashes(root) + seq!['/'] + join(segs, "/"@)
            }
            &&& forall|k: int| 0 <= k < segs.len() ==> (#[trigger] segs[k]).len() > 0 && segs[k] != ".."@
                && !segs[k].contains('/')
        }),
{
    let parts = split_char(query_split(request_path).0, '/');
    lemma_kept_from(parts);
    lemma_split_pieces_lack(query_split(request_path).0, '/');
    let segs = served_segments(request_path);
    assert forall|k: int| 0 <= k < segs.len() implies (#[trigger] segs[k]).len() > 0 && segs[k] != ".."@ && !segs[k].contains('/') by {
        let j = choose|j: int| 0 <= j < parts.len() && parts[j] == kept_segments(parts)[k];
        assert(!parts[j].contains('/'));
    }
}

/// `rsplit('.').next()`: what follows the last `.`, or the whole path.
pub open spec fn extension(p: Seq<char>) -> Seq<char> {
    let li = last_index(p, '.');
    if li >= 0 {
        p.skip(li + 1)
    } else {
        p
    }
}

/// The content type served for a file extension.
pub open spec fn mime_of(ext: Seq<char>) -> Seq<char> {
    if ext == "html"@ || ext == "htm"@ {
        "text/html"@
    } else if ext == "css"@ {
        "text/css"@
    } else if ext == "js"@ {
        "text/javascript"@
    } else if ext == "json"@ {
        "application/json"@
    } else if ext == "png"@ {
        "image/png"@
    } else if ext == "jpg"@ || ext == "jpeg"@ {
        "image/jpeg"@
    } else if ext == "gif"@ {
        "image/gif"@
    } else if ext == "svg"@ {
        "image/svg+xml"@
    } else if ext == "txt"@ {
        "text/plain"@
    } else if ext == "pdf"@ {
        "application/pdf"@
    } else {
        "application/octet-stream"@
    }
}

/// The content type of a file, by its extension.
pub fn mime_type(path: &str) -> (r: &'static str)
    ensures
        r@ == mime_of(extension(path@)),
{
    let cs = chars_of(path);
    let n = cs.len();
    let ext = match last_index_exec(cs.as_slice(), '.') {
        Some(i) => slice_range(cs.as_slice(), i + 1, n),
        None => cs.as_slice(),
    };
    assert(ext@ == extension(path@));
    if crate::text::eq_lit(ext, "html") || crate::text::eq_lit(ext, "htm") {
        "text/html"
    } else if crate::text::eq_lit(ext, "css") {
        "text/css"
    } else if crate::text::eq_lit(ext, "js") {
        "text/javascript"
    } else if crate::text::eq_lit(ext, "json") {
        "application/json"
    } else if crate::text::eq_lit(ext, "png") {
        "image/png"
    } else if crate::text::eq_lit(ext, "jpg") || crate::text::eq_lit(ext, "jpeg") {
        "image/jpeg"
    } else if crate::text::eq_lit(ext, "gif") {
        "image/gif"
    } else if crate::text::eq_lit(ext, "svg") {
        "image/svg+xml"
    } else if crate::text::eq_lit(ext, "txt") {
        "text/plain"
    } else if crate::text::eq_lit(ext, "pdf") {
        "application/pdf"
    } else {
        "application/octet-stream"
    }
}

/// The list items of a directory listing, one link per entry.
pub open spec fn listing_items(entries: Seq<Seq<char>>) -> Seq<char>
    decreases entries.len(),
{
    if entries.len() == 0 {
        seq![]
    } else {
        let e = html_escaped(entries.last());
        listing_items(entries.drop_last()) + "<li><a href=\""@ + e + "\">"@ + e + "</a></li>"@
    }
}

/// The HTML page listing a directory: a link to the parent unless at `/`,
/// then one link per entry; names are escaped.
pub open spec fn listing_html(request_path: Seq<char>, entries: Seq<Seq<char>>) -> Seq<char> {
    let p = html_escaped(request_path);
    "<html><head><title>Index of "@ + p + "</title></head><body><h1>Index of "@ + p + "</h1><ul>"@
        + (if request_path != "/"@ {
        "<li><a href=\"..\">..</a></li>"@
    } else {
        seq![]
    }) + listing_items(entries) + "</ul></body></html>"@
}

/// Renders the listing of a directory.
pub fn dir_listing(request_path: &str, entries: &[String]) -> (r: String)
    ensures
        r@ == listing_html(request_path@, views(entries@)),
{
    let escaped = html_escape(request_path);
    let mut html = owned("<html><head><title>Index of ");
    html.append(escaped.as_str());
    html.append("</title></head><body><h1>Index of ");
    html.append(escaped.as_str());
    html.append("</h1><ul>");
    let rp = chars_of(request_path);
    if !crate::text::eq_lit(rp.as_slice(), "/") {
        html.append("<li><a href=\"..\">..</a></li>");
    }
    let ghost head = html@;
    let mut i: usize = 0;
    assert(views(entries@).take(0) =~= Seq::<Seq<char>>::empty());
    while i < entries.len()
        invariant
            i <= entries@.len(),
            html@ == head + listing_items(views(entries@).take(i as int)),
        decreases entries.len() - i,
    {
        assert(views(entries@).take(i + 1).drop_last() =~= views(entries@).take(i as int));
        assert(views(entries@).take(i + 1).last() == entries@[i as int]@);
        let e = html_escape(entries[i].as_str());
        html.append("<li><a href=\"");
        html.append(e.as_str());
        html.append("\">");
        html.append(e.as_str());
        html.append("</a></li>");
        i = i + 1;
        assert(html@ =~= head + listing_items(views(entries@).take(i as int)));
    }
    assert(views(entries@).take(i as int) =~= views(entries@));
    html.append("</ul></body></html>");
    assert(html@ =~= listing_html(request_path@, views(entries@)));
    html
}

/// The first line of a request, decoded leniently: up to the first `\n`,
/// without a `\r` before it.
pub open spec fn first_line_of(b: Seq<u8>) -> Seq<char> {
    let ls = crate::text::lines(crate::dns::lossy_utf8(b));
    if ls.len() > 0 {
        ls[0]
    } else {
        seq![]
    }
}

pub fn first_line(bytes: &[u8]) -> (r: String)
    ensures
        r@ == first_line_of(bytes@),
{
    let text = crate::dns::utf8_lossy(bytes);
    let cs = chars_of(text.as_str());
    let ls = crate::text::lines_exec(cs.as_slice());
    if ls.len() > 0 {
        string_of(ls[0].as_slice())
    } else {
        String::new()
    }
}

/// The methods the server answers.
pub const ALLOWED_METHODS: &'static str = "GET, HEAD, OPTIONS";

/// A response of the file server.
pub struct Response {
    pub status: u16,
    pub reason: &'static str,
    pub content_type: &'static str,
    pub body: Vec<u8>,
    pub location: Option<String>,
    pub allow: Option<&'static str>,
    /// Whether the body goes out with the head (not for `HEAD`).
    pub send_body: bool,
}

/// What a response says, as plain values.
pub enum Answer {
    /// 200 with a body and its content type.
    Found(Seq<u8>, Seq<char>),
    NotFound,
    MethodNotAllowed,
    Options,
    /// 301 to a location.
    Moved(Seq<char>),
}

/// The body of the 301 answer to `location`: a link to it.
pub open spec fn moved_body(location: Seq<char>) -> Seq<char> {
    let e = html_escaped(location);
    "<a href=\""@ + e + "\">"@ + e + "</a>"@
}

/// Whether `r` is the answer `a` and goes out with its body.
pub open spec fn answers(r: Response, a: Answer) -> bool {
    r.send_body && shaped(r, a)
}

/// Whether the fields of `r` are those of the answer `a`.
pub open spec fn shaped(r: Response, a: Answer) -> bool {
    match a {
        Answer::Found(body, ct) => r.status == 200 && r.reason@ == "OK"@ && r.content_type@ == ct
            && r.body@ == body && r.location is None && r.allow is None,
        Answer::NotFound => r.status == 404 && r.reason@ == "Not Found"@ && r.content_type@
            == "text/plain"@ && r.body@ == vstd::utf8::encode_utf8("404 Not Found"@)
            && r.location is None && r.allow is None,
        Answer::MethodNotAllowed => r.status == 405 && r.reason@ == "Method Not Allowed"@
            && r.content_type@ == "text/plain"@ && r.body@ == vstd::utf8::encode_utf8(
            "405 Method Not Allowed"@,
        ) && r.location is None && (r.allow matches Some(m) && m@ == ALLOWED_METHODS@),
        Answer::Options => r.status == 204 && r.reason@ == "No Content"@ && r.content_type@
            == "text/plain"@ && r.body@.len() == 0 && r.location is None
            && (r.allow matches Some(m) && m@ == ALLOWED_METHODS@),
        Answer::Moved(l) => r.status == 301 && r.reason@ == "Moved Permanently"@
            && r.content_type@ == "text/html"@ && r.body@ == vstd::utf8::encode_utf8(moved_body(l))
            && (r.location matches Some(x) && x@ == l) && r.allow is None,
    }
}

/// The head of a response: status line, content type and length, the
/// optional `Location` and `Allow`, `Connection: close` and the blank line.
pub open spec fn response_head(r: Response) -> Seq<char> {
    "HTTP/1.1 "@ + dec(r.status as nat) + seq![' '] + r.reason@ + "\r\nContent-Type: "@
        + r.content_type@ + "\r\nContent-Length: "@ + dec(r.body@.len()) + "\r\n"@ + (match r.location {
        Some(l) => "Location: "@ + l@ + "\r\n"@,
        None => seq![],
    }) + (match r.allow {
        Some(a) => "Allow: "@ + a@ + "\r\n"@,
        None => seq![],
    }) + "Connection: close\r\n\r\n"@
}

/// The bytes of a response: the head in UTF-8, then the body unless left out.
pub open spec fn response_bytes(r: Response) -> Seq<u8> {
    vstd::utf8::encode_utf8(response_head(r)) + if r.send_body {
        r.body@
    } else {
        seq![]
    }
}

fn text_bytes(s: &str) -> (r: Vec<u8>)
    ensures
        r@ == vstd::utf8::encode_utf8(s@),
{
    crate::dns::copy_bytes(s.as_bytes())
}

impl Response {
    pub fn ok(body: Vec<u8>, content_type: &'static str) -> (r: Response)
        ensures
            answers(r, Answer::Found(body@, content_type@)),
    {
        Response {
            status: 200,
            reason: "OK",
            content_type,
            body,
            location: None,
            allow: None,
            send_body: true,
        }
    }

    pub fn not_found() -> (r: Response)
        ensures
            answers(r, Answer::NotFound),
    {
        Response {
            status: 404,
            reason: "Not Found",
            content_type: "text/plain",
            body: text_bytes("404 Not Found"),
            location: None,
            allow: None,
            send_body: true,
        }
    }

    pub fn method_not_allowed() -> (r: Response)
        ensures
            answers(r, Answer::MethodNotAllowed),
    {
        Response {
            status: 405,
            reason: "Method Not Allowed",
            content_type: "text/plain",
            body: text_bytes("405 Method Not Allowed"),
            location: None,
            allow: Some(ALLOWED_METHODS),
            send_body: true,
        }
    }

    pub fn options() -> (r: Response)
        ensures
            answers(r, Answer::Options),
    {
        Response {
            status: 204,
            reason: "No Content",
            content_type: "text/plain",
            body: Vec::new(),
            location: None,
            allow: Some(ALLOWED_METHODS),
            send_body: true,
        }
    }

    pub fn redirect(location: &str) -> (r: Response)
        ensures
            answers(r, Answer::Moved(location@)),
    {
        let escaped = html_escape(location);
        let mut body = owned("<a href=\"");
        body.append(escaped.as_str());
        body.append("\">");
        body.append(escaped.as_str());
        body.append("</a>");
        assert(body@ =~= moved_body(location@));
        Response {
            status: 301,
            reason: "Moved Permanently",
            content_type: "text/html",
            body: text_bytes(body.as_str()),
            location: Some(owned(location)),
            allow: None,
            send_body: true,
        }
    }

    /// The same response, to go out without its body.
    pub fn without_body(self) -> (r: Response)
        ensures
            r.status == self.status,
            r.reason == self.reason,
            r.content_type == self.content_type,
            r.body@ == self.body@,
            r.location == self.location,
            r.allow == self.allow,
            !r.send_body,
    {
        let mut s = self;
        s.send_body = false;
        s
    }

    /// The bytes that go out for the response.
    pub fn to_bytes(&self) -> (r: Vec<u8>)
        ensures
            r@ == response_bytes(*self),
    {
        let mut head = owned("HTTP/1.1 ");
        push_dec(&mut head, self.status as u64);
        push_char(&mut head, ' ');
        head.append(self.reason);
        head.append("\r\nContent-Type: ");
        head.append(self.content_type);
        head.append("\r\nContent-Length: ");
        push_dec(&mut head, self.body.len() as u64);
        head.append("\r\n");
        match &self.location {
            Some(l) => {
                head.append("Location: ");
                head.append(l.as_str());
                head.append("\r\n");
            },
            None => {},
        }
        match self.allow {
            Some(a) => {
                head.append("Allow: ");
                head.append(a);
                head.append("\r\n");
            },
            None => {},
        }
        head.append("Connection: close\r\n\r\n");
        assert(head@ =~= response_head(*self));
        let mut out = text_bytes(head.as_str());
        if self.send_body {
            let ghost start = out@;
            let mut i: usize = 0;
            while i < self.body.len()
                invariant
                    i <= self.body@.len(),
                    out@ == start + self.body@.take(i as int),
                decreases self.body.len() - i,
            {
                out.push(self.body[i]);
                i = i + 1;
                assert(out@ =~= start + self.body@.take(i as int));
            }
            assert(self.body@.take(i as int) =~= self.body@);
        } else {
            assert(out@ =~= out@ + Seq::<u8>::empty());
        }
        out
    }
}

/// Where a directory request without a trailing slash is sent: the same
/// path with a slash, the query kept.
pub open spec fn slash_location(url_path: Seq<char>, query: Option<Seq<char>>) -> Seq<char> {
    match query {
        Some(q) => url_path + "/?"@ + q,
        None => url_path + "/"@,
    }
}

/// The answer for a request path, given what the file system reported:
/// whether the resolved path is a directory, the `index.html` in it, its
/// listing, or the file's bytes (`None` where the read failed).
pub open spec fn served_answer(
    root: Seq<char>,
    request_path: Seq<char>,
    is_dir: bool,
    index: Option<Seq<u8>>,
    listing: Option<Seq<Seq<char>>>,
    file: Option<Seq<u8>>,
) -> Answer {
    let (url_path, query) = query_split(request_path);
    if is_dir {
        if !(url_path.len() > 0 && url_path.last() == '/') {
            Answer::Moved(slash_location(url_path, query))
        } else {
            match index {
                Some(b) => Answer::Found(b, "text/html"@),
                None => match listing {
                    Some(es) => Answer::Found(
                        vstd::utf8::encode_utf8(listing_html(request_path, es)),
                        "text/html"@,
                    ),
                    None => Answer::NotFound,
                },
            }
        }
    } else {
        match file {
            Some(b) => Answer::Found(b, mime_of(extension(resolved_path(root, request_path)))),
            None => Answer::NotFound,
        }
    }
}

pub open spec fn opt_bytes(o: Option<Vec<u8>>) -> Option<Seq<u8>> {
    match o {
        Some(v) => Some(v@),
        None => None,
    }
}

pub open spec fn opt_names(o: Option<Vec<String>>) -> Option<Seq<Seq<char>>> {
    match o {
        Some(v) => Some(views(v@)),
        None => None,
    }
}

/// The file read for a directory: its `index.html`.
pub fn index_path(dir: &str) -> (r: String)
    ensures
        r@ == dir@ + "/index.html"@,
{
    let mut index = owned(dir);
    index.append("/index.html");
    index
}

/// The response to a `GET` of `request_path` under `root`, given what the
/// file system reported: whether the resolved path is a directory, the
/// bytes of its `index.html`, its listing, and the file's bytes (`None`
/// where a read failed or was not made).
pub fn answer_for(
    root: &str,
    request_path: &str,
    is_dir: bool,
    index: Option<Vec<u8>>,
    listing: Option<Vec<String>>,
    file: Option<Vec<u8>>,
) -> (r: Response)
    ensures
        answers(r, served_answer(root@, request_path@, is_dir, opt_bytes(index), opt_names(listing), opt_bytes(file))),
{
    let ghost want = served_answer(root@, request_path@, is_dir, opt_bytes(index), opt_names(listing), opt_bytes(file));
    let (url_path, query) = split_query(request_path);
    if is_dir {
        let ucs = chars_of(url_path.as_str());
        if !(ucs.len() > 0 && ucs[ucs.len() - 1] == '/') {
            let mut location = url_path.clone();
            match &query {
                Some(q) => {
                    location.append("/?");
                    location.append(q.as_str());
                },
                None => location.append("/"),
            }
            assert(location@ =~= slash_location(url_path@, match query { Some(q) => Some(q@), None => None }));
            assert(want == Answer::Moved(location@));
            return Response::redirect(location.as_str());
        }
        match index {
            Some(body) => {
                assert(want == Answer::Found(body@, "text/html"@));
                return Response::ok(body, "text/html");
            },
            None => {},
        }
        match listing {
            Some(entries) => {
                let html = dir_listing(request_path, entries.as_slice());
                assert(want == Answer::Found(vstd::utf8::encode_utf8(html@), "text/html"@));
                Response::ok(text_bytes(html.as_str()), "text/html")
            },
            None => {
                assert(want == Answer::NotFound);
                Response::not_found()
            },
        }
    } else {
        match file {
            Some(body) => {
                let path = match resolve_path(root, request_path) {
                    Some(p) => p,
                    None => owned(root),
                };
                assert(want == Answer::Found(body@, mime_of(extension(path@))));
                Response::ok(body, mime_type(path.as_str()))
            },
            None => {
                assert(want == Answer::NotFound);
                Response::not_found()
            },
        }
    }
}

/// Answers a `GET` for `request_path` from the files under `root`: it asks
/// the file system whether the resolved path is a directory; for one whose
/// request ends in `/` it reads `index_path` of it and, where that fails,
/// lists it; for anything else it reads the file; `answer_for` makes the
/// response of the reports. What the file system reports is its own to
/// say, so the contract holds for some report.
pub fn handle_request<F: DirFs>(fs: &F, root: &str, request_path: &str) -> (r: Response)
    ensures
        exists|d: bool, idx: Option<Seq<u8>>, lst: Option<Seq<Seq<char>>>, f: Option<Seq<u8>>|
            answers(r, #[trigger] served_answer(root@, request_path@, d, idx, lst, f)),
{
    let path = match resolve_path(root, request_path) {
        Some(p) => p,
        None => return Response::not_found(),
    };
    let r = if fs.is_dir(path.as_str()) {
        let (url_path, _) = split_query(request_path);
        let ucs = chars_of(url_path.as_str());
        if !(ucs.len() > 0 && ucs[ucs.len() - 1] == '/') {
            answer_for(root, request_path, true, None, None, None)
        } else {
            match fs.read_bytes(index_path(path.as_str()).as_str()) {
                Ok(body) => answer_for(root, request_path, true, Some(body), None, None),
                Err(_) => match fs.list_dir(path.as_str()) {
                    Ok(entries) => answer_for(root, request_path, true, None, Some(entries), None),
                    Err(_) => answer_for(root, request_path, true, None, None, None),
                },
            }
        }
    } else {
        match fs.read_bytes(path.as_str()) {
            Ok(body) => answer_for(root, request_path, false, None, None, Some(body)),
            Err(_) => answer_for(root, request_path, false, None, None, None),
        }
    };
    r
}

/// The answer to a request line: `GET` is served, `HEAD` served without the
/// body, `OPTIONS` lists the methods, any other method is refused. A
/// missing method reads as `GET`, a missing path as `/`.
pub open spec fn request_answer(
    root: Seq<char>,
    line: Seq<char>,
    is_dir: bool,
    index: Option<Seq<u8>>,
    listing: Option<Seq<Seq<char>>>,
    file: Option<Seq<u8>>,
) -> (Answer, bool) {
    let method = match crate::http::nth_word(line, 0) {
        Some(m) => m,
        None => "GET"@,
    };
    let path = match crate::http::nth_word(line, 1) {
        Some(p) => p,
        None => "/"@,
    };
    if method == "GET"@ {
        (served_answer(root, path, is_dir, index, listing, file), true)
    } else if method == "HEAD"@ {
        (served_answer(root, path, is_dir, index, listing, file), false)
    } else if method == "OPTIONS"@ {
        (Answer::Options, true)
    } else {
        (Answer::MethodNotAllowed, true)
    }
}

/// A `HEAD` request is answered as the `GET` of the same path would be,
/// without the body: for the same report of the file system, the bytes of
/// the `GET` answer are those of the `HEAD` answer followed by the body, and
/// both heads give the same `Content-Length`.
pub proof fn law_head_is_get_without_body(
    root: Seq<char>,
    get_line: Seq<char>,
    head_line: Seq<char>,
    d: bool,
    idx: Option<Seq<u8>>,
    lst: Option<Seq<Seq<char>>>,
    f: Option<Seq<u8>>,
    rg: Response,
    rh: Response,
)
    requires
        crate::http::nth_word(get_line, 0) == Some("GET"@),
        crate::http::nth_word(head_line, 0) == Some("HEAD"@),
        crate::http::nth_word(get_line, 1) == crate::http::nth_word(head_line, 1),
        ({
            let (a, send) = request_answer(root, get_line, d, idx, lst, f);
            rg.send_body == send && shaped(rg, a)
        }),
        ({
            let (a, send) = request_answer(root, head_line, d, idx, lst, f);
            rh.send_body == send && shaped(rh, a)
        }),
    ensures
        rg.send_body && !rh.send_body,
        rh.body@ == rg.body@,
        response_bytes(rg) == response_bytes(rh) + rg.body@,
{
    reveal_strlit("GET");
    reveal_strlit("HEAD");
    reveal_strlit("OPTIONS");
    let path = match crate::http::nth_word(get_line, 1) {
        Some(p) => p,
        None => "/"@,
    };
    assert("HEAD"@ != "GET"@) by {
        assert("HEAD"@.len() != "GET"@.len());
    }
    assert(request_answer(root, get_line, d, idx, lst, f) == (served_answer(root, path, d, idx, lst, f), true));
    assert(request_answer(root, head_line, d, idx, lst, f) == (served_answer(root, path, d, idx, lst, f), false));
    assert(response_head(rg) == response_head(rh));
    assert(response_bytes(rh) =~= vstd::utf8::encode_utf8(response_head(rh)));
}

/// Answers a request line.
pub fn response_for_request<F: DirFs>(fs: &F, root: &str, request_line: &str) -> (r: Response)
    ensures
        exists|d: bool, idx: Option<Seq<u8>>, lst: Option<Seq<Seq<char>>>, f: Option<Seq<u8>>| {
            let (a, send) = #[trigger] request_answer(root@, request_line@, d, idx, lst, f);
            r.send_body == send && shaped(r, a)
        },
{
    let cs = chars_of(request_line);
    let method = match crate::http::nth_word_exec(cs.as_slice(), 0) {
        Some(m) => string_of(m.as_slice()),
        None => owned("GET"),
    };
    let path = match crate::http::nth_word_exec(cs.as_slice(), 1) {
        Some(p) => string_of(p.as_slice()),
        None => owned("/"),
    };
    let mcs = chars_of(method.as_str());
    if crate::text::eq_lit(mcs.as_slice(), "GET") {
        let r = handle_request(fs, root, path.as_str());
        let ghost (d, idx, lst, f) = choose|d: bool, idx: Option<Seq<u8>>, lst: Option<Seq<Seq<char>>>, f: Option<Seq<u8>>| answers(r, #[trigger] served_answer(root@, path@, d, idx, lst, f));
        assert(request_answer(root@, request_line@, d, idx, lst, f) == (served_answer(root@, path@, d, idx, lst, f), true));
        r
    } else if crate::text::eq_lit(mcs.as_slice(), "HEAD") {
        let full = handle_request(fs, root, path.as_str());
        let ghost (d, idx, lst, f) = choose|d: bool, idx: Option<Seq<u8>>, lst: Option<Seq<Seq<char>>>, f: Option<Seq<u8>>| answers(full, #[trigger] served_answer(root@, path@, d, idx, lst, f));
        let r = full.without_body();
        assert(request_answer(root@, request_line@, d, idx, lst, f) == (served_answer(root@, path@, d, idx, lst, f), false));
        r
    } else if crate::text::eq_lit(mcs.as_slice(), "OPTIONS") {
        let r = Response::options();
        assert(request_answer(root@, request_line@, false, None, None, None) == (Answer::Options, true));
        r
    } else {
        let r = Response::method_not_allowed();
        assert(request_answer(root@, request_line@, false, None, None, None) == (Answer::MethodNotAllowed, true));
        r
    }
}

/// Adds `n` bytes to the header total; more than the limit is an error.
pub fn check_header_size(total: &mut usize, n: usize) -> (r: Result<(), String>)
    requires
        *old(total) + n <= usize::MAX,
    ensures
        *final(total) == *old(total) + n,
        *final(total) <= MAX_HTTP_HEADER_BYTES ==> r is Ok,
        *final(total) > MAX_HTTP_HEADER_BYTES ==> (r matches Err(e) && e@ == "HTTP request headers too large"@),
{
    *total = *total + n;
    if *total > MAX_HTTP_HEADER_BYTES {
        return Err(owned("HTTP request headers too large"));
    }
    Ok(())
}

/// Reads the request line of a plain HTTP request line by line: the first
/// line is the request line, and the header block ends at a line that is
/// just `\r\n` or at the end of input. The lines together may take at most
/// `MAX_HTTP_HEADER_BYTES` bytes.
pub struct RequestReader {
    pub total: usize,
    pub request_line: Option<String>,
}

pub open spec fn opt_view(o: Option<String>) -> Option<Seq<char>> {
    match o {
        Some(s) => Some(s@),
        None => None,
    }
}

impl RequestReader {
    pub fn new() -> (r: RequestReader)
        ensures
            r.total == 0,
            r.request_line is None,
    {
        RequestReader { total: 0, request_line: None }
    }

    /// Takes the next line as read, line ending included (empty at the end
    /// of input). Returns the request line once the header block is over.
    pub fn take_line(&mut self, line: String) -> (r: Result<Option<String>, String>)
        requires
            old(self).total <= MAX_HTTP_HEADER_BYTES,
        ensures
            ({
                let n = vstd::utf8::encode_utf8(line@).len();
                if old(self).total + n > MAX_HTTP_HEADER_BYTES {
                    r matches Err(e) && e@ == "HTTP request headers too large"@
                } else {
                    &&& final(self).total == old(self).total + n
                    &&& match old(self).request_line {
                        None => r matches Ok(None) && opt_view(final(self).request_line) == Some(line@),
                        Some(first) => if line@ == "\r\n"@ || line@.len() == 0 {
                            r matches Ok(Some(x)) && x@ == first@
                        } else {
                            r matches Ok(None) && opt_view(final(self).request_line) == Some(first@)
                        },
                    }
                }
            }),
    {
        let n = line.as_str().as_bytes().len();
        if n > MAX_HTTP_HEADER_BYTES - self.total {
            return Err(owned("HTTP request headers too large"));
        }
        self.total = self.total + n;
        match &self.request_line {
            None => {
                self.request_line = Some(line);
                Ok(None)
            },
            Some(first) => {
                let cs = chars_of(line.as_str());
                if crate::text::eq_lit(cs.as_slice(), "\r\n") || cs.len() == 0 {
                    Ok(Some(first.clone()))
                } else {
                    Ok(None)
                }
            },
        }
    }
}

/// What reading the request line gives from the bytes of a request, from
/// `pos` on, with `total` bytes read so far and the request line `first`
/// once it is read.
pub open spec fn header_read(b: Seq<u8>, pos: int, total: nat, first: Option<Seq<char>>) -> Result<Seq<char>, Seq<char>>
    decreases b.len() - pos,
{
    if pos < 0 || pos >= b.len() {
        if total > MAX_HTTP_HEADER_BYTES {
            Err("HTTP request headers too large"@)
        } else {
            match first {
                None => Ok(seq![]),
                Some(f) => Ok(f),
            }
        }
    } else {
        let e = crate::http::line_end(b, pos);
        let l = b.subrange(pos, e);
        if !vstd::utf8::valid_utf8(l) {
            Err(crate::http::utf8_error())
        } else if total + l.len() > MAX_HTTP_HEADER_BYTES {
            Err("HTTP request headers too large"@)
        } else {
            let text = vstd::utf8::decode_utf8(l);
            proof {
                crate::http::lemma_line_end(b, pos);
            }
            match first {
                None => header_read(b, e, total + l.len(), Some(text)),
                Some(f) => if text == "\r\n"@ {
                    Ok(f)
                } else {
                    header_read(b, e, total + l.len(), first)
                },
            }
        }
    }
}

/// Reads the request line from the bytes of a plain HTTP request.
pub fn read_plain_request_line_sync(request: &[u8]) -> (r: Result<String, String>)
    ensures
        match header_read(request@, 0, 0, None) {
            Ok(l) => r matches Ok(x) && x@ == l,
            Err(m) => r matches Err(e) && e@ == m,
        },
{
    let mut reader = RequestReader::new();
    let mut pos: usize = 0;
    loop
        invariant
            pos <= request@.len(),
            reader.total <= MAX_HTTP_HEADER_BYTES,
            header_read(request@, 0, 0, None) == header_read(request@, pos as int, reader.total as nat, opt_view(reader.request_line)),
        decreases request.len() - pos + (if reader.request_line is None { 1int } else { 0int }),
    {
        let e = if pos < request.len() {
            proof {
                crate::http::lemma_line_end(request@, pos as int);
            }
            crate::http::line_end_exec(request, pos)
        } else {
            pos
        };
        let line = match crate::http::utf8_text(slice_range(request, pos, e)) {
            Some(t) => t,
            None => return Err(owned("stream did not contain valid UTF-8")),
        };
        proof {
            vstd::utf8::encode_utf8_decode_utf8(line@);
            vstd::utf8::decode_utf8_encode_utf8(request@.subrange(pos as int, e as int));
        }
        let was_first = reader.request_line.is_none();
        match reader.take_line(line) {
            Err(m) => return Err(m),
            Ok(Some(l)) => return Ok(l),
            Ok(None) => {},
        }
        if was_first && e == pos {
            let first = match &reader.request_line {
                Some(f) => f.clone(),
                None => String::new(),
            };
            return Ok(first);
        }
        pos = e;
    }
}

/// Whether the bytes hold `\r\n\r\n`, the end of a header block.
pub open spec fn has_blank_line(b: Seq<u8>) -> bool {
    exists|i: int| 0 <= i && i + 4 <= b.len() && #[trigger] b.subrange(i, i + 4) == seq![13u8, 10, 13, 10]
}

/// Takes the next chunk read from a TLS connection into `buf`: an empty
/// chunk (the end of input) ends the header block, more than
/// `MAX_HTTP_HEADER_BYTES` bytes in all are an error, and otherwise the
/// block ends once it holds a blank line.
pub fn absorb_chunk(buf: &mut Vec<u8>, chunk: &[u8]) -> (r: Result<bool, String>)
    ensures
        chunk@.len() == 0 ==> final(buf)@ == old(buf)@ && r == Ok::<bool, String>(true),
        chunk@.len() > 0 ==> final(buf)@ == old(buf)@ + chunk@,
        chunk@.len() > 0 && final(buf)@.len() > MAX_HTTP_HEADER_BYTES ==> (r matches Err(e) && e@ == "HTTP request headers too large"@),
        chunk@.len() > 0 && final(buf)@.len() <= MAX_HTTP_HEADER_BYTES ==> r == Ok::<bool, String>(has_blank_line(final(buf)@)),
{
    if chunk.len() == 0 {
        return Ok(true);
    }
    let mut i: usize = 0;
    let ghost start = buf@;
    while i < chunk.len()
        invariant
            i <= chunk@.len(),
            buf@ == start + chunk@.take(i as int),
        decreases chunk.len() - i,
    {
        buf.push(chunk[i]);
        i = i + 1;
        assert(buf@ =~= start + chunk@.take(i as int));
    }
    assert(chunk@.take(i as int) =~= chunk@);
    if buf.len() > MAX_HTTP_HEADER_BYTES {
        return Err(owned("HTTP request headers too large"));
    }
    let mut k: usize = 0;
    while k + 4 <= buf.len()
        invariant
            buf@.len() <= MAX_HTTP_HEADER_BYTES,
            k <= buf@.len(),
            chunk@.len() > 0,
            buf@ == old(buf)@ + chunk@,
            forall|j: int| 0 <= j < k ==> #[trigger] buf@.subrange(j, j + 4) != seq![13u8, 10, 13, 10],
        decreases buf.len() - k,
    {
        if buf[k] == 13 && buf[k + 1] == 10 && buf[k + 2] == 13 && buf[k + 3] == 10 {
            assert(buf@.subrange(k as int, k + 4) =~= seq![13u8, 10, 13, 10]);
            return Ok(true);
        }
        assert(buf@.subrange(k as int, k + 4)[0] == buf@[k as int]);
        assert(buf@.subrange(k as int, k + 4)[1] == buf@[k + 1]);
        assert(buf@.subrange(k as int, k + 4)[2] == buf@[k + 2]);
        assert(buf@.subrange(k as int, k + 4)[3] == buf@[k + 3]);
        k = k + 1;
    }
    Ok(false)
}

/// The number of trailing characters that are not whitespace.
pub open spec fn word_suffix_len(s: Seq<char>) -> nat
    decreases s.len(),
{
    if s.len() > 0 && !crate::text::is_ws(s.last()) {
        1 + word_suffix_len(s.drop_last())
    } else {
        0
    }
}

/// `split_whitespace().last()`, or empty where there is no word.
pub open spec fn last_word(s: Seq<char>) -> Seq<char> {
    let t = s.take(s.len() - crate::text::ws_suffix_len(s));
    t.skip(t.len() - word_suffix_len(t))
}

proof fn lemma_word_suffix_bound(s: Seq<char>)
    ensures
        word_suffix_len(s) <= s.len(),
    decreases s.len(),
{
    if s.len() > 0 && !crate::text::is_ws(s.last()) {
        lemma_word_suffix_bound(s.drop_last());
    }
}

proof fn lemma_ws_suffix_bound(s: Seq<char>)
    ensures
        crate::text::ws_suffix_len(s) <= s.len(),
    decreases s.len(),
{
    if s.len() > 0 && crate::text::is_ws(s.last()) {
        lemma_ws_suffix_bound(s.drop_last());
    }
}

fn last_word_exec(s: &[char]) -> (r: Vec<char>)
    ensures
        r@ == last_word(s@),
{
    let mut b = s.len();
    assert(s@.take(b as int) =~= s@);
    while b > 0 && crate::text::is_ws_exec(s[b - 1])
        invariant
            b <= s@.len(),
            crate::text::ws_suffix_len(s@) == (s@.len() - b) + crate::text::ws_suffix_len(s@.take(b as int)),
        decreases b,
    {
        assert(s@.take(b as int).drop_last() =~= s@.take(b - 1));
        b = b - 1;
    }
    let ghost t = s@.take(b as int);
    assert(t == s@.take(s@.len() - crate::text::ws_suffix_len(s@)));
    let mut a = b;
    assert(t.take(a as int) =~= t);
    while a > 0 && !crate::text::is_ws_exec(s[a - 1])
        invariant
            a <= b,
            b <= s@.len(),
            t == s@.take(b as int),
            word_suffix_len(t) == (b - a) + word_suffix_len(t.take(a as int)),
        decreases a,
    {
        assert(t.take(a as int).drop_last() =~= t.take(a - 1));
        a = a - 1;
    }
    proof {
        lemma_word_suffix_bound(t);
    }
    assert(t.skip(t.len() - word_suffix_len(t)) =~= s@.subrange(a as int, b as int));
    vstd::slice::slice_to_vec(slice_range(s, a, b))
}

/// The order of addresses: by their octets, first octet first.
pub open spec fn addr_key(x: Ipv4Addr) -> nat {
    (x.a as nat) * 16777216 + (x.b as nat) * 65536 + (x.c as nat) * 256 + (x.d as nat)
}

fn addr_key_exec(x: Ipv4Addr) -> (r: u32)
    ensures
        r == addr_key(x),
{
    (x.a as u32) * 16777216 + (x.b as u32) * 65536 + (x.c as u32) * 256 + (x.d as u32)
}

proof fn lemma_addr_key_injective(x: Ipv4Addr, y: Ipv4Addr)
    requires
        addr_key(x) == addr_key(y),
    ensures
        x == y,
{
    let (xa, xb, xc, xd) = (x.a, x.b, x.c, x.d);
    let (ya, yb, yc, yd) = (y.a, y.b, y.c, y.d);
    assert(xa * 16777216 + xb * 65536 + xc * 256 + xd == ya * 16777216 + yb * 65536 + yc * 256 + yd
        ==> xa == ya && xb == yb && xc == yc && xd == yd) by (bit_vector);
}

/// Strictly increasing in the order of addresses (so without repeats).
pub open spec fn strictly_sorted(v: Seq<Ipv4Addr>) -> bool {
    forall|i: int, j: int| 0 <= i < j < v.len() ==> addr_key(#[trigger] v[i]) < addr_key(#[trigger] v[j])
}

/// Puts `x` into its place in a strictly sorted list, unless it is there.
fn insert_sorted(v: &mut Vec<Ipv4Addr>, x: Ipv4Addr)
    requires
        strictly_sorted(old(v)@),
    ensures
        strictly_sorted(final(v)@),
        forall|y: Ipv4Addr| final(v)@.contains(y) <==> (old(v)@.contains(y) || y == x),
{
    let kx = addr_key_exec(x);
    let mut j: usize = 0;
    while j < v.len() && addr_key_exec(v[j]) < kx
        invariant
            j <= v@.len(),
            strictly_sorted(v@),
            v@ == old(v)@,
            kx == addr_key(x),
            forall|k: int| 0 <= k < j ==> addr_key(#[trigger] v@[k]) < kx,
        decreases v.len() - j,
    {
        j = j + 1;
    }
    if j < v.len() && addr_key_exec(v[j]) == kx {
        proof {
            lemma_addr_key_injective(v@[j as int], x);
        }
        assert(v@[j as int] == x);
        return;
    }
    let ghost before = v@;
    assert(before == old(v)@);
    v.insert(j, x);
    proof {
        assert forall|a: int, b: int| 0 <= a < b < v@.len() implies addr_key(#[trigger] v@[a]) < addr_key(#[trigger] v@[b]) by {
            if b < j {
                assert(v@[a] == before[a] && v@[b] == before[b]);
            } else if b == j {
                assert(v@[a] == before[a]);
            } else if a < j {
                assert(v@[b] == before[b - 1]);
                assert(v@[a] == before[a]);
                if b - 1 > j {
                    assert(addr_key(before[j as int]) < addr_key(before[b - 1]));
                }
            } else if a == j {
                assert(v@[b] == before[b - 1]);
                if b - 1 > j {
                    assert(addr_key(before[j as int]) < addr_key(before[b - 1]));
                }
            } else {
                assert(v@[a] == before[a - 1] && v@[b] == before[b - 1]);
            }
        }
        assert forall|y: Ipv4Addr| #[trigger] v@.contains(y) <==> (before.contains(y) || y == x) by {
            if v@.contains(y) {
                let k = choose|k: int| 0 <= k < v@.len() && v@[k] == y;
                if k < j {
                    assert(before[k] == y);
                } else if k > j {
                    assert(before[k - 1] == y);
                }
            }
            if before.contains(y) {
                let k = choose|k: int| 0 <= k < before.len() && before[k] == y;
                if k < j {
                    assert(v@[k] == y);
                } else {
                    assert(v@[k + 1] == y);
                }
            }
            if y == x {
                assert(v@[j as int] == x);
            }
        }
    }
}

/// Whether an address is one the server lists: not loopback (127.x.x.x),
/// not unspecified (0.0.0.0).
pub open spec fn listed_addr(x: Ipv4Addr) -> bool {
    x.a != 127 && !(x.a == 0 && x.b == 0 && x.c == 0 && x.d == 0)
}

/// Whether a line holds `host LOCAL`.
pub open spec fn mentions_local(l: Seq<char>) -> bool {
    exists|i: int| #[trigger] crate::text::occurs_at(l, "host LOCAL"@, i)
}

/// The local addresses in a routing table dump (`/proc/net/fib_trie`): the
/// last word of each line followed by a line that holds `host LOCAL`, where
/// it is a listed address.
pub open spec fn table_addr(ls: Seq<Seq<char>>, k: int) -> Option<Ipv4Addr> {
    if 0 <= k && k + 1 < ls.len() && mentions_local(ls[k + 1]) {
        match crate::ipv4::parse_ipv4(last_word(ls[k])) {
            Some(x) => if listed_addr(x) {
                Some(x)
            } else {
                None
            },
            None => None,
        }
    } else {
        None
    }
}

/// Reads the local addresses from a routing table dump, sorted and without
/// repeats.
pub fn local_addrs_from(content: &str) -> (r: Vec<Ipv4Addr>)
    ensures
        strictly_sorted(r@),
        forall|x: Ipv4Addr| r@.contains(x) <==> exists|k: int| table_addr(crate::text::lines(content@), k) == Some(x),
{
    let cs = chars_of(content);
    let ls = crate::text::lines_exec(cs.as_slice());
    let ghost lv = crate::text::lines(cs@);
    let pat = chars_of("host LOCAL");
    let mut out: Vec<Ipv4Addr> = Vec::new();
    let mut k: usize = 0;
    while ls.len() > 1 && k < ls.len() - 1
        invariant
            ls@.len() == lv.len(),
            lv == crate::text::lines(content@),
            forall|j: int| 0 <= j < ls@.len() ==> #[trigger] ls@[j]@ == lv[j],
            pat@ == "host LOCAL"@,
            strictly_sorted(out@),
            forall|x: Ipv4Addr| out@.contains(x) <==> exists|j: int| 0 <= j < k && table_addr(lv, j) == Some(x),
        decreases ls.len() - k,
    {
        let ghost before = out@;
        let found = crate::text::find_sub(ls[k + 1].as_slice(), pat.as_slice());
        assert(ls@[k + 1]@ == lv[k + 1]);
        assert(ls@[k as int]@ == lv[k as int]);
        let mut added: Option<Ipv4Addr> = None;
        if found.is_some() {
            let w = last_word_exec(ls[k].as_slice());
            match crate::ipv4::parse_ipv4_exec(w.as_slice()) {
                Some(x) => {
                    if x.a != 127 && !(x.a == 0 && x.b == 0 && x.c == 0 && x.d == 0) {
                        insert_sorted(&mut out, x);
                        added = Some(x);
                    }
                },
                None => {},
            }
        }
        proof {
            if found is None {
                assert(!mentions_local(lv[k + 1])) by {
                    if mentions_local(lv[k + 1]) {
                        let i = choose|i: int| #[trigger] crate::text::occurs_at(lv[k + 1], "host LOCAL"@, i);
                        assert(i <= lv[k + 1].len());
                    }
                }
            } else {
                let i = found->0;
                assert(crate::text::occurs_at(lv[k + 1], "host LOCAL"@, i as int));
            }
            assert(table_addr(lv, k as int) == added);
            assert forall|x: Ipv4Addr| out@.contains(x) <==> exists|j: int| 0 <= j < k + 1 && table_addr(lv, j) == Some(x) by {
                if out@.contains(x) {
                    if before.contains(x) {
                        let j = choose|j: int| 0 <= j < k && table_addr(lv, j) == Some(x);
                        assert(0 <= j < k + 1 && table_addr(lv, j) == Some(x));
                    } else {
                        assert(table_addr(lv, k as int) == Some(x));
                    }
                }
                if exists|j: int| 0 <= j < k + 1 && table_addr(lv, j) == Some(x) {
                    let j = choose|j: int| 0 <= j < k + 1 && table_addr(lv, j) == Some(x);
                    if j < k {
                        assert(before.contains(x));
                    }
                }
            }
        }
        k = k + 1;
    }
    proof {
        assert forall|x: Ipv4Addr| out@.contains(x) <==> exists|j: int| table_addr(lv, j) == Some(x) by {
            if exists|j: int| table_addr(lv, j) == Some(x) {
                let j = choose|j: int| table_addr(lv, j) == Some(x);
                assert(0 <= j < k);
            }
        }
    }
    out
}

/// The lines printed before serving: the directory, then the URLs the
/// server answers on (localhost, then each address), and a blank line.
pub open spec fn banner(dir: Seq<char>, port: u16, tls: bool, addrs: Seq<Ipv4Addr>) -> Seq<char>
    decreases addrs.len(),
{
    if addrs.len() == 0 {
        "Serving "@ + dir + "\n"@ + "  "@ + (if tls { "https"@ } else { "http"@ }) + "://localhost:"@
            + dec(port as nat) + "\n"@
    } else {
        banner(dir, port, tls, addrs.drop_last()) + "  "@ + (if tls { "https"@ } else { "http"@ })
            + "://"@ + addrs.last().text() + seq![':'] + dec(port as nat) + "\n"@
    }
}

/// Reads `<dir> [port] [--tls]` and prints where the files will be served;
/// returns the directory, port and TLS flag to serve with. `addrs` are the
/// machine's local addresses.
pub fn run(out: &mut String, args: &[String], addrs: &[Ipv4Addr]) -> (r: Result<(String, u16, bool), String>)
    ensures
        match server_args(views(args@)) {
            Ok((d, p, t)) => (r matches Ok((dd, pp, tt)) && dd@ == d && pp == p && tt == t)
                && final(out)@ == old(out)@ + banner(d, p, t, addrs@) + "\n"@,
            Err(m) => (r matches Err(e) && e@ == m) && final(out)@ == old(out)@,
        },
{
    let (dir, port, tls) = parse_args(args)?;
    out.append("Serving ");
    out.append(dir.as_str());
    out.append("\n");
    out.append("  ");
    if tls {
        out.append("https");
    } else {
        out.append("http");
    }
    out.append("://localhost:");
    push_dec(out, port as u64);
    out.append("\n");
    let mut i: usize = 0;
    assert(addrs@.take(0) =~= Seq::<Ipv4Addr>::empty());
    assert(out@ =~= old(out)@ + banner(dir@, port, tls, addrs@.take(0)));
    while i < addrs.len()
        invariant
            i <= addrs@.len(),
            out@ == old(out)@ + banner(dir@, port, tls, addrs@.take(i as int)),
        decreases addrs.len() - i,
    {
        assert(addrs@.take(i + 1).drop_last() =~= addrs@.take(i as int));
        out.append("  ");
        if tls {
            out.append("https");
        } else {
            out.append("http");
        }
        out.append("://");
        addrs[i].push_text(out);
        push_char(out, ':');
        push_dec(out, port as u64);
        out.append("\n");
        i = i + 1;
        assert(out@ =~= old(out)@ + banner(dir@, port, tls, addrs@.take(i as int)));
    }
    assert(addrs@.take(i as int) =~= addrs@);
    out.append("\n");
    Ok((dir, port, tls))
}


proof fn lemma_extension_after_dot(base: Seq<char>, ext: Seq<char>)
    requires
        forall|j: int| 0 <= j < ext.len() ==> ext[j] != '.',
    ensures
        extension(base + seq!['.'] + ext) == ext,
{
    let p = base + seq!['.'] + ext;
    crate::text::lemma_last_index(p, '.', base.len() as int);
    assert(p.skip(base.len() + 1int) =~= ext);
}

/// A file is served with the content type of its extension, the text
/// after its last `.`, whatever comes before it: `.html` and `.htm` as
/// `text/html`, `.css` as `text/css`, `.js` as `text/javascript`, `.json`
/// as `application/json`, `.png` as `image/png`, `.jpg` and `.jpeg` as
/// `image/jpeg`, `.gif` as `image/gif`, `.svg` as `image/svg+xml`, `.txt`
/// as `text/plain`, `.pdf` as `application/pdf`, and any other extension
/// as `application/octet-stream`.
pub proof fn law_content_type_by_extension(base: Seq<char>, ext: Seq<char>)
    requires
        forall|j: int| 0 <= j < ext.len() ==> ext[j] != '.',
    ensures
        ({
            let m = mime_of(extension(base + "."@ + ext));
            &&& ext == "html"@ ==> m == "text/html"@
            &&& ext == "htm"@ ==> m == "text/html"@
            &&& ext == "css"@ ==> m == "text/css"@
            &&& ext == "js"@ ==> m == "text/javascript"@
            &&& ext == "json"@ ==> m == "application/json"@
            &&& ext == "png"@ ==> m == "image/png"@
            &&& ext == "jpg"@ ==> m == "image/jpeg"@
            &&& ext == "jpeg"@ ==> m == "image/jpeg"@
            &&& ext == "gif"@ ==> m == "image/gif"@
            &&& ext == "svg"@ ==> m == "image/svg+xml"@
            &&& ext == "txt"@ ==> m == "text/plain"@
            &&& ext == "pdf"@ ==> m == "application/pdf"@
            &&& (ext != "html"@ && ext != "htm"@ && ext != "css"@ && ext != "js"@ && ext != "json"@ && ext != "png"@
                && ext != "jpg"@ && ext != "jpeg"@ && ext != "gif"@ && ext != "svg"@ && ext != "txt"@ && ext != "pdf"@)
                ==> m == "application/octet-stream"@
        }),
{
    assert("."@ == seq!['.']) by {
        reveal_strlit(".");
    }
    lemma_extension_after_dot(base, ext);
    reveal_strlit("html");
    reveal_strlit("htm");
    reveal_strlit("css");
    reveal_strlit("js");
    reveal_strlit("json");
    reveal_strlit("png");
    reveal_strlit("jpg");
    reveal_strlit("jpeg");
    reveal_strlit("gif");
    reveal_strlit("svg");
    reveal_strlit("txt");
    reveal_strlit("pdf");
    assert(extension(base + "."@ + ext) == ext);
    if ext == "css"@ {
        assert("css"@[0] != "htm"@[0]);
    }
    if ext == "json"@ {
        assert("json"@[0] != "html"@[0]);
    }
    if ext == "png"@ {
        assert("png"@[0] != "htm"@[0]);
        assert("png"@[0] != "css"@[0]);
    }
    if ext == "jpg"@ {
        assert("jpg"@[0] != "htm"@[0]);
        assert("jpg"@[0] != "css"@[0]);
        assert("jpg"@[0] != "png"@[0]);
    }
    if ext == "jpeg"@ {
        assert("jpeg"@[0] != "html"@[0]);
        assert("jpeg"@[1] != "json"@[1]);
    }
    if ext == "gif"@ {
        assert("gif"@[0] != "htm"@[0]);
        assert("gif"@[0] != "css"@[0]);
        assert("gif"@[0] != "png"@[0]);
        assert("gif"@[0] != "jpg"@[0]);
    }
    if ext == "svg"@ {
        assert("svg"@[0] != "htm"@[0]);
        assert("svg"@[0] != "css"@[0]);
        assert("svg"@[0] != "png"@[0]);
        assert("svg"@[0] != "jpg"@[0]);
        assert("svg"@[0] != "gif"@[0]);
    }
    if ext == "txt"@ {
        assert("txt"@[0] != "htm"@[0]);
        assert("txt"@[0] != "css"@[0]);
        assert("txt"@[0] != "png"@[0]);
        assert("txt"@[0] != "jpg"@[0]);
        assert("txt"@[0] != "gif"@[0]);
        assert("txt"@[0] != "svg"@[0]);
    }
    if ext == "pdf"@ {
        assert("pdf"@[0] != "htm"@[0]);
        assert("pdf"@[0] != "css"@[0]);
        assert("pdf"@[1] != "png"@[1]);
        assert("pdf"@[0] != "jpg"@[0]);
        assert("pdf"@[0] != "gif"@[0]);
        assert("pdf"@[0] != "svg"@[0]);
        assert("pdf"@[0] != "txt"@[0]);
    }
}

} // verus!

use vstd::prelude::*;

use crate::ipv4::Ipv4Addr;
use crate::text::{
    chars_of, dec, join, owned, push_char, push_dec, push_join, slice_range, split_char, split_exec,
    string_of, views,
};

verus! {

/// What `String::from_utf8_lossy` makes of some bytes.
pub uninterp spec fn lossy_utf8(b: Seq<u8>) -> Seq<char>;

/// Decodes bytes as UTF-8, putting U+FFFD in place of each invalid sequence
/// (`String::from_utf8_lossy`). The contract claims that the result depends
/// on the bytes alone, and that valid UTF-8 is decoded as it is.
#[verifier::external_body]
pub(crate) fn utf8_lossy(b: &[u8]) -> (r: String)
    ensures
        r@ == lossy_utf8(b@),
        vstd::utf8::valid_utf8(b@) ==> r@ == vstd::utf8::decode_utf8(b@),
{
    String::from_utf8_lossy(b).into_owned()
}

/// The big-endian 16-bit number at `pos`.
pub open spec fn be16(b: Seq<u8>, pos: int) -> nat {
    (b[pos] as nat) * 256 + (b[pos + 1] as nat)
}

/// The two bytes of `v`, most significant first.
pub open spec fn be_bytes(v: u16) -> Seq<u8> {
    seq![(v / 256) as u8, (v % 256) as u8]
}

/// Reads the big-endian 16-bit number at `pos`.
pub fn read_u16(buf: &[u8], pos: usize) -> (r: Result<u16, String>)
    ensures
        pos + 2 <= buf@.len() ==> (r matches Ok(v) && v == be16(buf@, pos as int)),
        pos + 2 > buf@.len() ==> (r matches Err(e) && e@ == "truncated DNS response"@),
{
    if pos >= buf.len() || buf.len() - pos < 2 {
        return Err(owned("truncated DNS response"));
    }
    let hi = buf[pos] as u16;
    let lo = buf[pos + 1] as u16;
    Ok(hi * 256 + lo)
}

/// The position after the name that starts at `pos`, without following
/// compression pointers; `None` where the name runs past the end.
pub open spec fn skip_name_spec(b: Seq<u8>, pos: int) -> Option<int>
    decreases b.len() - pos,
{
    if pos < 0 || pos >= b.len() {
        None
    } else if b[pos] == 0 {
        Some(pos + 1)
    } else if b[pos] >= 192 {
        Some(pos + 2)
    } else if pos + 1 + b[pos] >= b.len() {
        None
    } else {
        skip_name_spec(b, pos + 1 + b[pos])
    }
}

pub fn skip_name(buf: &[u8], pos: usize) -> (r: Option<usize>)
    requires
        buf@.len() <= isize::MAX,
    ensures
        match skip_name_spec(buf@, pos as int) {
            Some(p) => r matches Some(x) && x == p && p <= buf@.len() + 1,
            None => r is None,
        },
{
    let mut cur = pos;
    loop
        invariant
            buf@.len() <= isize::MAX,
            skip_name_spec(buf@, cur as int) == skip_name_spec(buf@, pos as int),
        decreases buf.len() - cur,
    {
        if cur >= buf.len() {
            return None;
        }
        let len = buf[cur] as usize;
        if len == 0 {
            return Some(cur + 1);
        } else if len >= 192 {
            return Some(cur + 2);
        }
        if len >= buf.len() - cur - 1 {
            return None;
        }
        cur = cur + 1 + len;
    }
}

/// Where the walk over a possibly compressed name ends.
pub enum NameWalk {
    /// The labels read, and the position after the name field itself.
    Done(Seq<Seq<u8>>, int),
    /// The name runs past the end of the message.
    Fail(Seq<char>),
    /// The compression pointers go round in a loop: the walk never ends.
    Cycle,
}

/// The offset that a compression pointer `hi lo` points to.
pub open spec fn pointer_target(hi: u8, lo: u8) -> int {
    ((hi as int) - 192) * 256 + (lo as int)
}

/// The walk over the name at `cur`, with room for `fuel` more steps.
pub open spec fn name_walk(b: Seq<u8>, cur: int, fuel: nat) -> NameWalk
    decreases fuel,
{
    if fuel == 0 {
        NameWalk::Cycle
    } else if cur < 0 || cur >= b.len() {
        NameWalk::Fail("truncated name"@)
    } else if b[cur] == 0 {
        NameWalk::Done(seq![], cur + 1)
    } else if b[cur] >= 192 {
        if cur + 1 >= b.len() {
            NameWalk::Fail("truncated pointer"@)
        } else {
            match name_walk(b, pointer_target(b[cur], b[cur + 1]), (fuel - 1) as nat) {
                NameWalk::Done(ls, _) => NameWalk::Done(ls, cur + 2),
                other => other,
            }
        }
    } else if cur + 1 + b[cur] > b.len() {
        NameWalk::Fail("truncated label"@)
    } else {
        match name_walk(b, cur + 1 + b[cur], (fuel - 1) as nat) {
            NameWalk::Done(ls, e) => NameWalk::Done(seq![b.subrange(cur + 1, cur + 1 + b[cur])] + ls, e),
            other => other,
        }
    }
}

/// The walk over the name at `pos`. Each step reads a byte at a position it
/// has not read before unless the pointers loop, so a walk that ends takes at
/// most one step more than the message has bytes.
pub open spec fn walk_name(b: Seq<u8>, pos: int) -> NameWalk {
    name_walk(b, pos, (b.len() + 1) as nat)
}

/// Each label decoded.
pub open spec fn decoded(ls: Seq<Seq<u8>>) -> Seq<Seq<char>> {
    ls.map_values(|l: Seq<u8>| lossy_utf8(l))
}

proof fn lemma_decoded_push(ls: Seq<Seq<u8>>, l: Seq<u8>)
    ensures
        decoded(ls.push(l)) == decoded(ls).push(lossy_utf8(l)),
{
    assert(decoded(ls.push(l)) =~= decoded(ls).push(lossy_utf8(l)));
}

/// The text of a name: its labels, each decoded, joined by dots.
pub open spec fn name_text(ls: Seq<Seq<u8>>) -> Seq<char> {
    join(decoded(ls), "."@)
}

/// The walk `w` that follows the labels `ls` already read; `end` is the end
/// of the name field where a pointer was already followed.
pub open spec fn walk_after(ls: Seq<Seq<u8>>, end: Option<int>, w: NameWalk) -> NameWalk {
    match w {
        NameWalk::Done(rest, e) => NameWalk::Done(
            ls + rest,
            match end {
                Some(x) => x,
                None => e,
            },
        ),
        other => other,
    }
}

pub open spec fn opt_int(o: Option<usize>) -> Option<int> {
    match o {
        Some(x) => Some(x as int),
        None => None,
    }
}

proof fn lemma_walk_after_label(ls: Seq<Seq<u8>>, end: Option<int>, l: Seq<u8>, w: NameWalk)
    ensures
        walk_after(
            ls,
            end,
            match w {
                NameWalk::Done(rest, e) => NameWalk::Done(seq![l] + rest, e),
                other => other,
            },
        ) == walk_after(ls.push(l), end, w),
{
    if let NameWalk::Done(rest, e) = w {
        assert(ls + (seq![l] + rest) =~= ls.push(l) + rest);
    }
}

/// The error for a name whose compression pointers go round in a loop.
pub open spec fn loop_error() -> Seq<char> {
    "DNS name compression loop"@
}

/// Reads the name at `pos`, following compression pointers; returns its text
/// and the position after the name field (not after a pointer's target).
/// Pointers that loop are an error.
pub fn read_name(buf: &[u8], pos: usize) -> (r: Result<(String, usize), String>)
    requires
        buf@.len() <= isize::MAX,
    ensures
        match walk_name(buf@, pos as int) {
            NameWalk::Done(ls, e) => r matches Ok((s, p)) && s@ == name_text(ls) && p == e,
            NameWalk::Fail(m) => r matches Err(x) && x@ == m,
            NameWalk::Cycle => r matches Err(x) && x@ == loop_error(),
        },
{
    let ghost mut ls: Seq<Seq<u8>> = seq![];
    let mut labels: Vec<String> = Vec::new();
    let mut end: Option<usize> = None;
    let mut cur = pos;
    let mut left: usize = buf.len();
    loop
        invariant
            buf@.len() <= isize::MAX,
            left <= buf@.len(),
            walk_name(buf@, pos as int) == walk_after(ls, opt_int(end), name_walk(buf@, cur as int, (left + 1) as nat)),
            views(labels@) == decoded(ls),
        decreases left,
    {
        if cur >= buf.len() {
            return Err(owned("truncated name"));
        }
        let len = buf[cur];
        if len == 0 {
            let e = match end {
                Some(e) => e,
                None => cur + 1,
            };
            let mut s = String::new();
            push_join(&mut s, labels.as_slice(), ".");
            assert(ls + seq![] =~= ls);
            return Ok((s, e));
        } else if len >= 192 {
            if cur + 1 >= buf.len() {
                return Err(owned("truncated pointer"));
            }
            let target = (len as usize - 192) * 256 + buf[cur + 1] as usize;
            if end.is_none() {
                end = Some(cur + 2);
            }
            if left == 0 {
                assert(name_walk(buf@, target as int, 0) is Cycle);
                return Err(owned("DNS name compression loop"));
            }
            cur = target;
            left = left - 1;
        } else {
            let n = len as usize;
            if n > buf.len() - cur - 1 {
                return Err(owned("truncated label"));
            }
            let ghost l = buf@.subrange(cur + 1, cur + 1 + n);
            let bytes = crate::text::slice_range(buf, cur + 1, cur + 1 + n);
            let label = utf8_lossy(bytes);
            proof {
                lemma_walk_after_label(ls, opt_int(end), l, name_walk(buf@, cur + 1 + n, left as nat));
            }
            let ghost before = labels@;
            labels.push(label);
            proof {
                lemma_decoded_push(ls, l);
                assert(views(labels@) =~= views(before).push(label@));
                ls = ls.push(l);
            }
            if left == 0 {
                assert(name_walk(buf@, cur + 1 + n, 0) is Cycle);
                return Err(owned("DNS name compression loop"));
            }
            cur = cur + 1 + n;
            left = left - 1;
        }
    }
}

/// The position after `n` questions from `pos`; `None` where one of their
/// names runs past the end.
pub open spec fn skip_questions_spec(b: Seq<u8>, pos: int, n: nat) -> Option<int>
    decreases n,
{
    if n == 0 {
        Some(pos)
    } else {
        match skip_name_spec(b, pos) {
            None => None,
            Some(p) => skip_questions_spec(b, p + 4, (n - 1) as nat),
        }
    }
}

/// What the record handler makes of one answer.
pub enum Step<T> {
    /// The answer is not of the kind asked for.
    Skip,
    Take(T),
    Fail(Seq<char>),
    /// Reading the answer would never end.
    Hang,
}

/// What parsing a response gives.
pub enum Parsed<T> {
    Done(T),
    Fail(Seq<char>),
    /// Parsing would never end.
    Hang,
}

/// The answer header at `pos`: the position of its data, its type and the
/// length of its data.
pub open spec fn answer_header(b: Seq<u8>, pos: int) -> Result<(int, nat, nat), Seq<char>> {
    match skip_name_spec(b, pos) {
        None => Err("malformed answer"@),
        Some(p) => if p + 10 > b.len() {
            Err("truncated answer"@)
        } else if p + 10 + be16(b, p + 8) > b.len() {
            Err("truncated rdata"@)
        } else {
            Ok((p + 10, be16(b, p), be16(b, p + 8)))
        },
    }
}

/// Walks `left` more answers from `pos`, collecting into `acc` what `step`
/// takes from each.
pub open spec fn answers<T>(
    b: Seq<u8>,
    pos: int,
    left: nat,
    acc: Seq<T>,
    step: spec_fn(int, nat, nat) -> Step<T>,
) -> Parsed<Seq<T>>
    decreases left,
{
    if left == 0 {
        Parsed::Done(acc)
    } else {
        match answer_header(b, pos) {
            Err(m) => Parsed::Fail(m),
            Ok((q, t, l)) => match step(q, t, l) {
                Step::Skip => answers(b, q + l, (left - 1) as nat, acc, step),
                Step::Take(x) => answers(b, q + l, (left - 1) as nat, acc.push(x), step),
                Step::Fail(m) => Parsed::Fail(m),
                Step::Hang => Parsed::Hang,
            },
        }
    }
}

/// The records that `step` takes from the answers of a response.
pub open spec fn records<T>(b: Seq<u8>, step: spec_fn(int, nat, nat) -> Step<T>) -> Parsed<Seq<T>> {
    if b.len() < 8 {
        Parsed::Fail("truncated DNS response"@)
    } else {
        match skip_questions_spec(b, 12, be16(b, 4)) {
            None => Parsed::Fail("malformed question"@),
            Some(p) => answers(b, p, be16(b, 6), seq![], step),
        }
    }
}

/// Reads the answer count and skips the questions.
fn answer_start(buf: &[u8]) -> (r: Result<(usize, usize), String>)
    requires
        buf@.len() <= isize::MAX,
    ensures
        buf@.len() < 8 ==> (r matches Err(e) && e@ == "truncated DNS response"@),
        buf@.len() >= 8 ==> match skip_questions_spec(buf@, 12, be16(buf@, 4)) {
            None => r matches Err(e) && e@ == "malformed question"@,
            Some(p) => r matches Ok((an, pos)) && an == be16(buf@, 6) && pos == p && pos <= buf@.len() + 5,
        },
{
    let qdcount = read_u16(buf, 4)? as usize;
    let ancount = read_u16(buf, 6)? as usize;
    let mut pos: usize = 12;
    let mut i: usize = 0;
    while i < qdcount
        invariant
            buf@.len() <= isize::MAX,
            buf@.len() >= 8,
            i <= qdcount,
            qdcount == be16(buf@, 4),
            pos <= buf@.len() + 5,
            skip_questions_spec(buf@, 12, be16(buf@, 4)) == skip_questions_spec(buf@, pos as int, (qdcount - i) as nat),
        decreases qdcount - i,
    {
        pos = match skip_name(buf, pos) {
            Some(p) => p,
            None => return Err(owned("malformed question")),
        };
        pos = pos + 4;
        i = i + 1;
    }
    Ok((ancount, pos))
}

/// Reads the header of the answer at `pos`.
fn next_answer(buf: &[u8], pos: usize) -> (r: Result<(usize, u16, usize), String>)
    requires
        buf@.len() <= isize::MAX,
    ensures
        match answer_header(buf@, pos as int) {
            Err(m) => r matches Err(e) && e@ == m,
            Ok((q, t, l)) => r matches Ok((qq, tt, ll)) && qq == q && tt == t && ll == l,
        },
{
    let p = match skip_name(buf, pos) {
        Some(p) => p,
        None => return Err(owned("malformed answer")),
    };
    if p > buf.len() || buf.len() - p < 10 {
        return Err(owned("truncated answer"));
    }
    let rtype = read_u16(buf, p)?;
    let rdlen = read_u16(buf, p + 8)? as usize;
    let q = p + 10;
    if rdlen > buf.len() - q {
        return Err(owned("truncated rdata"));
    }
    Ok((q, rtype, rdlen))
}

pub open spec fn a_step(b: Seq<u8>, q: int, t: nat, l: nat) -> Step<Ipv4Addr> {
    if t == 1 && l == 4 {
        Step::Take(Ipv4Addr { a: b[q], b: b[q + 1], c: b[q + 2], d: b[q + 3] })
    } else {
        Step::Skip
    }
}

pub open spec fn a_steps(b: Seq<u8>) -> spec_fn(int, nat, nat) -> Step<Ipv4Addr> {
    |q: int, t: nat, l: nat| a_step(b, q, t, l)
}

/// The A records (type 1, four bytes of data) of a response.
pub fn parse_a_records(buf: &[u8]) -> (r: Result<Vec<Ipv4Addr>, String>)
    requires
        buf@.len() <= isize::MAX,
    ensures
        match records(buf@, a_steps(buf@)) {
            Parsed::Done(v) => r matches Ok(x) && x@ == v,
            Parsed::Fail(m) => r matches Err(e) && e@ == m,
            Parsed::Hang => r matches Err(e) && e@ == loop_error(),
        },
{
    let (ancount, mut pos) = answer_start(buf)?;
    let mut addrs: Vec<Ipv4Addr> = Vec::new();
    let mut i: usize = 0;
    while i < ancount
        invariant
            buf@.len() <= isize::MAX,
            i <= ancount,
            records(buf@, a_steps(buf@)) == answers(buf@, pos as int, (ancount - i) as nat, addrs@, a_steps(buf@)),
        decreases ancount - i,
    {
        let (q, rtype, rdlen) = next_answer(buf, pos)?;
        if rtype == 1 && rdlen == 4 {
            addrs.push(Ipv4Addr::new(buf[q], buf[q + 1], buf[q + 2], buf[q + 3]));
        }
        pos = q + rdlen;
        i = i + 1;
    }
    Ok(addrs)
}

/// A copy of some bytes.
pub fn copy_bytes(s: &[u8]) -> (r: Vec<u8>)
    ensures
        r@ == s@,
{
    let mut v: Vec<u8> = Vec::new();
    let mut i: usize = 0;
    while i < s.len()
        invariant
            i <= s@.len(),
            v@ == s@.take(i as int),
        decreases s.len() - i,
    {
        v.push(s[i]);
        i = i + 1;
        assert(v@ =~= s@.take(i as int));
    }
    assert(s@.take(i as int) =~= s@);
    v
}

pub open spec fn byte_views(v: Seq<Vec<u8>>) -> Seq<Seq<u8>> {
    v.map_values(|x: Vec<u8>| x@)
}

pub open spec fn aaaa_step(b: Seq<u8>, q: int, t: nat, l: nat) -> Step<Seq<u8>> {
    if t == 28 && l == 16 {
        Step::Take(b.subrange(q, q + 16))
    } else {
        Step::Skip
    }
}

pub open spec fn aaaa_steps(b: Seq<u8>) -> spec_fn(int, nat, nat) -> Step<Seq<u8>> {
    |q: int, t: nat, l: nat| aaaa_step(b, q, t, l)
}

/// The sixteen address bytes of each AAAA record (type 28) of a response.
pub fn parse_aaaa_records(buf: &[u8]) -> (r: Result<Vec<Vec<u8>>, String>)
    requires
        buf@.len() <= isize::MAX,
    ensures
        match records(buf@, aaaa_steps(buf@)) {
            Parsed::Done(v) => r matches Ok(x) && byte_views(x@) == v,
            Parsed::Fail(m) => r matches Err(e) && e@ == m,
            Parsed::Hang => r matches Err(e) && e@ == loop_error(),
        },
{
    let (ancount, mut pos) = answer_start(buf)?;
    let mut addrs: Vec<Vec<u8>> = Vec::new();
    assert(byte_views(addrs@) =~= Seq::<Seq<u8>>::empty());
    let mut i: usize = 0;
    while i < ancount
        invariant
            buf@.len() <= isize::MAX,
            i <= ancount,
            records(buf@, aaaa_steps(buf@)) == answers(buf@, pos as int, (ancount - i) as nat, byte_views(addrs@), aaaa_steps(buf@)),
        decreases ancount - i,
    {
        let (q, rtype, rdlen) = next_answer(buf, pos)?;
        if rtype == 28 && rdlen == 16 {
            let a = copy_bytes(crate::text::slice_range(buf, q, q + 16));
            let ghost before = addrs@;
            addrs.push(a);
            assert(byte_views(addrs@) =~= byte_views(before).push(a@));
        }
        pos = q + rdlen;
        i = i + 1;
    }
    Ok(addrs)
}

/// The text of TXT data from `cur` to `end`: each length-prefixed string
/// decoded, appended to `acc`.
pub open spec fn txt_text(b: Seq<u8>, cur: int, end: int, acc: Seq<char>) -> Result<Seq<char>, Seq<char>>
    decreases b.len() - cur,
{
    if cur >= end {
        Ok(acc)
    } else if cur < 0 || cur >= b.len() {
        Err("truncated TXT"@)
    } else if cur + 1 + b[cur] > b.len() {
        Err("truncated TXT data"@)
    } else {
        txt_text(b, cur + 1 + b[cur], end, acc + lossy_utf8(b.subrange(cur + 1, cur + 1 + b[cur])))
    }
}

pub open spec fn txt_step(b: Seq<u8>, q: int, t: nat, l: nat) -> Step<Seq<char>> {
    if t == 16 {
        match txt_text(b, q, q + l, seq![]) {
            Ok(x) => Step::Take(x),
            Err(m) => Step::Fail(m),
        }
    } else {
        Step::Skip
    }
}

pub open spec fn txt_steps(b: Seq<u8>) -> spec_fn(int, nat, nat) -> Step<Seq<char>> {
    |q: int, t: nat, l: nat| txt_step(b, q, t, l)
}

/// Decodes the TXT data from `start` to `end`.
fn read_txt(buf: &[u8], start: usize, end: usize) -> (r: Result<String, String>)
    requires
        buf@.len() <= isize::MAX,
        start <= end <= buf@.len(),
    ensures
        match txt_text(buf@, start as int, end as int, seq![]) {
            Ok(x) => r matches Ok(s) && s@ == x,
            Err(m) => r matches Err(e) && e@ == m,
        },
{
    let mut txt = String::new();
    let mut cur = start;
    while cur < end
        invariant
            buf@.len() <= isize::MAX,
            start <= cur,
            end <= buf@.len(),
            txt_text(buf@, start as int, end as int, seq![]) == txt_text(buf@, cur as int, end as int, txt@),
        decreases buf.len() - cur,
    {
        let len = buf[cur] as usize;
        let next = cur + 1;
        if len > buf.len() - next {
            return Err(owned("truncated TXT data"));
        }
        let part = utf8_lossy(crate::text::slice_range(buf, next, next + len));
        txt.append(part.as_str());
        cur = next + len;
    }
    Ok(txt)
}

/// The text of each TXT record (type 16) of a response.
pub fn parse_txt_records(buf: &[u8]) -> (r: Result<Vec<String>, String>)
    requires
        buf@.len() <= isize::MAX,
    ensures
        match records(buf@, txt_steps(buf@)) {
            Parsed::Done(v) => r matches Ok(x) && views(x@) == v,
            Parsed::Fail(m) => r matches Err(e) && e@ == m,
            Parsed::Hang => r matches Err(e) && e@ == loop_error(),
        },
{
    let (ancount, mut pos) = answer_start(buf)?;
    let mut out: Vec<String> = Vec::new();
    assert(views(out@) =~= Seq::<Seq<char>>::empty());
    let mut i: usize = 0;
    while i < ancount
        invariant
            buf@.len() <= isize::MAX,
            i <= ancount,
            records(buf@, txt_steps(buf@)) == answers(buf@, pos as int, (ancount - i) as nat, views(out@), txt_steps(buf@)),
        decreases ancount - i,
    {
        let (q, rtype, rdlen) = next_answer(buf, pos)?;
        if rtype == 16 {
            let t = read_txt(buf, q, q + rdlen)?;
            let ghost before = out@;
            out.push(t);
            assert(views(out@) =~= views(before).push(t@));
        }
        pos = q + rdlen;
        i = i + 1;
    }
    Ok(out)
}

pub open spec fn mx_step(b: Seq<u8>, q: int, t: nat, l: nat) -> Step<Seq<char>> {
    if t == 15 {
        if q + 2 > b.len() {
            Step::Fail("truncated DNS response"@)
        } else {
            match walk_name(b, q + 2) {
                NameWalk::Done(ls, _) => Step::Take(dec(be16(b, q)) + " "@ + name_text(ls)),
                NameWalk::Fail(m) => Step::Fail(m),
                NameWalk::Cycle => Step::Hang,
            }
        }
    } else {
        Step::Skip
    }
}

pub open spec fn mx_steps(b: Seq<u8>) -> spec_fn(int, nat, nat) -> Step<Seq<char>> {
    |q: int, t: nat, l: nat| mx_step(b, q, t, l)
}

/// Each MX record (type 15) of a response as `preference exchange`. A name
/// whose compression pointers loop is an error.
pub fn parse_mx_records(buf: &[u8]) -> (r: Result<Vec<String>, String>)
    requires
        buf@.len() <= isize::MAX,
    ensures
        match records(buf@, mx_steps(buf@)) {
            Parsed::Done(v) => r matches Ok(x) && views(x@) == v,
            Parsed::Fail(m) => r matches Err(e) && e@ == m,
            Parsed::Hang => r matches Err(e) && e@ == loop_error(),
        },
{
    let (ancount, mut pos) = answer_start(buf)?;
    let mut out: Vec<String> = Vec::new();
    assert(views(out@) =~= Seq::<Seq<char>>::empty());
    let mut i: usize = 0;
    while i < ancount
        invariant
            buf@.len() <= isize::MAX,
            i <= ancount,
            records(buf@, mx_steps(buf@)) == answers(buf@, pos as int, (ancount - i) as nat, views(out@), mx_steps(buf@)),
        decreases ancount - i,
    {
        let (q, rtype, rdlen) = next_answer(buf, pos)?;
        if rtype == 15 {
            let pref = read_u16(buf, q)?;
            let (exchange, _) = read_name(buf, q + 2)?;
            let mut line = String::new();
            push_dec(&mut line, pref as u64);
            line.append(" ");
            line.append(exchange.as_str());
            let ghost before = out@;
            out.push(line);
            assert(views(out@) =~= views(before).push(line@));
        }
        pos = q + rdlen;
        i = i + 1;
    }
    Ok(out)
}

pub open spec fn name_step(b: Seq<u8>, want: u16, q: int, t: nat, l: nat) -> Step<Seq<char>> {
    if t == want {
        match walk_name(b, q) {
            NameWalk::Done(ls, _) => Step::Take(name_text(ls)),
            NameWalk::Fail(m) => Step::Fail(m),
            NameWalk::Cycle => Step::Hang,
        }
    } else {
        Step::Skip
    }
}

pub open spec fn name_steps(b: Seq<u8>, want: u16) -> spec_fn(int, nat, nat) -> Step<Seq<char>> {
    |q: int, t: nat, l: nat| name_step(b, want, q, t, l)
}

/// The name held by each record of type `expected_type` (NS is 2, CNAME is
/// 5, PTR is 12) of a response. A name whose compression pointers loop is
/// an error.
pub fn parse_name_records(buf: &[u8], expected_type: u16) -> (r: Result<Vec<String>, String>)
    requires
        buf@.len() <= isize::MAX,
    ensures
        match records(buf@, name_steps(buf@, expected_type)) {
            Parsed::Done(v) => r matches Ok(x) && views(x@) == v,
            Parsed::Fail(m) => r matches Err(e) && e@ == m,
            Parsed::Hang => r matches Err(e) && e@ == loop_error(),
        },
{
    let (ancount, mut pos) = answer_start(buf)?;
    let mut out: Vec<String> = Vec::new();
    assert(views(out@) =~= Seq::<Seq<char>>::empty());
    let mut i: usize = 0;
    while i < ancount
        invariant
            buf@.len() <= isize::MAX,
            i <= ancount,
            records(buf@, name_steps(buf@, expected_type)) == answers(buf@, pos as int, (ancount - i) as nat, views(out@), name_steps(buf@, expected_type)),
        decreases ancount - i,
    {
        let (q, rtype, rdlen) = next_answer(buf, pos)?;
        if rtype == expected_type {
            let (name, _) = read_name(buf, q)?;
            let ghost before = out@;
            out.push(name);
            assert(views(out@) =~= views(before).push(name@));
        }
        pos = q + rdlen;
        i = i + 1;
    }
    Ok(out)
}

/// The names held by the PTR records (type 12) of a response.
pub fn parse_ptr_records(buf: &[u8]) -> (r: Result<Vec<String>, String>)
    requires
        buf@.len() <= isize::MAX,
    ensures
        match records(buf@, name_steps(buf@, 12)) {
            Parsed::Done(v) => r matches Ok(x) && views(x@) == v,
            Parsed::Fail(m) => r matches Err(e) && e@ == m,
            Parsed::Hang => r matches Err(e) && e@ == loop_error(),
        },
{
    parse_name_records(buf, 12)
}

/// What the resolver checks of a response before parsing it.
pub open spec fn response_check(b: Seq<u8>, id: u16) -> Result<(), Seq<char>> {
    if b.len() < 12 {
        Err("response too short"@)
    } else if be16(b, 0) != id {
        Err("ID mismatch"@)
    } else if be16(b, 2) % 16 != 0 {
        Err("DNS rcode "@ + dec(be16(b, 2) % 16))
    } else {
        Ok(())
    }
}

/// Checks that a response is long enough, answers the query `id`, and
/// reports no error (response code 0).
pub fn check_response(raw: &[u8], id: u16) -> (r: Result<(), String>)
    ensures
        match response_check(raw@, id) {
            Ok(()) => r is Ok,
            Err(m) => r matches Err(e) && e@ == m,
        },
{
    if raw.len() < 12 {
        return Err(owned("response too short"));
    }
    if read_u16(raw, 0)? != id {
        return Err(owned("ID mismatch"));
    }
    let rcode = read_u16(raw, 2)? % 16;
    if rcode != 0 {
        let mut e = owned("DNS rcode ");
        push_dec(&mut e, rcode as u64);
        return Err(e);
    }
    Ok(())
}

/// The name that a reverse (PTR) lookup of `a` asks for.
pub open spec fn arpa_name(a: Ipv4Addr) -> Seq<char> {
    dec(a.d as nat) + seq!['.'] + dec(a.c as nat) + seq!['.'] + dec(a.b as nat) + seq!['.']
        + dec(a.a as nat) + ".in-addr.arpa"@
}

/// `d.c.b.a.in-addr.arpa` for the address `a.b.c.d`.
pub fn arpa_query_name(addr: &Ipv4Addr) -> (r: String)
    ensures
        r@ == arpa_name(*addr),
{
    let mut s = String::new();
    push_dec(&mut s, addr.d as u64);
    push_char(&mut s, '.');
    push_dec(&mut s, addr.c as u64);
    push_char(&mut s, '.');
    push_dec(&mut s, addr.b as u64);
    push_char(&mut s, '.');
    push_dec(&mut s, addr.a as u64);
    s.append(".in-addr.arpa");
    assert(s@ =~= arpa_name(*addr));
    s
}

/// `s` without its trailing dots.
pub open spec fn trim_dots(s: Seq<char>) -> Seq<char>
    decreases s.len(),
{
    if s.len() > 0 && s.last() == '.' {
        trim_dots(s.drop_last())
    } else {
        s
    }
}

/// Each label as its length byte (the UTF-8 length, kept to a byte) and its
/// UTF-8 bytes.
pub open spec fn label_bytes(ls: Seq<Seq<char>>) -> Seq<u8>
    decreases ls.len(),
{
    if ls.len() == 0 {
        seq![]
    } else {
        label_bytes(ls.drop_last()) + seq![(vstd::utf8::encode_utf8(ls.last()).len() % 256) as u8]
            + vstd::utf8::encode_utf8(ls.last())
    }
}

/// A query for records of type `qtype` of `domain`: the header (recursion
/// desired, one question), the question name, the type and class IN.
pub open spec fn query_bytes(domain: Seq<char>, id: u16, qtype: u16) -> Seq<u8> {
    be_bytes(id) + seq![1u8, 0, 0, 1, 0, 0, 0, 0, 0, 0] + label_bytes(split_char(trim_dots(domain), '.'))
        + seq![0u8] + be_bytes(qtype) + seq![0u8, 1]
}

fn push_be16(buf: &mut Vec<u8>, v: u16)
    ensures
        final(buf)@ == old(buf)@ + be_bytes(v),
{
    buf.push((v / 256) as u8);
    buf.push((v % 256) as u8);
    assert(buf@ =~= old(buf)@ + be_bytes(v));
}

fn push_bytes(buf: &mut Vec<u8>, bytes: &[u8])
    ensures
        final(buf)@ == old(buf)@ + bytes@,
{
    let mut i: usize = 0;
    while i < bytes.len()
        invariant
            i <= bytes@.len(),
            buf@ == old(buf)@ + bytes@.take(i as int),
        decreases bytes.len() - i,
    {
        buf.push(bytes[i]);
        i = i + 1;
        assert(buf@ =~= old(buf)@ + bytes@.take(i as int));
    }
    assert(bytes@.take(i as int) =~= bytes@);
}

/// Builds the query for records of type `qtype` of `domain`.
pub fn build_query(domain: &str, id: u16, qtype: u16) -> (r: Vec<u8>)
    ensures
        r@ == query_bytes(domain@, id, qtype),
{
    let cs = chars_of(domain);
    let mut n = cs.len();
    assert(cs@.take(n as int) =~= cs@);
    while n > 0 && cs[n - 1] == '.'
        invariant
            n <= cs@.len(),
            trim_dots(cs@) == trim_dots(cs@.take(n as int)),
        decreases n,
    {
        assert(cs@.take(n as int).drop_last() =~= cs@.take(n - 1));
        n = n - 1;
    }
    assert(trim_dots(cs@.take(n as int)) == cs@.take(n as int));
    let trimmed = slice_range(cs.as_slice(), 0, n);
    assert(trimmed@ =~= cs@.take(n as int));
    let labels = split_exec(trimmed, '.');
    let ghost ls = split_char(trim_dots(domain@), '.');
    let mut buf: Vec<u8> = Vec::new();
    push_be16(&mut buf, id);
    push_bytes(&mut buf, &[1u8, 0, 0, 1, 0, 0, 0, 0, 0, 0]);
    let ghost head = buf@;
    let mut i: usize = 0;
    while i < labels.len()
        invariant
            i <= labels@.len(),
            labels@.len() == ls.len(),
            forall|k: int| 0 <= k < labels@.len() ==> #[trigger] labels@[k]@ == ls[k],
            buf@ == head + label_bytes(ls.take(i as int)),
        decreases labels.len() - i,
    {
        let text = string_of(labels[i].as_slice());
        let bytes = text.as_str().as_bytes();
        buf.push((bytes.len() % 256) as u8);
        push_bytes(&mut buf, bytes);
        assert(ls.take(i + 1).drop_last() =~= ls.take(i as int));
        assert(ls.take(i + 1).last() == labels@[i as int]@);
        i = i + 1;
        assert(buf@ =~= head + label_bytes(ls.take(i as int)));
    }
    assert(ls.take(i as int) =~= ls);
    buf.push(0);
    push_be16(&mut buf, qtype);
    buf.push(0);
    buf.push(1);
    assert(buf@ =~= query_bytes(domain@, id, qtype));
    buf
}


/// An MX record reads as its preference, the big-endian 16-bit number at
/// the start of its data, in decimal, then a space, then the exchange name
/// that follows it. For any response with no questions and one answer (with
/// the root as its name) of type 15 whose data holds at least the two
/// preference bytes, the records are that one line.
pub proof fn law_mx_record_text(b: Seq<u8>)
    requires
        b.len() >= 25,
        b[4] == 0 && b[5] == 0,
        b[6] == 0 && b[7] == 1,
        b[12] == 0,
        b[13] == 0 && b[14] == 15,
        (b[21] as int) * 256 + (b[22] as int) >= 2,
        23 + (b[21] as int) * 256 + (b[22] as int) <= b.len(),
    ensures
        walk_name(b, 25) matches NameWalk::Done(ls, _) ==> records(b, mx_steps(b)) == Parsed::Done(
            seq![dec((b[23] as nat) * 256 + (b[24] as nat)) + " "@ + name_text(ls)],
        ),
{
    assert(skip_questions_spec(b, 12, be16(b, 4)) == Some(12int));
    assert(skip_name_spec(b, 12) == Some(13int));
    assert(answer_header(b, 12) == Ok::<(int, nat, nat), Seq<char>>((23, 15, be16(b, 21))));
    if let NameWalk::Done(ls, _) = walk_name(b, 25) {
        let line = dec((b[23] as nat) * 256 + (b[24] as nat)) + " "@ + name_text(ls);
        assert(mx_steps(b)(23, 15, be16(b, 21)) == Step::Take(line));
        let acc = Seq::<Seq<char>>::empty().push(line);
        assert(answers(b, 23 + be16(b, 21) as int, 0, acc, mx_steps(b)) == Parsed::Done(acc));
        assert(acc =~= seq![line]);
    }
}

} // verus!

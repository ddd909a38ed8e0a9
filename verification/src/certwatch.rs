use vstd::prelude::*;

use crate::deps::{Clock, SystemClock, TlsCheck, TlsInfo, TlsOptions};
use crate::target::{parse_host_port, target_with_default, TargetError};
use crate::text::{chars_of, dec_int, owned, push_char, push_dec_i64, views};

verus! {

// ---------------------------------------------------------------------------
// The expiry date of a certificate
// ---------------------------------------------------------------------------

/// A DER element at `pos` that ends by `end`: its tag and where its content
/// starts and ends. Lengths take one byte below 128, else one to four
/// following bytes.
pub open spec fn tlv(b: Seq<u8>, pos: int, end: int) -> Option<(u8, int, int)> {
    if pos < 0 || pos + 2 > end || end > b.len() {
        None
    } else {
        let l0 = b[pos + 1];
        let (hdr, len) = if l0 < 128 {
            (2int, l0 as int)
        } else if l0 == 129 && pos + 3 <= end {
            (3int, b[pos + 2] as int)
        } else if l0 == 130 && pos + 4 <= end {
            (4int, (b[pos + 2] as int) * 256 + (b[pos + 3] as int))
        } else if l0 == 131 && pos + 5 <= end {
            (5int, ((b[pos + 2] as int) * 256 + (b[pos + 3] as int)) * 256 + (b[pos + 4] as int))
        } else if l0 == 132 && pos + 6 <= end {
            (6int, (((b[pos + 2] as int) * 256 + (b[pos + 3] as int)) * 256 + (b[pos + 4] as int)) * 256
                + (b[pos + 5] as int))
        } else {
            (0int, -1int)
        };
        if len < 0 || pos + hdr + len > end {
            None
        } else {
            Some((b[pos], pos + hdr, pos + hdr + len))
        }
    }
}

/// Reads the DER element at `pos` that must end by `end`.
fn read_tlv(b: &[u8], pos: usize, end: usize) -> (r: Option<(u8, usize, usize)>)
    requires
        end <= b@.len(),
    ensures
        match tlv(b@, pos as int, end as int) {
            Some((t, s, e)) => r == Some((t, s as usize, e as usize)) && pos < s <= e <= end,
            None => r is None,
        },
{
    if pos >= end || end - pos < 2 {
        return None;
    }
    let l0 = b[pos + 1];
    let avail = end - pos;
    let (hdr, len): (usize, usize) = if l0 < 128 {
        (2, l0 as usize)
    } else if l0 == 129 && avail >= 3 {
        (3, b[pos + 2] as usize)
    } else if l0 == 130 && avail >= 4 {
        (4, (b[pos + 2] as usize) * 256 + (b[pos + 3] as usize))
    } else if l0 == 131 && avail >= 5 {
        (5, ((b[pos + 2] as usize) * 256 + (b[pos + 3] as usize)) * 256 + (b[pos + 4] as usize))
    } else if l0 == 132 && avail >= 6 {
        let v: u64 = (((b[pos + 2] as u64) * 256 + (b[pos + 3] as u64)) * 256 + (b[pos + 4] as u64)) * 256
            + (b[pos + 5] as u64);
        if v > (avail - 6) as u64 {
            return None;
        }
        (6, v as usize)
    } else {
        return None;
    };
    if len > avail - hdr {
        return None;
    }
    Some((b[pos], pos + hdr, pos + hdr + len))
}

/// Whether the bytes from `i` to `j` are ASCII digits.
pub open spec fn digits_in(c: Seq<u8>, i: int, j: int) -> bool {
    forall|k: int| i <= k < j ==> 48 <= #[trigger] c[k] <= 57
}

/// The ISO 8601 text `YYYY-MM-DDTHH:MM:SSZ` of a DER time: a UTCTime
/// (tag 0x17, `YYMMDDHHMMSSZ`, years 50 to 99 in the 1900s, the others in
/// the 2000s) or a GeneralizedTime (tag 0x18, `YYYYMMDDHHMMSSZ`).
pub open spec fn iso_time(tag: u8, c: Seq<u8>) -> Option<Seq<char>> {
    if tag == 0x17 && c.len() == 13 && digits_in(c, 0, 12) && c[12] == 90 {
        let yy = (c[0] - 48) * 10 + (c[1] - 48);
        let century: Seq<char> = if yy >= 50 {
            "19"@
        } else {
            "20"@
        };
        Some(century + iso_rest(c, 0))
    } else if tag == 0x18 && c.len() == 15 && digits_in(c, 0, 14) && c[14] == 90 {
        Some(seq![c[0] as char, c[1] as char] + iso_rest(c, 2))
    } else {
        None
    }
}

/// `YY-MM-DDTHH:MM:SSZ` from the digits at `i` (year, month, day, hour,
/// minute, second, two digits each).
pub open spec fn iso_rest(c: Seq<u8>, i: int) -> Seq<char> {
    seq![c[i] as char, c[i + 1] as char, '-', c[i + 2] as char, c[i + 3] as char, '-', c[i + 4] as char,
        c[i + 5] as char, 'T', c[i + 6] as char, c[i + 7] as char, ':', c[i + 8] as char, c[i + 9] as char,
        ':', c[i + 10] as char, c[i + 11] as char, 'Z']
}

/// The `notAfter` time of a DER certificate, as ISO 8601 text: the second
/// time of the validity, which follows the optional version, the serial
/// number, the signature algorithm and the issuer in the signed part.
pub open spec fn cert_not_after(b: Seq<u8>) -> Option<Seq<char>> {
    match tlv(b, 0, b.len() as int) {
        Some((0x30, cs, ce)) => match tlv(b, cs, ce) {
            Some((0x30, ts, te)) => {
                let p = match tlv(b, ts, te) {
                    Some((0xa0, _, e)) => e,
                    _ => ts,
                };
                match tlv(b, p, te) {
                    Some((0x02, _, p1)) => match tlv(b, p1, te) {
                        Some((0x30, _, p2)) => match tlv(b, p2, te) {
                            Some((0x30, _, p3)) => match tlv(b, p3, te) {
                                Some((0x30, vs, ve)) => match tlv(b, vs, ve) {
                                    Some((t0, _, q)) => if t0 == 0x17 || t0 == 0x18 {
                                        match tlv(b, q, ve) {
                                            Some((t1, s1, e1)) => iso_time(t1, b.subrange(s1, e1)),
                                            None => None,
                                        }
                                    } else {
                                        None
                                    },
                                    None => None,
                                },
                                _ => None,
                            },
                            _ => None,
                        },
                        _ => None,
                    },
                    _ => None,
                }
            },
            _ => None,
        },
        _ => None,
    }
}

fn iso_time_exec(tag: u8, c: &[u8]) -> (r: Option<String>)
    ensures
        match iso_time(tag, c@) {
            Some(t) => r matches Some(s) && s@ == t,
            None => r is None,
        },
{
    let n = c.len();
    let (digits_end, start): (usize, usize) = if tag == 0x17 && n == 13 {
        (12, 0)
    } else if tag == 0x18 && n == 15 {
        (14, 2)
    } else {
        return None;
    };
    let mut k: usize = 0;
    while k < digits_end
        invariant
            k <= digits_end < n,
            n == c@.len(),
            digits_in(c@, 0, k as int),
        decreases digits_end - k,
    {
        if c[k] < 48 || c[k] > 57 {
            assert(!digits_in(c@, 0, digits_end as int));
            return None;
        }
        k = k + 1;
    }
    if c[digits_end] != 90 {
        return None;
    }
    let mut s = String::new();
    if tag == 0x17 {
        let yy = (c[0] - 48) * 10 + (c[1] - 48);
        if yy >= 50 {
            s.append("19");
        } else {
            s.append("20");
        }
    } else {
        push_char(&mut s, c[0] as char);
        push_char(&mut s, c[1] as char);
    }
    push_char(&mut s, c[start] as char);
    push_char(&mut s, c[start + 1] as char);
    push_char(&mut s, '-');
    push_char(&mut s, c[start + 2] as char);
    push_char(&mut s, c[start + 3] as char);
    push_char(&mut s, '-');
    push_char(&mut s, c[start + 4] as char);
    push_char(&mut s, c[start + 5] as char);
    push_char(&mut s, 'T');
    push_char(&mut s, c[start + 6] as char);
    push_char(&mut s, c[start + 7] as char);
    push_char(&mut s, ':');
    push_char(&mut s, c[start + 8] as char);
    push_char(&mut s, c[start + 9] as char);
    push_char(&mut s, ':');
    push_char(&mut s, c[start + 10] as char);
    push_char(&mut s, c[start + 11] as char);
    push_char(&mut s, 'Z');
    proof {
        if tag == 0x17 {
            assert(s@ =~= iso_time(tag, c@)->0);
        } else {
            assert(s@ =~= iso_time(tag, c@)->0);
        }
    }
    Some(s)
}

/// Reads the `notAfter` time of a DER certificate.
pub fn not_after(cert: &[u8]) -> (r: Option<String>)
    ensures
        match cert_not_after(cert@) {
            Some(t) => r matches Some(s) && s@ == t,
            None => r is None,
        },
{
    let n = cert.len();
    let (t, cs, ce) = read_tlv(cert, 0, n)?;
    if t != 0x30 {
        return None;
    }
    let (t, ts, te) = read_tlv(cert, cs, ce)?;
    if t != 0x30 {
        return None;
    }
    let p = match read_tlv(cert, ts, te) {
        Some((0xa0, _, e)) => e,
        _ => ts,
    };
    let (t, _, p1) = read_tlv(cert, p, te)?;
    if t != 0x02 {
        return None;
    }
    let (t, _, p2) = read_tlv(cert, p1, te)?;
    if t != 0x30 {
        return None;
    }
    let (t, _, p3) = read_tlv(cert, p2, te)?;
    if t != 0x30 {
        return None;
    }
    let (t, vs, ve) = read_tlv(cert, p3, te)?;
    if t != 0x30 {
        return None;
    }
    let (t0, _, q) = read_tlv(cert, vs, ve)?;
    if !(t0 == 0x17 || t0 == 0x18) {
        return None;
    }
    let (t1, s1, e1) = read_tlv(cert, q, ve)?;
    iso_time_exec(t1, crate::text::slice_range(cert, s1, e1))
}

/// When the leaf certificate of a connection expires: the `notAfter` time
/// of the first certificate, as `YYYY-MM-DDTHH:MM:SSZ`.
pub open spec fn leaf_expiry_spec(certs: Seq<Seq<u8>>) -> Result<Seq<char>, Seq<char>> {
    if certs.len() == 0 {
        Err("no certificate"@)
    } else {
        match cert_not_after(certs[0]) {
            Some(t) => Ok(t),
            None => Err("malformed certificate"@),
        }
    }
}

pub open spec fn cert_views(certs: Seq<Vec<u8>>) -> Seq<Seq<u8>> {
    certs.map_values(|c: Vec<u8>| c@)
}

/// Reads when the leaf certificate of a connection expires.
pub fn leaf_expiry(info: &TlsInfo) -> (r: Result<String, String>)
    ensures
        match leaf_expiry_spec(cert_views(info.certs@)) {
            Ok(t) => r matches Ok(s) && s@ == t,
            Err(m) => r matches Err(e) && e@ == m,
        },
{
    if info.certs.len() == 0 {
        return Err(owned("no certificate"));
    }
    assert(cert_views(info.certs@)[0] == info.certs@[0]@);
    match not_after(info.certs[0].as_slice()) {
        Some(t) => Ok(t),
        None => Err(owned("malformed certificate")),
    }
}

} // verus!
verus! {

// ---------------------------------------------------------------------------
// Days since the epoch
// ---------------------------------------------------------------------------

/// Division that rounds toward zero, as integer division does in Rust.
pub open spec fn tdiv(a: int, b: int) -> int {
    if a >= 0 {
        a / b
    } else {
        -((-a) / b)
    }
}

pub open spec fn in_i64(x: int) -> bool {
    i64::MIN <= x <= i64::MAX
}

/// The days from 1970-01-01 to a date of the proleptic Gregorian calendar,
/// through its Julian Day Number.
pub open spec fn ymd_days(y: int, m: int, d: int) -> int {
    let a = tdiv(14 - m, 12);
    let y2 = y + 4800 - a;
    let m2 = m + 12 * a - 3;
    d + tdiv(153 * m2 + 2, 5) + 365 * y2 + tdiv(y2, 4) - tdiv(y2, 100) + tdiv(y2, 400) - 32045 - 2440588
}

/// A leap year of the Gregorian calendar.
pub open spec fn is_leap(y: int) -> bool {
    (y % 4 == 0 && y % 100 != 0) || y % 400 == 0
}

/// The number of days of month `m` of year `y`.
pub open spec fn days_in_month(y: int, m: int) -> int {
    if m == 2 {
        if is_leap(y) {
            29
        } else {
            28
        }
    } else if m == 4 || m == 6 || m == 9 || m == 11 {
        30
    } else {
        31
    }
}

/// The calendar day after `y-m-d`.
pub open spec fn next_day(y: int, m: int, d: int) -> (int, int, int) {
    if d < days_in_month(y, m) {
        (y, m, d + 1)
    } else if m < 12 {
        (y, m + 1, 1)
    } else {
        (y + 1, 1, 1)
    }
}

proof fn lemma_floor_step(n: int)
    requires
        n >= 0,
    ensures
        (n + 1) / 4 - n / 4 == (if (n + 1) % 4 == 0 { 1int } else { 0int }),
        (n + 1) / 100 - n / 100 == (if (n + 1) % 100 == 0 { 1int } else { 0int }),
        (n + 1) / 400 - n / 400 == (if (n + 1) % 400 == 0 { 1int } else { 0int }),
{
}

/// Day numbers count days: 1970-01-01 is day 0, and the day after a valid
/// date (month ends, year ends and February 29 of leap years included) has
/// the next number.
pub proof fn law_successive_days(y: int, m: int, d: int)
    requires
        -4700 <= y,
        1 <= m <= 12,
        1 <= d <= days_in_month(y, m),
    ensures
        ymd_days(1970, 1, 1) == 0,
        ({
            let (y2, m2, d2) = next_day(y, m, d);
            ymd_days(y2, m2, d2) == ymd_days(y, m, d) + 1
        }),
{
    if d < days_in_month(y, m) {
    } else if m == 2 {
        let n = y + 4799;
        lemma_floor_step(n);
        assert((n + 1) % 4 == 0 <==> y % 4 == 0);
        assert((n + 1) % 100 == 0 <==> y % 100 == 0);
        assert((n + 1) % 400 == 0 <==> y % 400 == 0);
    } else if m == 1 {
    } else if m < 12 {
        assert(m == 3 || m == 4 || m == 5 || m == 6 || m == 7 || m == 8 || m == 9 || m == 10 || m == 11);
    }
}

/// Whether every step of the computation of `ymd_days` fits in an `i64`,
/// as the machine arithmetic requires.
pub open spec fn ymd_fits(y: int, m: int, d: int) -> bool {
    let a = tdiv(14 - m, 12);
    let y2 = y + 4800 - a;
    let m2 = m + 12 * a - 3;
    let t = tdiv(153 * m2 + 2, 5);
    &&& in_i64(14 - m)
    &&& in_i64(y + 4800)
    &&& in_i64(y2)
    &&& in_i64(12 * a)
    &&& in_i64(m + 12 * a)
    &&& in_i64(m2)
    &&& in_i64(153 * m2)
    &&& in_i64(153 * m2 + 2)
    &&& in_i64(365 * y2)
    &&& in_i64(d + t)
    &&& in_i64(d + t + 365 * y2)
    &&& in_i64(d + t + 365 * y2 + tdiv(y2, 4))
    &&& in_i64(d + t + 365 * y2 + tdiv(y2, 4) - tdiv(y2, 100))
    &&& in_i64(d + t + 365 * y2 + tdiv(y2, 4) - tdiv(y2, 100) + tdiv(y2, 400))
    &&& in_i64(d + t + 365 * y2 + tdiv(y2, 4) - tdiv(y2, 100) + tdiv(y2, 400) - 32045)
    &&& in_i64(ymd_days(y, m, d))
}

/// The days from 1970-01-01 to `y-m-d`.
pub fn ymd_to_unix_days(y: i64, m: i64, d: i64) -> (r: i64)
    requires
        ymd_fits(y as int, m as int, d as int),
    ensures
        r == ymd_days(y as int, m as int, d as int),
{
    let a = (14 - m) / 12;
    let y2 = y + 4800 - a;
    let m2 = m + 12 * a - 3;
    let jdn = d + (153 * m2 + 2) / 5 + 365 * y2 + y2 / 4 - y2 / 100 + y2 / 400 - 32045;
    jdn - 2440588
}

/// `i64::from_str` of ASCII bytes: an optional sign, then at least one
/// digit.
pub open spec fn ascii_int(b: Seq<u8>) -> Option<int> {
    let neg = b.len() > 0 && b[0] == 45;
    let start: int = if b.len() > 0 && (b[0] == 43 || b[0] == 45) { 1 } else { 0 };
    let ds = b.skip(start);
    if ds.len() == 0 || !digits_in(ds, 0, ds.len() as int) {
        None
    } else {
        Some(if neg { -(digit_bytes_value(ds) as int) } else { digit_bytes_value(ds) as int })
    }
}

/// The value of ASCII decimal digits.
pub open spec fn digit_bytes_value(d: Seq<u8>) -> nat
    decreases d.len(),
{
    if d.len() == 0 {
        0
    } else {
        digit_bytes_value(d.drop_last()) * 10 + (d.last() - 48) as nat
    }
}

/// The number in bytes `a..b` of a date's text, 0 where there is none.
pub open spec fn date_field(b: Seq<u8>, i: int, j: int) -> int {
    if j <= b.len() {
        match ascii_int(b.subrange(i, j)) {
            Some(v) => v,
            None => 0,
        }
    } else {
        0
    }
}

/// The day number of a `YYYY-MM-DD...` date, from the year, month and day
/// fields of its UTF-8 text.
pub open spec fn expiry_days_spec(b: Seq<u8>) -> int {
    ymd_days(date_field(b, 0, 4), date_field(b, 5, 7), date_field(b, 8, 10))
}

proof fn lemma_digit_bytes_bound(d: Seq<u8>)
    requires
        digits_in(d, 0, d.len() as int),
    ensures
        digit_bytes_value(d) < pow10(d.len()),
    decreases d.len(),
{
    if d.len() > 0 {
        lemma_digit_bytes_bound(d.drop_last());
        assert(48 <= d[d.len() - 1] <= 57);
    }
}

pub open spec fn pow10(n: nat) -> nat
    decreases n,
{
    if n == 0 {
        1
    } else {
        10 * pow10((n - 1) as nat)
    }
}

/// Reads the field in bytes `i..j` of a date's text.
fn date_field_exec(b: &[u8], i: usize, j: usize) -> (r: i64)
    requires
        i < j,
        j - i <= 4,
    ensures
        r == date_field(b@, i as int, j as int),
{
    if j > b.len() {
        return 0;
    }
    let f = crate::text::slice_range(b, i, j);
    let neg = f[0] == 45;
    let start: usize = if f[0] == 43 || f[0] == 45 { 1 } else { 0 };
    let ghost ds = f@.skip(start as int);
    if start >= f.len() {
        return 0;
    }
    let mut v: i64 = 0;
    let mut k = start;
    assert(ds.take(0) =~= Seq::<u8>::empty());
    while k < f.len()
        invariant
            start <= k <= f@.len(),
            f@.len() <= 4,
            f@.len() > 0,
            j <= b@.len(),
            f@ == b@.subrange(i as int, j as int),
            start == (if f@[0] == 43 || f@[0] == 45 { 1usize } else { 0usize }),
            ds == f@.skip(start as int),
            digits_in(ds, 0, k - start),
            v == digit_bytes_value(ds.take(k - start)),
            v < pow10((k - start) as nat),
        decreases f.len() - k,
    {
        assert(ds[k - start] == f@[k as int]);
        if f[k] < 48 || f[k] > 57 {
            assert(!digits_in(ds, 0, ds.len() as int));
            return 0;
        }
        assert(ds.take(k - start + 1).drop_last() =~= ds.take(k - start));
        assert(pow10((k - start + 1) as nat) == 10 * pow10((k - start) as nat));
        assert(pow10((k - start) as nat) <= 1000) by {
            reveal_with_fuel(pow10, 5);
        }
        v = v * 10 + (f[k] - 48) as i64;
        k = k + 1;
    }
    assert(ds.take(k - start) =~= ds);
    if neg {
        -v
    } else {
        v
    }
}

/// The day number of the date at the start of an expiry text.
pub fn expiry_days(iso: &str) -> (r: i64)
    ensures
        r == expiry_days_spec(vstd::utf8::encode_utf8(iso@)),
{
    let b = iso.as_bytes();
    let y = date_field_exec(b, 0, 4);
    let m = date_field_exec(b, 5, 7);
    let d = date_field_exec(b, 8, 10);
    proof {
        lemma_date_field_small(b@, 0, 4);
        lemma_date_field_small(b@, 5, 7);
        lemma_date_field_small(b@, 8, 10);
        lemma_small_fits(y as int, m as int, d as int);
    }
    ymd_to_unix_days(y, m, d)
}

proof fn lemma_date_field_small(b: Seq<u8>, i: int, j: int)
    requires
        0 <= i < j,
        j - i <= 4,
    ensures
        -10000 < date_field(b, i, j) < 10000,
{
    if j <= b.len() {
        let f = b.subrange(i, j);
        let start: int = if f.len() > 0 && (f[0] == 43 || f[0] == 45) { 1 } else { 0 };
        let ds = f.skip(start);
        if ascii_int(f) is Some {
            lemma_digit_bytes_bound(ds);
            reveal_with_fuel(pow10, 5);
        }
    }
}

proof fn lemma_small_fits(y: int, m: int, d: int)
    requires
        -10000 < y < 10000,
        -10000 < m < 10000,
        -10000 < d < 10000,
    ensures
        ymd_fits(y, m, d),
{
    let a = tdiv(14 - m, 12);
    assert(-1000 < a < 1000);
    let y2 = y + 4800 - a;
    let m2 = m + 12 * a - 3;
    assert(-100000 < m2 < 100000);
    assert(-100000 < y2 < 100000);
    assert(-100000000 < 153 * m2 + 2 < 100000000) by (nonlinear_arith)
        requires
            -100000 < m2 < 100000,
    ;
    assert(-100000000 < 365 * y2 < 100000000) by (nonlinear_arith)
        requires
            -100000 < y2 < 100000,
    ;
}

} // verus!
verus! {

// ---------------------------------------------------------------------------
// The report
// ---------------------------------------------------------------------------

pub open spec fn certwatch_usage() -> Seq<char> {
    "usage: certwatch <host[:port]> [host[:port]...]"@
}

/// The message of a refused target.
pub open spec fn target_message(e: TargetError) -> Seq<char> {
    match e {
        TargetError::Usage => "usage: certwatch <host[:port]>"@,
        TargetError::InvalidPort => "invalid port"@,
    }
}

/// `{arg:<width$}`: the argument, padded with spaces to `width` characters.
pub open spec fn pad_label(arg: Seq<char>, width: nat) -> Seq<char> {
    if arg.len() < width {
        arg + Seq::new((width - arg.len()) as nat, |i: int| ' ')
    } else {
        arg
    }
}

/// The greatest UTF-8 length of the arguments.
pub open spec fn max_byte_len(args: Seq<Seq<char>>) -> nat
    decreases args.len(),
{
    if args.len() == 0 {
        0
    } else {
        let l = vstd::utf8::encode_utf8(args.last()).len();
        let m = max_byte_len(args.drop_last());
        if l > m {
            l
        } else {
            m
        }
    }
}

/// The line for a certificate that expires at `exp`, `today` being the
/// current day number: its date, the days left, and a note when it has
/// expired or expires within 30 days.
pub open spec fn expiry_line(label: Seq<char>, exp: Seq<char>, today: int) -> Seq<char> {
    let days = expiry_days_spec(vstd::utf8::encode_utf8(exp)) - today;
    label + "  ok   expires "@ + (if exp.len() >= 10 { exp.take(10) } else { exp }) + "  ("@ + dec_int(days)
        + " days)"@ + (if days < 0 {
        "  EXPIRED"@
    } else if days < 30 {
        "  EXPIRING SOON"@
    } else {
        seq![]
    }) + "\n"@
}

/// The line for a target, given what the connection gave: its certificates
/// or an error.
pub open spec fn report_line(label: Seq<char>, outcome: Result<Seq<Seq<u8>>, Seq<char>>, today: int) -> Seq<char> {
    match outcome {
        Err(e) => label + "  error: "@ + e + "\n"@,
        Ok(certs) => match leaf_expiry_spec(certs) {
            Ok(exp) => expiry_line(label, exp, today),
            Err(e) => label + "  error: "@ + e + "\n"@,
        },
    }
}

/// The lines for the first targets, one per outcome.
pub open spec fn report(
    args: Seq<Seq<char>>,
    width: nat,
    outcomes: Seq<Result<Seq<Seq<u8>>, Seq<char>>>,
    today: int,
) -> Seq<char>
    decreases outcomes.len(),
{
    if outcomes.len() == 0 {
        seq![]
    } else {
        let k = outcomes.len() - 1;
        report(args, width, outcomes.drop_last(), today) + report_line(pad_label(args[k], width), outcomes.last(), today)
    }
}

fn push_expiry_line(out: &mut String, label: &str, exp: &str, today: i64)
    requires
        0 <= today <= u64::MAX / 86400,
    ensures
        final(out)@ == old(out)@ + expiry_line(label@, exp@, today as int),
{
    let ed = expiry_days(exp);
    proof {
        lemma_expiry_days_small(vstd::utf8::encode_utf8(exp@));
    }
    let days = ed - today;
    let ecs = chars_of(exp);
    out.append(label);
    out.append("  ok   expires ");
    if ecs.len() >= 10 {
        crate::text::push_chars(out, crate::text::slice_range(ecs.as_slice(), 0, 10));
    } else {
        out.append(exp);
    }
    out.append("  (");
    push_dec_i64(out, days);
    out.append(" days)");
    if days < 0 {
        out.append("  EXPIRED");
    } else if days < 30 {
        out.append("  EXPIRING SOON");
    }
    out.append("\n");
    assert(out@ =~= old(out)@ + expiry_line(label@, exp@, today as int));
}

fn push_line_for(out: &mut String, label: &str, outcome: Result<TlsInfo, String>, today: i64)
    requires
        0 <= today <= u64::MAX / 86400,
    ensures
        final(out)@ == old(out)@ + report_line(
            label@,
            match outcome {
                Ok(info) => Ok(cert_views(info.certs@)),
                Err(e) => Err(e@),
            },
            today as int,
        ),
{
    let r = match outcome {
        Err(e) => Err(e),
        Ok(info) => leaf_expiry(&info),
    };
    match r {
        Ok(exp) => push_expiry_line(out, label, exp.as_str(), today),
        Err(e) => {
            out.append(label);
            out.append("  error: ");
            out.append(e.as_str());
            out.append("\n");
            assert(out@ =~= old(out)@ + (label@ + "  error: "@ + e@ + "\n"@));
        },
    }
}

proof fn lemma_expiry_days_small(b: Seq<u8>)
    ensures
        -100000000 < expiry_days_spec(b) < 100000000,
{
    lemma_date_field_small(b, 0, 4);
    lemma_date_field_small(b, 5, 7);
    lemma_date_field_small(b, 8, 10);
    let (y, m, d) = (date_field(b, 0, 4), date_field(b, 5, 7), date_field(b, 8, 10));
    let a = tdiv(14 - m, 12);
    let y2 = y + 4800 - a;
    let m2 = m + 12 * a - 3;
    assert(-100000 < m2 < 100000);
    assert(-100000 < y2 < 100000);
    assert(-100000000 < 153 * m2 + 2 < 100000000) by (nonlinear_arith)
        requires
            -100000 < m2 < 100000,
    ;
    assert(-40000000 < 365 * y2 < 40000000) by (nonlinear_arith)
        requires
            -100000 < y2 < 100000,
    ;
}

/// Prints, for each `host[:port]` argument, when the certificate it serves
/// expires, labels aligned; `today` is the current day number. A target
/// that cannot be read stops the report with its error. What each
/// connection gives is the checker's to say, so the contract holds for some
/// outcome of each.
pub fn run_at<T: TlsCheck>(out: &mut String, tls: &T, args: &[String], today: i64) -> (r: Result<(), String>)
    requires
        0 <= today <= u64::MAX / 86400,
    ensures
        args@.len() == 0 ==> (r matches Err(e) && e@ == certwatch_usage()) && final(out)@ == old(out)@,
        args@.len() > 0 ==> exists|outcomes: Seq<Result<Seq<Seq<u8>>, Seq<char>>>| {
            &&& outcomes.len() <= args@.len()
            &&& final(out)@ == old(out)@ + #[trigger] report(views(args@), max_byte_len(views(args@)), outcomes, today as int)
            &&& forall|j: int| 0 <= j < outcomes.len() ==> target_with_default(#[trigger] args@[j]@) is Ok
            &&& outcomes.len() == args@.len() ==> r is Ok
            &&& outcomes.len() < args@.len() ==> (target_with_default(args@[outcomes.len() as int]@) matches Err(te)
                && r matches Err(e) && e@ == target_message(te))
        },
{
    if args.len() == 0 {
        return Err(owned("usage: certwatch <host[:port]> [host[:port]...]"));
    }
    let ghost a = views(args@);
    let mut width: usize = 0;
    let mut i: usize = 0;
    assert(a.take(0) =~= Seq::<Seq<char>>::empty());
    while i < args.len()
        invariant
            i <= args@.len(),
            a == views(args@),
            width == max_byte_len(a.take(i as int)),
        decreases args.len() - i,
    {
        assert(a.take(i + 1).drop_last() =~= a.take(i as int));
        assert(a.take(i + 1).last() == args@[i as int]@);
        let l = args[i].as_str().as_bytes().len();
        if l > width {
            width = l;
        }
        i = i + 1;
    }
    assert(a.take(i as int) =~= a);
    let ghost mut outcomes: Seq<Result<Seq<Seq<u8>>, Seq<char>>> = seq![];
    let mut k: usize = 0;
    while k < args.len()
        invariant
            k <= args@.len(),
            a == views(args@),
            width == max_byte_len(a),
            outcomes.len() == k,
            0 <= today <= u64::MAX / 86400,
            out@ == old(out)@ + report(a, width as nat, outcomes, today as int),
            forall|j: int| 0 <= j < k ==> target_with_default(#[trigger] args@[j]@) is Ok,
        decreases args.len() - k,
    {
        let (host, port) = match parse_host_port(args[k].as_str()) {
            Ok(t) => t,
            Err(te) => {
                let msg = match te {
                    TargetError::Usage => owned("usage: certwatch <host[:port]>"),
                    TargetError::InvalidPort => owned("invalid port"),
                };
                assert(a[k as int] == args@[k as int]@);
                return Err(msg);
            },
        };
        let cs = chars_of(args[k].as_str());
        let mut label = args[k].clone();
        let mut n = cs.len();
        while n < width
            invariant
                n <= width || n == cs@.len(),
                label@ == cs@ + Seq::new((n - cs@.len()) as nat, |i: int| ' '),
                cs@.len() <= n,
            decreases width - n,
        {
            push_char(&mut label, ' ');
            n = n + 1;
            assert(label@ =~= cs@ + Seq::new((n - cs@.len()) as nat, |i: int| ' '));
        }
        assert(a[k as int] == cs@);
        assert(label@ =~= pad_label(a[k as int], width as nat));
        let outcome = tls.check_tls(host.as_str(), port, &TlsOptions { server_name: host.as_str() });
        let ghost o = match &outcome {
            Ok(info) => Ok(cert_views(info.certs@)),
            Err(e) => Err(e@),
        };
        push_line_for(out, label.as_str(), outcome, today);
        proof {
            let no = outcomes.push(o);
            assert(no.drop_last() =~= outcomes);
            outcomes = no;
        }
        k = k + 1;
    }
    Ok(())
}

/// Prints when the certificates of the targets expire, counting days from
/// the system clock (day 0 when it reads before the epoch): the report of
/// `run_at` for the day it read.
pub fn run<T: TlsCheck>(out: &mut String, tls: &T, args: &[String]) -> (r: Result<(), String>)
    ensures
        args@.len() == 0 ==> (r matches Err(e) && e@ == certwatch_usage()) && final(out)@ == old(out)@,
        args@.len() > 0 ==> exists|today: int, outcomes: Seq<Result<Seq<Seq<u8>>, Seq<char>>>| {
            &&& 0 <= today
            &&& outcomes.len() <= args@.len()
            &&& final(out)@ == old(out)@ + #[trigger] report(views(args@), max_byte_len(views(args@)), outcomes, today)
            &&& forall|j: int| 0 <= j < outcomes.len() ==> target_with_default(#[trigger] args@[j]@) is Ok
            &&& outcomes.len() == args@.len() ==> r is Ok
            &&& outcomes.len() < args@.len() ==> (target_with_default(args@[outcomes.len() as int]@) matches Err(te)
                && r matches Err(e) && e@ == target_message(te))
        },
{
    let secs: u64 = match SystemClock.now() {
        Some(s) => s,
        None => 0,
    };
    let today = (secs / 86400) as i64;
    let r = run_at(out, tls, args, today);
    proof {
        if args@.len() > 0 {
            let outcomes = choose|outcomes: Seq<Result<Seq<Seq<u8>>, Seq<char>>>| {
                &&& outcomes.len() <= args@.len()
                &&& final(out)@ == old(out)@ + #[trigger] report(views(args@), max_byte_len(views(args@)), outcomes, today as int)
                &&& forall|j: int| 0 <= j < outcomes.len() ==> target_with_default(#[trigger] args@[j]@) is Ok
                &&& outcomes.len() == args@.len() ==> r is Ok
                &&& outcomes.len() < args@.len() ==> (target_with_default(args@[outcomes.len() as int]@) matches Err(te)
                    && r matches Err(e) && e@ == target_message(te))
            };
            assert(final(out)@ == old(out)@ + report(views(args@), max_byte_len(views(args@)), outcomes, today as int));
        }
    }
    r
}

} // verus!

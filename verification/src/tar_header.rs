use vstd::prelude::*;

use crate::text::slice_range;

verus! {

/// Whether `c` counts as whitespace in a tar number field: ASCII
/// whitespace or a vertical tab.
pub open spec fn is_tar_space(c: u8) -> bool {
    c == 32 || c == 9 || c == 10 || c == 11 || c == 12 || c == 13
}

/// The index of the first NUL byte of `f` at or after `i`, or its length.
pub open spec fn nul_from(f: Seq<u8>, i: int) -> int
    decreases f.len() - i,
{
    if i < 0 || i >= f.len() {
        f.len() as int
    } else if f[i] == 0 {
        i
    } else {
        nul_from(f, i + 1)
    }
}

/// The first index of `i..end` whose byte of `f` is not whitespace, or
/// `end`.
pub open spec fn skip_space(f: Seq<u8>, i: int, end: int) -> int
    decreases end - i,
{
    if i < 0 || i >= end {
        end
    } else if !is_tar_space(f[i]) {
        i
    } else {
        skip_space(f, i + 1, end)
    }
}

/// The end of `f[lo..hi]` once trailing whitespace is cut off.
pub open spec fn trim_end(f: Seq<u8>, lo: int, hi: int) -> int
    decreases hi - lo,
{
    if hi <= lo {
        lo
    } else if !is_tar_space(f[hi - 1]) {
        hi
    } else {
        trim_end(f, lo, hi - 1)
    }
}

/// Whether every byte of `d` is an octal digit.
pub open spec fn all_octal(d: Seq<u8>) -> bool {
    forall|i: int| 0 <= i < d.len() ==> 48 <= #[trigger] d[i] <= 55
}

/// The number that the octal digits `d` write.
pub open spec fn octal_value(d: Seq<u8>) -> nat
    decreases d.len(),
{
    if d.len() == 0 {
        0
    } else {
        octal_value(d.drop_last()) * 8 + (d.last() - 48) as nat
    }
}

/// The number that the bytes `d` write in base 256, most significant first.
pub open spec fn be_value(d: Seq<u8>) -> nat
    decreases d.len(),
{
    if d.len() == 0 {
        0
    } else {
        be_value(d.drop_last()) * 256 + d.last() as nat
    }
}

/// An octal text field: cut at its first NUL, whitespace trimmed at both
/// ends; empty reads as 0, else an optional `+` and then octal digits
/// whose value fits in a `u64`.
pub open spec fn octal_field(f: Seq<u8>) -> Option<nat> {
    let end = nul_from(f, 0);
    let lo = skip_space(f, 0, end);
    let hi = trim_end(f, lo, end);
    if lo >= hi {
        Some(0)
    } else {
        let d = f.subrange(if f[lo] == 43 { lo + 1 } else { lo }, hi);
        if d.len() > 0 && all_octal(d) && octal_value(d) <= u64::MAX {
            Some(octal_value(d))
        } else {
            None
        }
    }
}

/// A 12-byte number field: with the high bit of its first byte set, the
/// low 64 bits of its base-256 value (its last eight bytes); else octal
/// text.
pub open spec fn numeric_field(f: Seq<u8>) -> Option<nat> {
    if f[0] >= 128 {
        Some(be_value(f.subrange(4, 12)))
    } else {
        octal_field(f)
    }
}

/// The sum of the first `n` bytes of the header `h`, with the checksum
/// field (bytes 148..156) counted as spaces.
pub open spec fn header_sum(h: Seq<u8>, n: int) -> int
    decreases n,
{
    if n <= 0 {
        0
    } else {
        header_sum(h, n - 1) + if 148 <= n - 1 < 156 {
            32
        } else {
            h[n - 1] as int
        }
    }
}

/// Whether the checksum field of the header `h` holds its sum.
pub open spec fn checksum_ok(h: Seq<u8>) -> bool {
    octal_field(h.subrange(148, 156)) == Some(header_sum(h, 512) as nat)
}

/// Whether the header `h` carries the UStar magic and version (`ustar\0`,
/// `00`) or the GNU ones (`ustar `, ` \0`).
pub open spec fn extension_format(h: Seq<u8>) -> bool {
    &&& h[257] == 117 && h[258] == 115 && h[259] == 116 && h[260] == 97 && h[261] == 114
    &&& (h[262] == 0 && h[263] == 48 && h[264] == 48) || (h[262] == 32 && h[263] == 32 && h[264] == 0)
}

/// Which extension the header `h` is: 1 for a GNU long name (`L`), 2 for a
/// GNU long link (`K`), 3 for PAX (`x`), each only in a UStar or GNU header;
/// 0 for anything else.
pub open spec fn ext_kind(h: Seq<u8>) -> int {
    if !extension_format(h) {
        0
    } else if h[156] == 76 {
        1
    } else if h[156] == 75 {
        2
    } else if h[156] == 120 {
        3
    } else {
        0
    }
}

/// Whether the 512 bytes of `b` at `p` are all zero.
pub open spec fn zero_block(b: Seq<u8>, p: int) -> bool {
    forall|i: int| p <= i < p + 512 ==> b[i] == 0
}

/// `s` rounded up to whole 512-byte blocks.
pub open spec fn round512(s: nat) -> nat {
    (s + 511) / 512 * 512
}

/// The length of a long name or link of `s` bytes at `c`, without one
/// trailing NUL.
pub open spec fn stripped_len(b: Seq<u8>, c: int, s: nat) -> nat {
    if s > 0 && b[c + s - 1] == 0 {
        (s - 1) as nat
    } else {
        s
    }
}

/// Whether the chain of headers that a fresh `tar_core` parser reads from
/// offset `p` of `b` keeps the sum of extension sizes within a `u64`,
/// with `m` the extension bytes gathered so far and `l`, `k`, `x` the
/// extension kinds already met. A lone zero block is skipped; a header
/// with a valid checksum and size that is an extension of a kind not met
/// yet adds its size to `m`, and while the total stays within 1 MiB, all
/// its data is there and a long name or link is at most 4096 bytes, the
/// chain goes on past its data. Anything else ends the chain. (The
/// parser's limit of 16 pending extensions is never reached on the way,
/// since each kind is met at most once.)
pub open spec fn chain_ok(b: Seq<u8>, p: nat, m: nat, l: bool, k: bool, x: bool) -> bool
    decreases b.len() - p,
{
    if p + 512 > b.len() {
        true
    } else if zero_block(b, p as int) {
        if p + 1024 > b.len() || zero_block(b, p + 512int) {
            true
        } else {
            chain_ok(b, p + 512, m, l, k, x)
        }
    } else {
        let h = b.subrange(p as int, p + 512int);
        if !checksum_ok(h) {
            true
        } else {
            match numeric_field(h.subrange(124, 136)) {
                None => true,
                Some(s) => {
                    let kind = ext_kind(h);
                    if round512(s) > u64::MAX || kind == 0 {
                        true
                    } else if (kind == 1 && l) || (kind == 2 && k) || (kind == 3 && x) {
                        true
                    } else if m + s > u64::MAX {
                        false
                    } else if m + s > 1048576 || p + 512 + round512(s) > b.len() {
                        true
                    } else if kind != 3 && stripped_len(b, p + 512int, s) > 4096 {
                        true
                    } else {
                        chain_ok(b, p + 512 + round512(s), m + s, l || kind == 1, k || kind == 2, x || kind == 3)
                    }
                },
            }
        }
    }
}

/// Whether a fresh parser reading `b` from its start never adds extension
/// sizes past `u64::MAX`.
pub open spec fn sizes_fit(b: Seq<u8>) -> bool {
    chain_ok(b, 0, 0, false, false, false)
}

/// The value of an optional `u64` as a natural number.
pub open spec fn opt_nat(r: Option<u64>) -> Option<nat> {
    match r {
        Some(v) => Some(v as nat),
        None => None,
    }
}


fn nul_index(f: &[u8]) -> (r: usize)
    ensures
        r == nul_from(f@, 0),
        r <= f@.len(),
{
    let mut i: usize = 0;
    while i < f.len()
        invariant
            i <= f@.len(),
            nul_from(f@, 0) == nul_from(f@, i as int),
        decreases f@.len() - i,
    {
        if f[i] == 0 {
            return i;
        }
        i = i + 1;
    }
    i
}

fn is_space_byte(c: u8) -> (r: bool)
    ensures
        r == is_tar_space(c),
{
    c == 32 || c == 9 || c == 10 || c == 11 || c == 12 || c == 13
}

fn first_non_space(f: &[u8], end: usize) -> (r: usize)
    requires
        end <= f@.len(),
    ensures
        r == skip_space(f@, 0, end as int),
        r <= end,
{
    let mut i: usize = 0;
    while i < end
        invariant
            i <= end <= f@.len(),
            skip_space(f@, 0, end as int) == skip_space(f@, i as int, end as int),
        decreases end - i,
    {
        if !is_space_byte(f[i]) {
            return i;
        }
        i = i + 1;
    }
    i
}

fn last_non_space(f: &[u8], lo: usize, end: usize) -> (r: usize)
    requires
        lo <= end <= f@.len(),
    ensures
        r == trim_end(f@, lo as int, end as int),
        lo <= r <= end,
{
    let mut hi: usize = end;
    while hi > lo
        invariant
            lo <= hi <= end <= f@.len(),
            trim_end(f@, lo as int, end as int) == trim_end(f@, lo as int, hi as int),
        decreases hi - lo,
    {
        if !is_space_byte(f[hi - 1]) {
            return hi;
        }
        hi = hi - 1;
    }
    hi
}

proof fn lemma_octal_prefix(d: Seq<u8>, j: int)
    requires
        0 <= j <= d.len(),
    ensures
        octal_value(d.take(j)) <= octal_value(d),
    decreases d.len() - j,
{
    if j == d.len() {
        assert(d.take(j) =~= d);
    } else {
        lemma_octal_prefix(d, j + 1);
        assert(d.take(j + 1).drop_last() =~= d.take(j));
    }
}

/// Reads an octal text field as `octal_field` says.
pub fn octal_field_exec(f: &[u8]) -> (r: Option<u64>)
    ensures
        opt_nat(r) == octal_field(f@),
{
    let end = nul_index(f);
    let lo = first_non_space(f, end);
    let hi = last_non_space(f, lo, end);
    if lo >= hi {
        return Some(0);
    }
    let s = if f[lo] == 43 { lo + 1 } else { lo };
    let ghost d = f@.subrange(s as int, hi as int);
    if s >= hi {
        return None;
    }
    let mut v: u64 = 0;
    let mut i: usize = s;
    assert(f@.subrange(s as int, s as int).len() == 0);
    while i < hi
        invariant
            s <= i <= hi <= f@.len(),
            lo < hi,
            lo == skip_space(f@, 0, nul_from(f@, 0)),
            hi == trim_end(f@, lo as int, nul_from(f@, 0)),
            s == if f@[lo as int] == 43 { lo + 1 } else { lo as int },
            d == f@.subrange(s as int, hi as int),
            v == octal_value(f@.subrange(s as int, i as int)),
            all_octal(f@.subrange(s as int, i as int)),
        decreases hi - i,
    {
        let c = f[i];
        if c < 48 || c > 55 {
            assert(d[i - s] == c);
            return None;
        }
        let ghost pre = f@.subrange(s as int, i as int);
        let ghost next = f@.subrange(s as int, i + 1);
        assert(next.drop_last() =~= pre);
        assert(d.take(i + 1 - s) =~= next);
        let w = match v.checked_mul(8) {
            Some(w) => w,
            None => {
                proof {
                    if all_octal(d) {
                        lemma_octal_prefix(d, i + 1 - s);
                    }
                }
                return None;
            },
        };
        v = match w.checked_add((c - 48) as u64) {
            Some(t) => t,
            None => {
                proof {
                    if all_octal(d) {
                        lemma_octal_prefix(d, i + 1 - s);
                    }
                }
                return None;
            },
        };
        i = i + 1;
    }
    assert(f@.subrange(s as int, i as int) =~= d);
    Some(v)
}

/// `256` to the power `n`.
pub open spec fn pow256(n: nat) -> nat
    decreases n,
{
    if n == 0 {
        1
    } else {
        256 * pow256((n - 1) as nat)
    }
}

proof fn lemma_pow256_small(n: nat)
    requires
        n <= 7,
    ensures
        pow256(n) <= 0x100_0000_0000_0000,
    decreases 7 - n,
{
    if n < 7 {
        lemma_pow256_small(n + 1);
    } else {
        reveal_with_fuel(pow256, 8);
    }
}

/// Reads a 12-byte number field as `numeric_field` says.
pub fn numeric_field_exec(f: &[u8]) -> (r: Option<u64>)
    requires
        f@.len() == 12,
    ensures
        opt_nat(r) == numeric_field(f@),
{
    if f[0] < 128 {
        return octal_field_exec(f);
    }
    let mut v: u64 = 0;
    let mut i: usize = 4;
    assert(f@.subrange(4, 4).len() == 0);
    while i < 12
        invariant
            4 <= i <= 12,
            f@.len() == 12,
            v == be_value(f@.subrange(4, i as int)),
            v < pow256((i - 4) as nat),
        decreases 12 - i,
    {
        proof {
            lemma_pow256_small((i - 4) as nat);
            assert(f@.subrange(4, i + 1).drop_last() =~= f@.subrange(4, i as int));
        }
        v = v * 256 + f[i] as u64;
        i = i + 1;
    }
    Some(v)
}

fn header_sum_exec(h: &[u8]) -> (r: u64)
    requires
        h@.len() == 512,
    ensures
        r == header_sum(h@, 512),
{
    let mut acc: u64 = 0;
    let mut i: usize = 0;
    while i < 512
        invariant
            i <= 512,
            h@.len() == 512,
            acc == header_sum(h@, i as int),
            acc <= 255 * i,
        decreases 512 - i,
    {
        if 148 <= i && i < 156 {
            acc = acc + 32;
        } else {
            acc = acc + h[i] as u64;
        }
        i = i + 1;
    }
    acc
}

fn checksum_ok_exec(h: &[u8]) -> (r: bool)
    requires
        h@.len() == 512,
    ensures
        r == checksum_ok(h@),
{
    let sum = header_sum_exec(h);
    match octal_field_exec(slice_range(h, 148, 156)) {
        Some(v) => v == sum,
        None => false,
    }
}

fn ext_kind_exec(h: &[u8]) -> (r: u8)
    requires
        h@.len() == 512,
    ensures
        r as int == ext_kind(h@),
{
    let magic = h[257] == 117 && h[258] == 115 && h[259] == 116 && h[260] == 97 && h[261] == 114;
    let version = (h[262] == 0 && h[263] == 48 && h[264] == 48) || (h[262] == 32 && h[263] == 32 && h[264] == 0);
    if !(magic && version) {
        0
    } else if h[156] == 76 {
        1
    } else if h[156] == 75 {
        2
    } else if h[156] == 120 {
        3
    } else {
        0
    }
}

fn zero_block_exec(b: &[u8], p: usize) -> (r: bool)
    requires
        p + 512 <= b@.len(),
    ensures
        r == zero_block(b@, p as int),
{
    let mut i: usize = p;
    while i - p < 512
        invariant
            p <= i <= p + 512 <= b@.len(),
            forall|j: int| p <= j < i ==> b@[j] == 0,
        decreases p + 512 - i,
    {
        if b[i] != 0 {
            return false;
        }
        i = i + 1;
    }
    true
}

/// Checks that a fresh parser reading `b` from its start never adds
/// extension sizes past `u64::MAX`.
pub fn sizes_fit_exec(b: &[u8]) -> (r: bool)
    ensures
        r == sizes_fit(b@),
{
    let mut p: usize = 0;
    let mut m: u64 = 0;
    let mut l = false;
    let mut k = false;
    let mut x = false;
    loop
        invariant
            p <= b@.len(),
            m <= 1048576,
            sizes_fit(b@) == chain_ok(b@, p as nat, m as nat, l, k, x),
        decreases b@.len() - p,
    {
        if b.len() - p < 512 {
            return true;
        }
        if zero_block_exec(b, p) {
            if b.len() - p < 1024 || zero_block_exec(b, p + 512) {
                return true;
            }
            p = p + 512;
            continue;
        }
        let h = slice_range(b, p, p + 512);
        if !checksum_ok_exec(h) {
            return true;
        }
        let s = match numeric_field_exec(slice_range(h, 124, 136)) {
            Some(s) => s,
            None => return true,
        };
        let kind = ext_kind_exec(h);
        proof {
            lemma_round512_fits(s as nat);
        }
        if s > u64::MAX - 511 || kind == 0 {
            return true;
        }
        if (kind == 1 && l) || (kind == 2 && k) || (kind == 3 && x) {
            return true;
        }
        let t = match m.checked_add(s) {
            Some(t) => t,
            None => return false,
        };
        if t > 1048576 {
            return true;
        }
        let padded = (s + 511) / 512 * 512;
        if ((b.len() - p - 512) as u64) < padded {
            return true;
        }
        if kind != 3 {
            let c = p + 512;
            let sl = if s > 0 && b[c + s as usize - 1] == 0 { s - 1 } else { s };
            if sl > 4096 {
                return true;
            }
        }
        p = p + 512 + padded as usize;
        m = t;
        l = l || kind == 1;
        k = k || kind == 2;
        x = x || kind == 3;
    }
}

proof fn lemma_round512_fits(s: nat)
    requires
        s <= u64::MAX,
    ensures
        round512(s) <= u64::MAX <==> s <= u64::MAX - 511,
        s <= round512(s),
        s <= u64::MAX - 511 ==> round512(s) <= s + 511,
{
    let q = (s + 511) / 512;
    vstd::arithmetic::div_mod::lemma_fundamental_div_mod((s + 511) as int, 512);
    vstd::arithmetic::div_mod::lemma_mod_bound((s + 511) as int, 512);
    if s > u64::MAX - 511 {
        assert(q * 512 >= 0x1_0000_0000_0000_0000) by (nonlinear_arith)
            requires
                q * 512 + (s + 511) % 512 == s + 511,
                (s + 511) % 512 < 512,
                s + 511 >= 0x1_0000_0000_0000_0000,
        {
            assert(q >= 0x80_0000_0000_0000);
        }
    }
}

} // verus!

use vstd::prelude::*;

use crate::text::{
    all_digits, dec, digits_value, parse_unsigned_exec, push_char, push_dec, split_char, split_exec,
    unsigned_digits,
};

verus! {

/// An IPv4 address.
#[derive(Clone, Copy, Debug, PartialEq, Eq, Structural)]
pub struct Ipv4Addr {
    pub a: u8,
    pub b: u8,
    pub c: u8,
    pub d: u8,
}

impl Ipv4Addr {
    pub fn new(a: u8, b: u8, c: u8, d: u8) -> (r: Ipv4Addr)
        ensures
            r == (Ipv4Addr { a, b, c, d }),
    {
        Ipv4Addr { a, b, c, d }
    }

    pub fn octets(&self) -> (r: [u8; 4])
        ensures
            r@ == seq![self.a, self.b, self.c, self.d],
    {
        [self.a, self.b, self.c, self.d]
    }

    /// The dotted-quad text of the address.
    pub open spec fn text(self) -> Seq<char> {
        dec(self.a as nat) + seq!['.'] + dec(self.b as nat) + seq!['.'] + dec(self.c as nat)
            + seq!['.'] + dec(self.d as nat)
    }

    /// Appends the dotted-quad text of the address.
    pub fn push_text(&self, out: &mut String)
        ensures
            final(out)@ == old(out)@ + self.text(),
    {
        push_dec(out, self.a as u64);
        push_char(out, '.');
        push_dec(out, self.b as u64);
        push_char(out, '.');
        push_dec(out, self.c as u64);
        push_char(out, '.');
        push_dec(out, self.d as u64);
        assert(out@ =~= old(out)@ + self.text());
    }

    /// The dotted-quad text of the address (`to_string`).
    pub fn to_text(&self) -> (r: String)
        ensures
            r@ == self.text(),
    {
        let mut s = String::new();
        self.push_text(&mut s);
        s
    }
}

/// One dotted field of an IPv4 address as `Ipv4Addr::from_str` accepts it:
/// one to three decimal digits, no leading zero, at most 255.
pub open spec fn octet_field(s: Seq<char>) -> Option<u8> {
    if 1 <= s.len() <= 3 && all_digits(s) && !(s.len() > 1 && s[0] == '0') && digits_value(s)
        <= 255 {
        Some(digits_value(s) as u8)
    } else {
        None
    }
}

/// `Ipv4Addr::from_str`: exactly four dot-separated fields.
pub open spec fn parse_ipv4(s: Seq<char>) -> Option<Ipv4Addr> {
    let p = split_char(s, '.');
    if p.len() == 4 && octet_field(p[0]) is Some && octet_field(p[1]) is Some && octet_field(p[2]) is Some
        && octet_field(p[3]) is Some {
        Some(Ipv4Addr { a: octet_field(p[0])->0, b: octet_field(p[1])->0, c: octet_field(p[2])->0, d: octet_field(p[3])->0 })
    } else {
        None
    }
}

fn octet_field_exec(s: &[char]) -> (r: Option<u8>)
    ensures
        r == octet_field(s@),
{
    if s.len() < 1 || s.len() > 3 || (s.len() > 1 && s[0] == '0') {
        return None;
    }
    if s[0] == '+' {
        assert(!all_digits(s@));
        return None;
    }
    assert(unsigned_digits(s@) == s@);
    match parse_unsigned_exec(s, 255) {
        Some(v) => Some(v as u8),
        None => None,
    }
}

/// Parses dotted-quad text (`str::parse::<Ipv4Addr>`).
pub fn parse_ipv4_exec(s: &[char]) -> (r: Option<Ipv4Addr>)
    ensures
        r == parse_ipv4(s@),
{
    let p = split_exec(s, '.');
    if p.len() != 4 {
        return None;
    }
    let a = octet_field_exec(p[0].as_slice());
    let b = octet_field_exec(p[1].as_slice());
    let c = octet_field_exec(p[2].as_slice());
    let d = octet_field_exec(p[3].as_slice());
    match (a, b, c, d) {
        (Some(a), Some(b), Some(c), Some(d)) => Some(Ipv4Addr { a, b, c, d }),
        _ => None,
    }
}

} // verus!

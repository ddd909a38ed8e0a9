use vstd::prelude::*;

use crate::deps::{TlsPing, TlsPingResult};
use crate::target::{parse_host_port, target_with_default};
use crate::text::{dec, owned, push_dec};

verus! {

pub open spec fn tlsping_usage() -> Seq<char> {
    "usage: tlsping <host[:port]>"@
}

/// The host and port that `tlsping` measures.
pub open spec fn tlsping_target(args: Seq<String>) -> Result<(Seq<char>, u16), Seq<char>> {
    if args.len() != 1 {
        Err(tlsping_usage())
    } else {
        match target_with_default(args[0]@) {
            Ok(t) => Ok(t),
            Err(_) => Err(tlsping_usage()),
        }
    }
}

/// Reads `<host[:port]>`; the port is 443 unless given.
pub fn parse_target(args: &[String]) -> (r: Result<(String, u16), String>)
    ensures
        match tlsping_target(args@) {
            Ok((h, p)) => r matches Ok((hh, pp)) && hh@ == h && pp == p,
            Err(msg) => r matches Err(e) && e@ == msg,
        },
{
    if args.len() != 1 {
        return Err(owned("usage: tlsping <host[:port]>"));
    }
    match parse_host_port(args[0].as_str()) {
        Ok(t) => Ok(t),
        Err(_) => Err(owned("usage: tlsping <host[:port]>")),
    }
}

/// The report of a measurement.
pub open spec fn timing_text(r: TlsPingResult) -> Seq<char> {
    "tcp   "@ + dec(r.tcp_ms as nat) + "ms\n"@ + "tls   "@ + dec(r.tls_ms as nat) + "ms\n"@
        + "total "@ + dec((r.tcp_ms + r.tls_ms) as nat) + "ms\n"@
}

/// Appends the TCP, TLS and total times.
pub fn print_timings(out: &mut String, r: &TlsPingResult)
    ensures
        final(out)@ == old(out)@ + timing_text(*r),
{
    out.append("tcp   ");
    push_dec(out, r.tcp_ms);
    out.append("ms\n");
    out.append("tls   ");
    push_dec(out, r.tls_ms);
    out.append("ms\n");
    out.append("total ");
    let total: u128 = r.tcp_ms as u128 + r.tls_ms as u128;
    push_dec_u128(out, total);
    out.append("ms\n");
    assert(out@ =~= old(out)@ + timing_text(*r));
}

/// Appends the decimal representation of a `u128`.
pub fn push_dec_u128(out: &mut String, n: u128)
    ensures
        final(out)@ == old(out)@ + dec(n as nat),
    decreases n,
{
    if n >= 10 {
        push_dec_u128(out, n / 10);
    }
    push_char_digit(out, (n % 10) as u64);
}

fn push_char_digit(out: &mut String, d: u64)
    requires
        d < 10,
    ensures
        final(out)@ == old(out)@.push(crate::text::digit_char(d as nat)),
{
    crate::text::push_char(out, crate::text::digit_to_char(d));
}

/// Measures TCP and TLS handshake latency to a host.
pub fn run<T: TlsPing>(out: &mut String, net: &T, args: &[String]) -> (r: Result<(), String>)
    ensures
        tlsping_target(args@) matches Err(msg) ==> (r matches Err(e) && e@ == msg),
        r is Ok ==> exists|t: TlsPingResult| final(out)@ == old(out)@ + #[trigger] timing_text(t),
        r is Err ==> final(out)@ == old(out)@,
{
    let (host, port) = parse_target(args)?;
    let res = net.ping(host.as_str(), port)?;
    print_timings(out, &res);
    Ok(())
}

} // verus!

use vstd::prelude::*;

use crate::deps::{CipherProbe, CipherResult};
use crate::target::{parse_host_port, target_with_default, TargetError};
use crate::text::owned;

verus! {

pub open spec fn ciphers_usage() -> Seq<char> {
    "usage: ciphers <host[:port]>"@
}

/// The host and port that `ciphers` probes.
pub open spec fn ciphers_target(args: Seq<String>) -> Result<(Seq<char>, u16), Seq<char>> {
    if args.len() != 1 {
        Err(ciphers_usage())
    } else {
        match target_with_default(args[0]@) {
            Ok(t) => Ok(t),
            Err(_) => Err(ciphers_usage()),
        }
    }
}

/// Reads `<host[:port]>`; the port is 443 unless given.
pub fn parse_target(args: &[String]) -> (r: Result<(String, u16), String>)
    ensures
        match ciphers_target(args@) {
            Ok((h, p)) => r matches Ok((hh, pp)) && hh@ == h && pp == p,
            Err(msg) => r matches Err(e) && e@ == msg,
        },
{
    if args.len() != 1 {
        return Err(owned("usage: ciphers <host[:port]>"));
    }
    match parse_host_port(args[0].as_str()) {
        Ok(t) => Ok(t),
        Err(_) => Err(owned("usage: ciphers <host[:port]>")),
    }
}

pub open spec fn ok_no(b: bool) -> Seq<char> {
    if b { "ok"@ } else { "no"@ }
}

/// The report for a probe result.
pub open spec fn cipher_text(r: CipherResult) -> Seq<char> {
    "TLS_AES_128_GCM_SHA256       "@ + ok_no(r.aes128_gcm_sha256) + "\n"@
        + "TLS_AES_256_GCM_SHA384       "@ + ok_no(r.aes256_gcm_sha384) + "\n"@
        + "TLS_CHACHA20_POLY1305_SHA256 "@ + ok_no(r.chacha20_poly1305_sha256) + "\n"@
}

fn ok_no_exec(b: bool) -> (r: &'static str)
    ensures
        r@ == ok_no(b),
{
    if b { "ok" } else { "no" }
}

/// Appends one line per TLS 1.3 cipher suite.
pub fn print_ciphers(out: &mut String, r: &CipherResult)
    ensures
        final(out)@ == old(out)@ + cipher_text(*r),
{
    out.append("TLS_AES_128_GCM_SHA256       ");
    out.append(ok_no_exec(r.aes128_gcm_sha256));
    out.append("\n");
    out.append("TLS_AES_256_GCM_SHA384       ");
    out.append(ok_no_exec(r.aes256_gcm_sha384));
    out.append("\n");
    out.append("TLS_CHACHA20_POLY1305_SHA256 ");
    out.append(ok_no_exec(r.chacha20_poly1305_sha256));
    out.append("\n");
    assert(out@ =~= old(out)@ + cipher_text(*r));
}

/// Probes the TLS 1.3 cipher suites of a host.
pub fn run<P: CipherProbe>(out: &mut String, probe: &P, args: &[String]) -> (r: Result<(), String>)
    ensures
        ciphers_target(args@) matches Err(msg) ==> (r matches Err(e) && e@ == msg),
        r is Ok ==> exists|c: CipherResult| final(out)@ == old(out)@ + #[trigger] cipher_text(c),
        r is Err ==> final(out)@ == old(out)@,
{
    let (host, port) = parse_target(args)?;
    let res = probe.probe_ciphers(host.as_str(), port)?;
    print_ciphers(out, &res);
    Ok(())
}

} // verus!

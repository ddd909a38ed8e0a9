use vstd::prelude::*;

use crate::certwatch::{cert_not_after, cert_views, leaf_expiry, leaf_expiry_spec, not_after};
use crate::deps::{TlsCheck, TlsInfo, TlsOptions};
use crate::hash::{digest, hash_bytes, hex, Algo};
use crate::target::{split_host_port, split_host_port_exec};
use crate::text::{chars_of, dec, eq_lit, owned, parse_unsigned, parse_unsigned_exec, push_dec, views};

verus! {

pub open spec fn tlscheck_usage() -> Seq<char> {
    "usage: tlscheck [-p port] <host[:port]>"@
}

/// A port as `-p` or `host:port` gives it: a number from 1 to 65535.
pub open spec fn port_of(s: Seq<char>) -> Option<u16> {
    match parse_unsigned(s, 65535) {
        Some(p) => if p == 0 {
            None
        } else {
            Some(p as u16)
        },
        None => None,
    }
}

/// Reads a port.
pub fn parse_port(value: Option<&str>) -> (r: Result<u16, String>)
    ensures
        match value {
            Some(v) => match port_of(v@) {
                Some(p) => r == Ok::<u16, String>(p),
                None => r matches Err(e) && e@ == tlscheck_usage(),
            },
            None => r matches Err(e) && e@ == tlscheck_usage(),
        },
{
    let v = match value {
        Some(v) => v,
        None => return Err(owned("usage: tlscheck [-p port] <host[:port]>")),
    };
    let cs = chars_of(v);
    match parse_unsigned_exec(cs.as_slice(), 65535) {
        Some(p) => if p == 0 {
            Err(owned("usage: tlscheck [-p port] <host[:port]>"))
        } else {
            Ok(p as u16)
        },
        None => Err(owned("usage: tlscheck [-p port] <host[:port]>")),
    }
}

/// Splits `[https://|tls://]host[:port][/path]`.
pub fn parse_host(raw: &str) -> (r: Result<(String, Option<u16>), String>)
    ensures
        match split_host_port(raw@) {
            Ok((h, p)) => r matches Ok((hh, pp)) && hh@ == h && pp == p,
            Err(_) => r matches Err(e) && e@ == tlscheck_usage(),
        },
{
    match split_host_port_exec(raw) {
        Ok(t) => Ok(t),
        Err(_) => Err(owned("usage: tlscheck [-p port] <host[:port]>")),
    }
}

/// What to print about the certificates once the service is verified.
#[derive(PartialEq, Eq, Clone, Copy, Debug)]
pub enum Report {
    /// Nothing more than that the check passed.
    Status,
    /// A summary of the leaf certificate (`--cert`).
    Cert,
    /// A summary of each certificate of the chain (`--chain`).
    Chain,
    /// When the leaf certificate expires (`--expiry`).
    Expiry,
    /// The SHA-256 fingerprint of the leaf certificate (`--fingerprint`).
    Fingerprint,
}

pub struct Target {
    pub host: String,
    pub port: u16,
    /// The name asked for in the handshake (`--name`), where it is not the host.
    pub name: Option<String>,
    /// What to print; the last report flag given wins.
    pub report: Report,
}

/// The report that a flag asks for, if it is one of the report flags.
pub open spec fn report_flag(a: Seq<char>) -> Option<Report> {
    if a == "--cert"@ {
        Some(Report::Cert)
    } else if a == "--chain"@ {
        Some(Report::Chain)
    } else if a == "--expiry"@ {
        Some(Report::Expiry)
    } else if a == "--fingerprint"@ {
        Some(Report::Fingerprint)
    } else {
        None
    }
}

/// The host, port, server name and report that the arguments from `i` on
/// select, given what the earlier ones selected. `-p port` and `--name
/// name` take a value; `--cert`, `--chain`, `--expiry` and `--fingerprint`
/// choose the report.
pub open spec fn parse_target(
    args: Seq<Seq<char>>,
    i: int,
    host: Option<Seq<char>>,
    port: Option<u16>,
    name: Option<Seq<char>>,
    report: Report,
) -> Result<(Seq<char>, u16, Option<Seq<char>>, Report), Seq<char>>
    decreases args.len() - i,
{
    if i < 0 || i >= args.len() {
        match host {
            Some(h) => Ok((h, match port { Some(p) => p, None => 443 }, name, report)),
            None => Err(tlscheck_usage()),
        }
    } else if args[i] == "-p"@ {
        if i + 1 >= args.len() {
            Err(tlscheck_usage())
        } else {
            match port_of(args[i + 1]) {
                Some(p) => parse_target(args, i + 2, host, Some(p), name, report),
                None => Err(tlscheck_usage()),
            }
        }
    } else if args[i] == "--name"@ {
        if i + 1 >= args.len() {
            Err(tlscheck_usage())
        } else {
            parse_target(args, i + 2, host, port, Some(args[i + 1]), report)
        }
    } else if report_flag(args[i]) is Some {
        parse_target(args, i + 1, host, port, name, report_flag(args[i])->0)
    } else if !(args[i].len() > 0 && args[i][0] == '-') && host is None {
        match split_host_port(args[i]) {
            Ok((h, p)) => parse_target(args, i + 1, Some(h), if p is Some { p } else { port }, name, report),
            Err(_) => Err(tlscheck_usage()),
        }
    } else {
        Err(tlscheck_usage())
    }
}

pub open spec fn opt_str(o: Option<String>) -> Option<Seq<char>> {
    match o {
        Some(s) => Some(s@),
        None => None,
    }
}

impl Target {
    /// Reads `[--cert|--chain|--expiry|--fingerprint] [--name name] [-p port]
    /// <host[:port]>`; the port is 443 unless given.
    pub fn parse(args: &[String]) -> (r: Result<Target, String>)
        ensures
            match parse_target(views(args@), 0, None, None, None, Report::Status) {
                Ok((h, p, n, k)) => r matches Ok(t) && t.host@ == h && t.port == p && opt_str(t.name) == n
                    && t.report == k,
                Err(msg) => r matches Err(e) && e@ == msg,
            },
    {
        let ghost a = views(args@);
        let mut port: Option<u16> = None;
        let mut host: Option<String> = None;
        let mut name: Option<String> = None;
        let mut report = Report::Status;
        let mut i: usize = 0;
        while i < args.len()
            invariant
                i <= args@.len(),
                a == views(args@),
                parse_target(a, 0, None, None, None, Report::Status) == parse_target(
                    a,
                    i as int,
                    opt_str(host),
                    port,
                    opt_str(name),
                    report,
                ),
            decreases args.len() - i,
        {
            let arg = chars_of(args[i].as_str());
            assert(a[i as int] == arg@);
            if eq_lit(arg.as_slice(), "-p") {
                if i + 1 >= args.len() {
                    return Err(owned("usage: tlscheck [-p port] <host[:port]>"));
                }
                assert(a[i + 1] == args@[i + 1]@);
                port = Some(parse_port(Some(args[i + 1].as_str()))?);
                i = i + 2;
            } else if eq_lit(arg.as_slice(), "--name") {
                if i + 1 >= args.len() {
                    return Err(owned("usage: tlscheck [-p port] <host[:port]>"));
                }
                assert(a[i + 1] == args@[i + 1]@);
                name = Some(args[i + 1].clone());
                i = i + 2;
            } else if eq_lit(arg.as_slice(), "--cert") {
                report = Report::Cert;
                i = i + 1;
            } else if eq_lit(arg.as_slice(), "--chain") {
                report = Report::Chain;
                i = i + 1;
            } else if eq_lit(arg.as_slice(), "--expiry") {
                report = Report::Expiry;
                i = i + 1;
            } else if eq_lit(arg.as_slice(), "--fingerprint") {
                report = Report::Fingerprint;
                i = i + 1;
            } else if !(arg.len() > 0 && arg[0] == '-') && host.is_none() {
                let (h, p) = parse_host(args[i].as_str())?;
                host = Some(h);
                if p.is_some() {
                    port = p;
                }
                i = i + 1;
            } else {
                return Err(owned("usage: tlscheck [-p port] <host[:port]>"));
            }
        }
        match host {
            Some(h) => Ok(Target {
                host: h,
                port: match port {
                    Some(p) => p,
                    None => 443,
                },
                name,
                report,
            }),
            None => Err(owned("usage: tlscheck [-p port] <host[:port]>")),
        }
    }
}

/// The summary line of certificate `i` of a chain: its size and when it
/// expires.
pub open spec fn cert_line(i: nat, c: Seq<u8>) -> Seq<char> {
    "cert "@ + dec(i) + ": "@ + dec(c.len()) + " bytes, expires "@ + match cert_not_after(c) {
        Some(t) => t,
        None => "unknown"@,
    } + "\n"@
}

/// The summary lines of the certificates `certs`, numbered from 0.
pub open spec fn chain_lines(certs: Seq<Seq<u8>>) -> Seq<char>
    decreases certs.len(),
{
    if certs.len() == 0 {
        seq![]
    } else {
        chain_lines(certs.drop_last()) + cert_line((certs.len() - 1) as nat, certs.last())
    }
}

/// What follows `host:port ok` for the report `k` on the certificates
/// `certs` (leaf first), or the error that stops it.
pub open spec fn report_text(k: Report, certs: Seq<Seq<u8>>) -> Result<Seq<char>, Seq<char>> {
    match k {
        Report::Status => Ok(seq![]),
        Report::Chain => Ok(chain_lines(certs)),
        Report::Expiry => match leaf_expiry_spec(certs) {
            Ok(t) => Ok("expires "@ + t + "\n"@),
            Err(m) => Err(m),
        },
        Report::Cert => if certs.len() == 0 {
            Err("no certificate"@)
        } else {
            Ok(cert_line(0, certs[0]))
        },
        Report::Fingerprint => if certs.len() == 0 {
            Err("no certificate"@)
        } else {
            Ok("sha256 "@ + hex(digest(Algo::Sha256, certs[0])) + "\n"@)
        },
    }
}

fn push_cert_line(out: &mut String, i: usize, c: &[u8])
    ensures
        final(out)@ == old(out)@ + cert_line(i as nat, c@),
{
    out.append("cert ");
    push_dec(out, i as u64);
    out.append(": ");
    push_dec(out, c.len() as u64);
    out.append(" bytes, expires ");
    match not_after(c) {
        Some(t) => out.append(t.as_str()),
        None => out.append("unknown"),
    }
    out.append("\n");
}

/// Writes the report `k` on the certificates of `info`, as `report_text`
/// says.
pub fn report_for(k: Report, info: &TlsInfo) -> (r: Result<String, String>)
    ensures
        match report_text(k, cert_views(info.certs@)) {
            Ok(t) => r matches Ok(s) && s@ == t,
            Err(m) => r matches Err(e) && e@ == m,
        },
{
    let ghost certs = cert_views(info.certs@);
    let mut out = String::new();
    match k {
        Report::Status => {},
        Report::Chain => {
            let mut i: usize = 0;
            while i < info.certs.len()
                invariant
                    i <= info.certs@.len(),
                    certs == cert_views(info.certs@),
                    out@ == chain_lines(certs.take(i as int)),
                decreases info.certs@.len() - i,
            {
                assert(certs.take(i + 1).drop_last() =~= certs.take(i as int));
                assert(certs[i as int] == info.certs@[i as int]@);
                push_cert_line(&mut out, i, info.certs[i].as_slice());
                i = i + 1;
            }
            assert(certs.take(i as int) =~= certs);
        },
        Report::Expiry => {
            let t = leaf_expiry(info)?;
            out.append("expires ");
            out.append(t.as_str());
            out.append("\n");
        },
        Report::Cert => {
            if info.certs.len() == 0 {
                return Err(owned("no certificate"));
            }
            assert(certs[0] == info.certs@[0]@);
            push_cert_line(&mut out, 0, info.certs[0].as_slice());
        },
        Report::Fingerprint => {
            if info.certs.len() == 0 {
                return Err(owned("no certificate"));
            }
            assert(certs[0] == info.certs@[0]@);
            let h = hash_bytes(Algo::Sha256, info.certs[0].as_slice());
            out.append("sha256 ");
            out.append(h.as_str());
            out.append("\n");
        },
    }
    Ok(out)
}

/// Verifies a TLS service, asking for the `--name` given or else the host,
/// and reports `host:port ok`, followed by the report asked for on the
/// certificates that the service presented.
pub fn run<T: TlsCheck>(out: &mut String, tls: &T, args: &[String]) -> (r: Result<(), String>)
    ensures
        match parse_target(views(args@), 0, None, None, None, Report::Status) {
            Ok((h, p, _, k)) => r is Ok ==> exists|certs: Seq<Seq<u8>>|
                #[trigger] report_text(k, certs) matches Ok(t) && final(out)@ == old(out)@ + h + ":"@ + dec(
                    p as nat,
                ) + " ok\n"@ + t,
            Err(msg) => r matches Err(e) && e@ == msg,
        },
        r is Err ==> final(out)@ == old(out)@,
{
    let target = Target::parse(args)?;
    let server_name = match &target.name {
        Some(n) => n.as_str(),
        None => target.host.as_str(),
    };
    let options = TlsOptions { server_name };
    let info = tls.check_tls(target.host.as_str(), target.port, &options)?;
    let text = report_for(target.report, &info)?;
    out.append(target.host.as_str());
    out.append(":");
    push_dec(out, target.port as u64);
    out.append(" ok\n");
    out.append(text.as_str());
    Ok(())
}

} // verus!

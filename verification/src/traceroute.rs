use vstd::prelude::*;

use crate::deps::{Dns, HopResult, Probe};
use crate::ipv4::{parse_ipv4, parse_ipv4_exec, Ipv4Addr};
use crate::text::{
    chars_of, dec, eq_lit, millis3, owned, parse_unsigned, parse_unsigned_exec, push_char, push_dec,
    push_millis3, strip_url, strip_url_exec, views,
};

verus! {

pub open spec fn trace_usage() -> Seq<char> {
    "usage: traceroute <host> [-m max_hops] [-q nprobes]"@
}

/// The host, the maximum number of hops and the probes per hop that the
/// arguments from `i` on select, given what the earlier ones selected.
/// Arguments that are not understood are skipped.
pub open spec fn trace_args(
    args: Seq<Seq<char>>,
    i: int,
    host: Option<Seq<char>>,
    max_hops: u8,
    nprobes: u8,
) -> Option<(Seq<char>, u8, u8)>
    decreases args.len() - i,
{
    if i < 0 || i >= args.len() {
        match host {
            Some(h) => Some((h, max_hops, nprobes)),
            None => None,
        }
    } else if args[i] == "-m"@ {
        if i + 1 >= args.len() {
            None
        } else {
            match parse_unsigned(args[i + 1], 255) {
                Some(v) => trace_args(args, i + 2, host, v as u8, nprobes),
                None => None,
            }
        }
    } else if args[i] == "-q"@ {
        if i + 1 >= args.len() {
            None
        } else {
            match parse_unsigned(args[i + 1], 255) {
                Some(v) => if v > 0 {
                    trace_args(args, i + 2, host, max_hops, v as u8)
                } else {
                    None
                },
                None => None,
            }
        }
    } else if !(args[i].len() > 0 && args[i][0] == '-') && host is None {
        trace_args(args, i + 1, Some(args[i]), max_hops, nprobes)
    } else {
        trace_args(args, i + 1, host, max_hops, nprobes)
    }
}

/// Reads `<host> [-m max_hops] [-q nprobes]`; 30 hops and 3 probes unless given.
pub fn parse_args(args: &[String]) -> (r: Result<(String, u8, u8), String>)
    ensures
        match trace_args(views(args@), 0, None, 30, 3) {
            Some((h, m, n)) => r matches Ok((hh, mm, nn)) && hh@ == h && mm == m && nn == n,
            None => r matches Err(e) && e@ == trace_usage(),
        },
{
    let ghost a = views(args@);
    let mut host: Option<String> = None;
    let mut max_hops: u8 = 30;
    let mut nprobes: u8 = 3;
    let mut i: usize = 0;
    while i < args.len()
        invariant
            i <= args@.len(),
            a == views(args@),
            trace_args(a, 0, None, 30, 3) == trace_args(
                a,
                i as int,
                match host {
                    Some(h) => Some(h@),
                    None => None,
                },
                max_hops,
                nprobes,
            ),
        decreases args.len() - i,
    {
        let arg = chars_of(args[i].as_str());
        assert(a[i as int] == arg@);
        if eq_lit(arg.as_slice(), "-m") || eq_lit(arg.as_slice(), "-q") {
            if i + 1 >= args.len() {
                return Err(owned("usage: traceroute <host> [-m max_hops] [-q nprobes]"));
            }
            let v = chars_of(args[i + 1].as_str());
            assert(a[i + 1] == v@);
            let n = match parse_unsigned_exec(v.as_slice(), 255) {
                Some(n) => n,
                None => return Err(owned("usage: traceroute <host> [-m max_hops] [-q nprobes]")),
            };
            if eq_lit(arg.as_slice(), "-m") {
                max_hops = n as u8;
            } else {
                if n == 0 {
                    return Err(owned("usage: traceroute <host> [-m max_hops] [-q nprobes]"));
                }
                nprobes = n as u8;
            }
            i = i + 2;
        } else {
            if !(arg.len() > 0 && arg[0] == '-') && host.is_none() {
                host = Some(args[i].clone());
            }
            i = i + 1;
        }
    }
    match host {
        Some(h) => Ok((h, max_hops, nprobes)),
        None => Err(owned("usage: traceroute <host> [-m max_hops] [-q nprobes]")),
    }
}

/// The address of the first reply of a hop.
pub open spec fn hop_addr(rs: Seq<HopResult>) -> Option<Ipv4Addr>
    decreases rs.len(),
{
    if rs.len() == 0 {
        None
    } else {
        match rs[0] {
            HopResult::Reply { from, .. } => Some(from),
            HopResult::Timeout => hop_addr(rs.drop_first()),
        }
    }
}

/// Whether a probe result is an Echo Reply from the destination.
pub open spec fn reply_reached(r: HopResult) -> bool {
    r matches HopResult::Reply { reached, .. } && reached
}

/// Whether a probe of the hop reached the destination.
pub open spec fn hop_reached(rs: Seq<HopResult>) -> bool {
    exists|i: int| 0 <= i < rs.len() && #[trigger] reply_reached(rs[i])
}

pub open spec fn rtt_part(r: HopResult) -> Seq<char> {
    match r {
        HopResult::Reply { rtt, .. } => "  "@ + millis3(rtt as nat) + " ms"@,
        HopResult::Timeout => "  *"@,
    }
}

pub open spec fn rtt_parts(rs: Seq<HopResult>) -> Seq<char>
    decreases rs.len(),
{
    if rs.len() == 0 {
        seq![]
    } else {
        rtt_parts(rs.drop_last()) + rtt_part(rs.last())
    }
}

/// `{ttl:>2}`: the hop number right-aligned in two places.
pub open spec fn pad_ttl(ttl: nat) -> Seq<char> {
    if ttl < 10 {
        seq![' '] + dec(ttl)
    } else {
        dec(ttl)
    }
}

/// The line printed for hop `ttl`.
pub open spec fn hop_line(ttl: nat, rs: Seq<HopResult>) -> Seq<char> {
    pad_ttl(ttl) + "  "@ + match hop_addr(rs) {
        Some(a) => a.text(),
        None => "*"@,
    } + rtt_parts(rs) + "\n"@
}

pub open spec fn hops_text(hops: Seq<Seq<HopResult>>) -> Seq<char>
    decreases hops.len(),
{
    if hops.len() == 0 {
        seq![]
    } else {
        hops_text(hops.drop_last()) + hop_line(hops.len(), hops.last())
    }
}

pub open spec fn trace_header(host: Seq<char>, dest: Ipv4Addr, max_hops: u8) -> Seq<char> {
    "traceroute to "@ + host + " ("@ + dest.text() + "), "@ + dec(max_hops as nat) + " hops max\n"@
}

/// The whole report: the header, then one line per hop.
pub open spec fn trace_text(
    host: Seq<char>,
    dest: Ipv4Addr,
    max_hops: u8,
    hops: Seq<Seq<HopResult>>,
) -> Seq<char> {
    trace_header(host, dest, max_hops) + hops_text(hops)
}

/// Whether `hops` is a run of the probe loop: `nprobes` results per hop, at
/// most `max_hops` hops, stopping after the first hop that reached the
/// destination.
pub open spec fn well_run(hops: Seq<Seq<HopResult>>, max_hops: u8, nprobes: u8) -> bool {
    &&& hops.len() <= max_hops
    &&& forall|k: int| 0 <= k < hops.len() ==> (#[trigger] hops[k]).len() == nprobes
    &&& forall|k: int| 0 <= k < hops.len() - 1 ==> !hop_reached(#[trigger] hops[k])
    &&& hops.len() < max_hops ==> hops.len() > 0 && hop_reached(hops.last())
}

/// The sequence number of probe `p` of the hop with time to live `ttl`.
pub fn probe_seq(ttl: u8, p: u8) -> (r: u16)
    ensures
        r == ttl * 3 + p,
{
    (ttl as u16) * 3 + (p as u16)
}

/// The line printed for hop `ttl` whose probes gave `results`.
pub fn hop_text(ttl: u8, results: &[HopResult]) -> (r: String)
    ensures
        r@ == hop_line(ttl as nat, results@),
{
    let ghost mut rs: Seq<HopResult> = seq![];
    let mut first: Option<Ipv4Addr> = None;
    let mut line = String::new();
    let mut i: usize = 0;
    while i < results.len()
        invariant
            i <= results@.len(),
            rs == results@.take(i as int),
            first == hop_addr(rs),
            line@ == rtt_parts(rs),
        decreases results.len() - i,
    {
        let res = results[i];
        let ghost nr = rs.push(res);
        proof {
            assert(nr.drop_last() =~= rs);
            assert(nr =~= results@.take(i + 1));
            lemma_hop_addr_push(rs, res);
        }
        match res {
            HopResult::Reply { from, rtt, .. } => {
                if first.is_none() {
                    first = Some(from);
                }
                line.append("  ");
                push_millis3(&mut line, rtt as u128);
                line.append(" ms");
            },
            HopResult::Timeout => {
                line.append("  *");
            },
        }
        proof {
            rs = nr;
        }
        assert(line@ =~= rtt_parts(rs));
        i = i + 1;
    }
    assert(rs =~= results@);
    let mut out = String::new();
    if ttl < 10 {
        push_char(&mut out, ' ');
    }
    push_dec(&mut out, ttl as u64);
    out.append("  ");
    match first {
        Some(a) => a.push_text(&mut out),
        None => out.append("*"),
    }
    out.append(line.as_str());
    out.append("\n");
    assert(out@ =~= hop_line(ttl as nat, results@));
    out
}

/// Whether a probe of the hop reached the destination.
pub fn hop_reached_exec(results: &[HopResult]) -> (r: bool)
    ensures
        r == hop_reached(results@),
{
    let ghost mut rs: Seq<HopResult> = seq![];
    let mut reached = false;
    let mut i: usize = 0;
    while i < results.len()
        invariant
            i <= results@.len(),
            rs == results@.take(i as int),
            reached == hop_reached(rs),
        decreases results.len() - i,
    {
        let res = results[i];
        proof {
            lemma_hop_reached_push(rs, res);
            assert(rs.push(res) =~= results@.take(i + 1));
            rs = rs.push(res);
        }
        match res {
            HopResult::Reply { reached: got, .. } => {
                if got {
                    reached = true;
                }
            },
            HopResult::Timeout => {},
        }
        i = i + 1;
    }
    assert(rs =~= results@);
    reached
}

/// Runs the probes of one hop (probe `p` with sequence number
/// `probe_seq(ttl, p)`), appends its line and returns whether the
/// destination answered. A failed probe stops the hop with nothing
/// written; with no probes to run the hop is a line without replies.
fn probe_hop<P: Probe>(out: &mut String, probe: &P, dest: Ipv4Addr, ttl: u8, nprobes: u8, data: &[u8]) -> (r: Result<bool, String>)
    requires
        ttl >= 1,
    ensures
        r matches Ok(reached) ==> exists|rs: Seq<HopResult>| {
            &&& rs.len() == nprobes
            &&& reached == hop_reached(rs)
            &&& final(out)@ == old(out)@ + #[trigger] hop_line(ttl as nat, rs)
        },
        r is Err ==> final(out)@ == old(out)@,
        nprobes == 0 ==> r == Ok::<bool, String>(false) && final(out)@ == old(out)@ + hop_line(ttl as nat, seq![]),
{
    let mut results: Vec<HopResult> = Vec::new();
    let mut p: u8 = 0;
    while p < nprobes
        invariant
            p <= nprobes,
            results@.len() == p,
            out@ == old(out)@,
        decreases nprobes - p,
    {
        let res = probe.probe(dest, ttl, probe_seq(ttl, p), data)?;
        results.push(res);
        p = p + 1;
    }
    let line = hop_text(ttl, results.as_slice());
    let reached = hop_reached_exec(results.as_slice());
    out.append(line.as_str());
    proof {
        if nprobes == 0 {
            assert(results@ =~= Seq::<HopResult>::empty());
        }
    }
    Ok(reached)
}

proof fn lemma_hop_addr_push(rs: Seq<HopResult>, r: HopResult)
    ensures
        hop_addr(rs.push(r)) == match hop_addr(rs) {
            Some(a) => Some(a),
            None => match r {
                HopResult::Reply { from, .. } => Some(from),
                HopResult::Timeout => None,
            },
        },
    decreases rs.len(),
{
    if rs.len() > 0 {
        assert(rs.push(r)[0] == rs[0]);
        assert(rs.push(r).drop_first() =~= rs.drop_first().push(r));
        lemma_hop_addr_push(rs.drop_first(), r);
    } else {
        assert(rs.push(r)[0] == r);
        assert(rs.push(r).drop_first() =~= Seq::<HopResult>::empty());
        assert(hop_addr(Seq::<HopResult>::empty()) is None);
    }
}

proof fn lemma_hop_reached_push(rs: Seq<HopResult>, r: HopResult)
    ensures
        hop_reached(rs.push(r)) == (hop_reached(rs) || reply_reached(r)),
{
    let nr = rs.push(r);
    if hop_reached(rs) {
        let i = choose|i: int| 0 <= i < rs.len() && #[trigger] reply_reached(rs[i]);
        assert(nr[i] == rs[i]);
    }
    if reply_reached(r) {
        assert(nr[rs.len() as int] == r);
    }
    if hop_reached(nr) {
        let i = choose|i: int| 0 <= i < nr.len() && #[trigger] reply_reached(nr[i]);
        if i < rs.len() {
            assert(nr[i] == rs[i]);
        }
    }
}

/// Traces the route to a host, one line per hop, stopping at the hop that
/// reaches the destination.
pub fn run<P: Probe, D: Dns>(out: &mut String, probe: &P, dns: &D, args: &[String]) -> (r: Result<(), String>)
    ensures
        trace_args(views(args@), 0, None, 30, 3) is None ==> (r matches Err(e) && e@ == trace_usage()),
        r is Ok ==> (trace_args(views(args@), 0, None, 30, 3) matches Some((h, m, n)) && exists|dest: Ipv4Addr, hops: Seq<Seq<HopResult>>| {
            &&& well_run(hops, m, n)
            &&& (parse_ipv4(strip_url(h)) matches Some(a) ==> dest == a)
            &&& final(out)@ == old(out)@ + #[trigger] trace_text(strip_url(h), dest, m, hops)
        }),
{
    let (raw_host, max_hops, nprobes) = parse_args(args)?;
    let host = strip_url_exec(raw_host.as_str());
    let host_chars = chars_of(host.as_str());
    let dest = match parse_ipv4_exec(host_chars.as_slice()) {
        Some(a) => a,
        None => {
            let addrs = dns.lookup_a(host.as_str())?;
            if addrs.len() == 0 {
                return Err(owned("no A records found"));
            }
            addrs[0]
        },
    };
    out.append("traceroute to ");
    out.append(host.as_str());
    out.append(" (");
    dest.push_text(out);
    out.append("), ");
    push_dec(out, max_hops as u64);
    out.append(" hops max\n");
    let ghost head = out@;
    assert(head =~= old(out)@ + trace_header(host@, dest, max_hops));
    let data: Vec<u8> = vec![104, 97, 107, 111, 104, 97, 107, 111];
    let ghost mut hops: Seq<Seq<HopResult>> = seq![];
    let mut k: u8 = 0;
    let mut reached = false;
    while k < max_hops && !reached
        invariant
            k <= max_hops,
            hops.len() == k,
            forall|j: int| 0 <= j < hops.len() ==> (#[trigger] hops[j]).len() == nprobes,
            forall|j: int| 0 <= j < hops.len() - 1 ==> !hop_reached(#[trigger] hops[j]),
            !reached ==> forall|j: int| 0 <= j < hops.len() ==> !hop_reached(#[trigger] hops[j]),
            reached ==> hops.len() > 0 && hop_reached(hops.last()),
            out@ == head + hops_text(hops),
            head == old(out)@ + trace_header(host@, dest, max_hops),
            trace_args(views(args@), 0, None, 30, 3) == Some((raw_host@, max_hops, nprobes)),
            host@ == strip_url(raw_host@),
            parse_ipv4(host@) matches Some(a) ==> dest == a,
        decreases max_hops - k,
    {
        let ttl: u8 = k + 1;
        let ghost before = out@;
        reached = probe_hop(out, probe, dest, ttl, nprobes, data.as_slice())?;
        let ghost rs = choose|rs: Seq<HopResult>| rs.len() == nprobes && reached == hop_reached(rs) && out@ == before + #[trigger] hop_line(ttl as nat, rs);
        proof {
            let nh = hops.push(rs);
            assert(nh.drop_last() =~= hops);
            assert(nh.last() == rs);
            assert forall|j: int| 0 <= j < hops.len() implies nh[j] == hops[j] by {}
            hops = nh;
        }
        k = k + 1;
    }
    assert(well_run(hops, max_hops, nprobes));
    assert(out@ =~= old(out)@ + trace_text(host@, dest, max_hops, hops));
    Ok(())
}

} // verus!

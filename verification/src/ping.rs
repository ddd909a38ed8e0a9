use vstd::prelude::*;

use crate::deps::{Dns, Icmp, Sleeper};
use crate::ipv4::{parse_ipv4, parse_ipv4_exec, Ipv4Addr};
use crate::text::{
    chars_of, dec, eq_lit, millis3, owned, parse_unsigned, parse_unsigned_exec, push_dec,
    push_millis3, views,
};

verus! {

/// The payload of each echo request: `hakohakohakohako`.
pub fn payload() -> (r: Vec<u8>)
    ensures
        r@.len() == 16,
{
    vec![104, 97, 107, 111, 104, 97, 107, 111, 104, 97, 107, 111, 104, 97, 107, 111]
}

/// The index of the first `-c` that has a value after it.
pub open spec fn count_flag(args: Seq<Seq<char>>, i: int) -> Option<int>
    decreases args.len() - i,
{
    if i < 0 || i + 1 >= args.len() {
        None
    } else if args[i] == "-c"@ {
        Some(i)
    } else {
        count_flag(args, i + 1)
    }
}

/// The host and the number of echo requests: the value of the first `-c`,
/// or 4 when there is none or it is not a number.
pub open spec fn ping_args(args: Seq<Seq<char>>) -> Option<(Seq<char>, u16)> {
    if args.len() == 0 {
        None
    } else {
        let count = match count_flag(args, 0) {
            Some(i) => match parse_unsigned(args[i + 1], 65535) {
                Some(n) => n as u16,
                None => 4u16,
            },
            None => 4u16,
        };
        Some((args[0], count))
    }
}

/// Reads `<host> [-c count]`.
pub fn parse_args(args: &[String]) -> (r: Result<(String, u16), String>)
    ensures
        match ping_args(views(args@)) {
            Some((h, c)) => r matches Ok((hh, cc)) && hh@ == h && cc == c,
            None => r matches Err(e) && e@ == "usage: ping <host> [-c count]"@,
        },
{
    if args.len() == 0 {
        return Err(owned("usage: ping <host> [-c count]"));
    }
    let ghost a = views(args@);
    let host = args[0].clone();
    let mut count: u16 = 4;
    let mut i: usize = 0;
    while i < args.len() - 1
        invariant
            args@.len() >= 1,
            i <= args@.len() - 1,
            a == views(args@),
            host@ == a[0],
            count == 4,
            count_flag(a, 0) == count_flag(a, i as int),
        decreases args.len() - i,
    {
        let w = chars_of(args[i].as_str());
        assert(a[i as int] == w@);
        if eq_lit(w.as_slice(), "-c") {
            let v = chars_of(args[i + 1].as_str());
            assert(a[i + 1] == v@);
            match parse_unsigned_exec(v.as_slice(), 65535) {
                Some(n) => {
                    count = n as u16;
                },
                None => {},
            }
            return Ok((host, count));
        }
        i = i + 1;
    }
    Ok((host, count))
}

/// What one echo request gave: the round-trip time in nanoseconds, or the
/// error message.
pub type Outcome = Result<u64, Seq<char>>;

/// The line printed for echo request `seq`.
pub open spec fn reply_line(dest: Ipv4Addr, seq: nat, o: Outcome) -> Seq<char> {
    match o {
        Ok(ns) => dec(24) + " bytes from "@ + dest.text() + ": icmp_seq="@ + dec(seq) + " time="@
            + millis3(ns as nat) + " ms\n"@,
        Err(e) => "Request timeout for icmp_seq="@ + dec(seq) + ": "@ + e + "\n"@,
    }
}

pub open spec fn replies_text(dest: Ipv4Addr, os: Seq<Outcome>) -> Seq<char>
    decreases os.len(),
{
    if os.len() == 0 {
        seq![]
    } else {
        replies_text(dest, os.drop_last()) + reply_line(dest, os.len(), os.last())
    }
}

/// The round-trip times of the echo requests that were answered.
pub open spec fn rtts(os: Seq<Outcome>) -> Seq<nat>
    decreases os.len(),
{
    if os.len() == 0 {
        seq![]
    } else {
        match os.last() {
            Ok(ns) => rtts(os.drop_last()).push(ns as nat),
            Err(_) => rtts(os.drop_last()),
        }
    }
}

pub open spec fn seq_sum(s: Seq<nat>) -> nat
    decreases s.len(),
{
    if s.len() == 0 {
        0
    } else {
        seq_sum(s.drop_last()) + s.last()
    }
}

pub open spec fn seq_min(s: Seq<nat>) -> nat
    decreases s.len(),
{
    if s.len() <= 1 {
        if s.len() == 1 { s[0] } else { 0 }
    } else {
        let m = seq_min(s.drop_last());
        if s.last() < m { s.last() } else { m }
    }
}

pub open spec fn seq_max(s: Seq<nat>) -> nat
    decreases s.len(),
{
    if s.len() <= 1 {
        if s.len() == 1 { s[0] } else { 0 }
    } else {
        let m = seq_max(s.drop_last());
        if s.last() > m { s.last() } else { m }
    }
}

/// The statistics after the replies.
pub open spec fn stats_text(host: Seq<char>, os: Seq<Outcome>) -> Seq<char> {
    let sent = os.len();
    let r = rtts(os);
    let recv = r.len();
    if sent == 0 {
        seq![]
    } else {
        let loss = ((sent - recv) * 100 / sent as int) as nat;
        let head = "\n"@ + "--- "@ + host + " ping statistics ---\n"@ + dec(sent) + " packets transmitted, "@
            + dec(recv) + " received, "@ + dec(loss) + "% packet loss\n"@;
        if recv == 0 {
            head
        } else {
            head + "round-trip min/avg/max = "@ + millis3(seq_min(r)) + "/"@ + millis3(seq_sum(r) / recv)
                + "/"@ + millis3(seq_max(r)) + " ms\n"@
        }
    }
}

/// Everything `ping` prints for a host, its address and the outcomes.
pub open spec fn ping_text(host: Seq<char>, dest: Ipv4Addr, os: Seq<Outcome>) -> Seq<char> {
    "PING "@ + host + " ("@ + dest.text() + ")\n"@ + replies_text(dest, os) + stats_text(host, os)
}

proof fn lemma_rtts_len(os: Seq<Outcome>)
    ensures
        rtts(os).len() <= os.len(),
    decreases os.len(),
{
    if os.len() > 0 {
        lemma_rtts_len(os.drop_last());
    }
}

proof fn lemma_min_max_step(s: Seq<nat>, x: nat)
    ensures
        seq_min(s.push(x)) == if s.len() == 0 { x } else if x < seq_min(s) { x } else { seq_min(s) },
        seq_max(s.push(x)) == if s.len() == 0 { x } else if x > seq_max(s) { x } else { seq_max(s) },
        seq_sum(s.push(x)) == seq_sum(s) + x,
{
    assert(s.push(x).drop_last() =~= s);
}

proof fn lemma_bounds(s: Seq<nat>, bound: nat)
    requires
        forall|i: int| 0 <= i < s.len() ==> s[i] <= bound,
    ensures
        seq_sum(s) <= s.len() * bound,
        seq_max(s) <= bound,
        seq_min(s) <= bound,
    decreases s.len(),
{
    if s.len() > 0 {
        lemma_bounds(s.drop_last(), bound);
        assert(s.drop_last().push(s.last()) =~= s);
        lemma_min_max_step(s.drop_last(), s.last());
        assert(seq_sum(s) <= s.len() * bound) by (nonlinear_arith)
            requires
                seq_sum(s) == seq_sum(s.drop_last()) + s.last(),
                seq_sum(s.drop_last()) <= (s.len() - 1) * bound,
                s.last() <= bound,
                s.len() >= 1;
    }
}

pub open spec fn nat_of(t: u64) -> nat {
    t as nat
}

/// The round-trip times as numbers.
pub open spec fn nat_times(s: Seq<u64>) -> Seq<nat> {
    s.map_values(|t: u64| t as nat)
}

/// Appends the line for an answered echo request.
fn print_reply(out: &mut String, dest: &Ipv4Addr, seq: u16, rtt: u64)
    ensures
        final(out)@ == old(out)@ + reply_line(*dest, seq as nat, Ok::<u64, Seq<char>>(rtt)),
{
    push_dec(out, 24);
    out.append(" bytes from ");
    dest.push_text(out);
    out.append(": icmp_seq=");
    push_dec(out, seq as u64);
    out.append(" time=");
    push_millis3(out, rtt as u128);
    out.append(" ms\n");
    assert(out@ =~= old(out)@ + reply_line(*dest, seq as nat, Ok::<u64, Seq<char>>(rtt)));
}

/// Appends the line for an echo request that failed.
fn print_timeout(out: &mut String, seq: u16, e: &str)
    ensures
        final(out)@ == old(out)@ + "Request timeout for icmp_seq="@ + dec(seq as nat) + ": "@ + e@ + "\n"@,
{
    out.append("Request timeout for icmp_seq=");
    push_dec(out, seq as u64);
    out.append(": ");
    out.append(e);
    out.append("\n");
}

/// The smallest, largest and total round-trip time.
pub fn time_summary(times: &[u64]) -> (r: (u64, u64, u128))
    requires
        1 <= times@.len() <= 65535,
    ensures
        r.0 as nat == seq_min(nat_times(times@)),
        r.1 as nat == seq_max(nat_times(times@)),
        r.2 as nat == seq_sum(nat_times(times@)),
        r.2 <= times@.len() * 0xffff_ffff_ffff_ffffu128,
{
    let ghost r = nat_times(times@);
    let mut min: u64 = times[0];
    let mut max: u64 = times[0];
    let mut sum: u128 = times[0] as u128;
    let mut i: usize = 1;
    proof {
        let t1 = r.take(1);
        assert(t1.drop_last() =~= Seq::<nat>::empty());
        assert(t1.len() == 1);
        assert(t1[0] == times@[0] as nat);
        assert(seq_sum(t1) == seq_sum(t1.drop_last()) + t1.last());
    }
    while i < times.len()
        invariant
            1 <= i <= times@.len(),
            times@.len() <= 65535,
            r == nat_times(times@),
            min as nat == seq_min(r.take(i as int)),
            max as nat == seq_max(r.take(i as int)),
            sum as nat == seq_sum(r.take(i as int)),
            sum <= i * 0xffff_ffff_ffff_ffffu128,
        decreases times.len() - i,
    {
        let t = times[i];
        proof {
            assert(r.take(i + 1) =~= r.take(i as int).push(t as nat));
            lemma_min_max_step(r.take(i as int), t as nat);
        }
        if t < min {
            min = t;
        }
        if t > max {
            max = t;
        }
        assert(sum + t <= (i + 1) * 0xffff_ffff_ffff_ffffu128) by (nonlinear_arith)
            requires
                sum <= i * 0xffff_ffff_ffff_ffffu128,
                t <= 0xffff_ffff_ffff_ffffu64;
        sum = sum + t as u128;
        i = i + 1;
    }
    assert(r.take(i as int) =~= r);
    (min, max, sum)
}

/// Appends the statistics for the outcomes.
pub fn print_stats(out: &mut String, host: &str, sent: u16, times: &[u64], ghost_os: Ghost<Seq<Outcome>>)
    requires
        ghost_os@.len() == sent,
        nat_times(times@) == rtts(ghost_os@),
    ensures
        final(out)@ == old(out)@ + stats_text(host@, ghost_os@),
{
    let ghost os = ghost_os@;
    if sent == 0 {
        return;
    }
    proof {
        lemma_rtts_len(os);
    }
    let recv = times.len();
    let loss: u64 = ((sent as u64 - recv as u64) * 100) / sent as u64;
    out.append("\n");
    out.append("--- ");
    out.append(host);
    out.append(" ping statistics ---\n");
    push_dec(out, sent as u64);
    out.append(" packets transmitted, ");
    push_dec(out, recv as u64);
    out.append(" received, ");
    push_dec(out, loss);
    out.append("% packet loss\n");
    if recv == 0 {
        assert(out@ =~= old(out)@ + stats_text(host@, os));
        return;
    }
    let ghost mid = out@;
    let (min, max, sum) = time_summary(times);
    let avg: u128 = sum / recv as u128;
    assert(avg <= 0xffff_ffff_ffff_ffffu128) by (nonlinear_arith)
        requires
            sum <= recv * 0xffff_ffff_ffff_ffffu128,
            recv >= 1,
            avg == sum / recv as u128;
    out.append("round-trip min/avg/max = ");
    push_millis3(out, min as u128);
    out.append("/");
    push_millis3(out, avg);
    out.append("/");
    push_millis3(out, max as u128);
    out.append(" ms\n");
    assert(mid =~= old(out)@ + "\n"@ + "--- "@ + host@ + " ping statistics ---\n"@ + dec(sent as nat) + " packets transmitted, "@
            + dec(recv as nat) + " received, "@ + dec(loss as nat) + "% packet loss\n"@);
    assert(out@ =~= old(out)@ + stats_text(host@, os));
}

/// Sends ICMP echo requests to an address or host name and prints each reply
/// and the statistics; a second passes between requests.
pub fn run<I: Icmp, D: Dns, S: Sleeper>(
    out: &mut String,
    pinger: &I,
    dns: &D,
    sleeper: &S,
    args: &[String],
) -> (r: Result<(), String>)
    ensures
        ping_args(views(args@)) is None ==> (r matches Err(e) && e@ == "usage: ping <host> [-c count]"@),
        r is Ok ==> (ping_args(views(args@)) matches Some((host, count)) && exists|dest: Ipv4Addr, os: Seq<Outcome>| {
            &&& os.len() == count
            &&& (parse_ipv4(host) matches Some(a) ==> dest == a)
            &&& final(out)@ == old(out)@ + #[trigger] ping_text(host, dest, os)
        }),
        r is Err ==> final(out)@ == old(out)@,
{
    let (host, count) = parse_args(args)?;
    let host_chars = chars_of(host.as_str());
    let dest = match parse_ipv4_exec(host_chars.as_slice()) {
        Some(a) => a,
        None => {
            let addrs = dns.lookup_a(host.as_str())?;
            if addrs.len() == 0 {
                return Err(owned("no A records found"));
            }
            addrs[0]
        },
    };
    let ghost start = out@;
    out.append("PING ");
    out.append(host.as_str());
    out.append(" (");
    dest.push_text(out);
    out.append(")\n");
    let ghost head = out@;
    let data = payload();
    let ghost mut os: Seq<Outcome> = seq![];
    let mut times: Vec<u64> = Vec::new();
    let mut k: u16 = 0;
    assert(nat_times(times@) =~= rtts(os));
    while k < count
        invariant
            k <= count,
            os.len() == k,
            out@ == head + replies_text(dest, os),
            nat_times(times@) == rtts(os),
        decreases count - k,
    {
        let seq: u16 = k + 1;
        match pinger.send_ping(dest, seq, data.as_slice()) {
            Ok(rtt) => {
                print_reply(out, &dest, seq, rtt);
                proof {
                    let no = os.push(Ok::<u64, Seq<char>>(rtt));
                    assert(no.drop_last() =~= os);
                    os = no;
                }
                let ghost before = times@;
                times.push(rtt);
                assert(nat_times(times@) =~= nat_times(before).push(nat_of(rtt)));
            },
            Err(e) => {
                print_timeout(out, seq, e.as_str());
                proof {
                    let no = os.push(Err::<u64, Seq<char>>(e@));
                    assert(no.drop_last() =~= os);
                    os = no;
                }
            },
        }
        assert(out@ =~= head + replies_text(dest, os));
        if seq < count {
            sleeper.sleep(1);
        }
        k = k + 1;
    }
    assert(os.len() == count);
    print_stats(out, host.as_str(), count, times.as_slice(), Ghost(os));
    assert(out@ =~= start + ping_text(host@, dest, os));
    Ok(())
}

} // verus!

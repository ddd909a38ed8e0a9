use vstd::prelude::*;

use crate::deps::Dns;
use crate::ipv4::{parse_ipv4, parse_ipv4_exec};
use crate::text::{chars_of, line_block, owned, push_lines, views};

verus! {

/// What `dnsname` prints for the names it found.
pub open spec fn names_text(ip: Seq<char>, names: Seq<Seq<char>>) -> Seq<char> {
    if names.len() == 0 {
        ip + ": no PTR records found\n"@
    } else {
        line_block(names)
    }
}

/// Looks up the PTR names of an IPv4 address.
pub fn run<D: Dns>(out: &mut String, dns: &D, args: &[String]) -> (r: Result<(), String>)
    ensures
        args@.len() != 1 ==> (r matches Err(e) && e@ == "usage: dnsname <ip>"@),
        args@.len() == 1 && parse_ipv4(args@[0]@) is None ==> (r matches Err(e) && e@
            == "invalid IPv4 address"@),
        r is Ok ==> args@.len() == 1 && exists|names: Seq<Seq<char>>| final(out)@ == old(out)@
            + #[trigger] names_text(args@[0]@, names),
        r is Err ==> final(out)@ == old(out)@,
{
    if args.len() != 1 {
        return Err(owned("usage: dnsname <ip>"));
    }
    let ip = chars_of(args[0].as_str());
    let addr = match parse_ipv4_exec(ip.as_slice()) {
        Some(a) => a,
        None => return Err(owned("invalid IPv4 address")),
    };
    let names = dns.lookup_ptr(&addr)?;
    if names.len() == 0 {
        out.append(args[0].as_str());
        out.append(": no PTR records found\n");
        assert(names_text(args@[0]@, views(names@)) == args@[0]@ + ": no PTR records found\n"@);
    } else {
        push_lines(out, names.as_slice());
    }
    assert(out@ == old(out)@ + names_text(args@[0]@, views(names@)));
    Ok(())
}

} // verus!

use vstd::prelude::*;

use crate::deps::Dns;
use crate::ipv4::Ipv4Addr;
use crate::text::{
    ascii_upper, chars_of, eq_lit, line_block, owned, push_lines, strip_url, strip_url_exec,
    upper_of, views,
};

verus! {

#[derive(Clone, Copy, Debug, PartialEq, Eq, Structural)]
pub enum RecordType {
    A,
    Aaaa,
    Mx,
    Txt,
    Ns,
    Cname,
}

/// The record type that `-t` names, ignoring ASCII case.
pub open spec fn record_type_of(s: Seq<char>) -> Option<RecordType> {
    let u = s.map_values(|c: char| ascii_upper(c));
    if u == "A"@ {
        Some(RecordType::A)
    } else if u == "AAAA"@ {
        Some(RecordType::Aaaa)
    } else if u == "MX"@ {
        Some(RecordType::Mx)
    } else if u == "TXT"@ {
        Some(RecordType::Txt)
    } else if u == "NS"@ {
        Some(RecordType::Ns)
    } else if u == "CNAME"@ {
        Some(RecordType::Cname)
    } else {
        None
    }
}

impl RecordType {
    pub open spec fn spec_name(self) -> Seq<char> {
        match self {
            RecordType::A => "A"@,
            RecordType::Aaaa => "AAAA"@,
            RecordType::Mx => "MX"@,
            RecordType::Txt => "TXT"@,
            RecordType::Ns => "NS"@,
            RecordType::Cname => "CNAME"@,
        }
    }

    /// Parses a record type name, ignoring ASCII case.
    pub fn parse(s: &str) -> (r: Result<RecordType, String>)
        ensures
            match record_type_of(s@) {
                Some(t) => r == Ok::<RecordType, String>(t),
                None => r matches Err(e) && e@ == "unknown record type: "@ + s@,
            },
    {
        let cs = chars_of(s);
        let u = upper_of(cs.as_slice());
        if eq_lit(u.as_slice(), "A") {
            Ok(RecordType::A)
        } else if eq_lit(u.as_slice(), "AAAA") {
            Ok(RecordType::Aaaa)
        } else if eq_lit(u.as_slice(), "MX") {
            Ok(RecordType::Mx)
        } else if eq_lit(u.as_slice(), "TXT") {
            Ok(RecordType::Txt)
        } else if eq_lit(u.as_slice(), "NS") {
            Ok(RecordType::Ns)
        } else if eq_lit(u.as_slice(), "CNAME") {
            Ok(RecordType::Cname)
        } else {
            let mut msg = owned("unknown record type: ");
            msg.append(s);
            Err(msg)
        }
    }

    pub fn name(&self) -> (r: &'static str)
        ensures
            r@ == self.spec_name(),
    {
        match self {
            RecordType::A => "A",
            RecordType::Aaaa => "AAAA",
            RecordType::Mx => "MX",
            RecordType::Txt => "TXT",
            RecordType::Ns => "NS",
            RecordType::Cname => "CNAME",
        }
    }

    /// Looks the records of this type up; A records come back as dotted quads,
    /// one per address the resolver gave. The other types give what the
    /// resolver gave.
    pub fn lookup<D: Dns>(&self, dns: &D, domain: &str) -> (r: Result<Vec<String>, String>)
        ensures
            match r {
                Ok(v) => (self matches RecordType::A) ==> exists|addrs: Seq<Ipv4Addr>|
                    views(v@) == #[trigger] addr_text_list(addrs),
                Err(_) => true,
            },
    {
        match self {
            RecordType::A => {
                let addrs = dns.lookup_a(domain)?;
                let texts = addr_texts(addrs.as_slice());
                assert(views(texts@) =~= addr_text_list(addrs@));
                Ok(texts)
            },
            RecordType::Aaaa => dns.lookup_aaaa(domain),
            RecordType::Mx => dns.lookup_mx(domain),
            RecordType::Txt => dns.lookup_txt(domain),
            RecordType::Ns => dns.lookup_ns(domain),
            RecordType::Cname => dns.lookup_cname(domain),
        }
    }
}

/// The dotted-quad texts of addresses, in order.
pub open spec fn addr_text_list(addrs: Seq<Ipv4Addr>) -> Seq<Seq<char>> {
    addrs.map_values(|a: Ipv4Addr| a.text())
}

/// The dotted-quad texts of addresses.
pub fn addr_texts(addrs: &[Ipv4Addr]) -> (r: Vec<String>)
    ensures
        r@.len() == addrs@.len(),
        forall|i: int| 0 <= i < r@.len() ==> #[trigger] r@[i]@ == addrs@[i].text(),
{
    let mut r: Vec<String> = Vec::new();
    let mut i: usize = 0;
    while i < addrs.len()
        invariant
            i <= addrs@.len(),
            r@.len() == i,
            forall|k: int| 0 <= k < i ==> #[trigger] r@[k]@ == addrs@[k].text(),
        decreases addrs.len() - i,
    {
        r.push(addrs[i].to_text());
        i = i + 1;
    }
    r
}

pub struct Query {
    pub domain: String,
    pub record_type: RecordType,
}

pub open spec fn dig_usage() -> Seq<char> {
    "usage: dig [-t A|AAAA|MX|TXT|NS|CNAME] <domain>"@
}

/// The domain and record type that the arguments from `i` on select, given
/// what the earlier ones selected.
pub open spec fn parse_query(
    args: Seq<Seq<char>>,
    i: int,
    domain: Option<Seq<char>>,
    rt: RecordType,
) -> Result<(Seq<char>, RecordType), Seq<char>>
    decreases args.len() - i,
{
    if i < 0 || i >= args.len() {
        match domain {
            Some(d) => Ok((d, rt)),
            None => Err(dig_usage()),
        }
    } else if args[i] == "-t"@ || args[i] == "--type"@ {
        if i + 1 >= args.len() {
            Err(dig_usage())
        } else {
            match record_type_of(args[i + 1]) {
                Some(t) => parse_query(args, i + 2, domain, t),
                None => Err("unknown record type: "@ + args[i + 1]),
            }
        }
    } else if !(args[i].len() > 0 && args[i][0] == '-') && domain is None {
        parse_query(args, i + 1, Some(strip_url(args[i])), rt)
    } else {
        Err(dig_usage())
    }
}

impl Query {
    /// Reads `[-t TYPE] <domain>` from the arguments.
    pub fn parse(args: &[String]) -> (r: Result<Query, String>)
        ensures
            match parse_query(views(args@), 0, None, RecordType::A) {
                Ok((d, t)) => r matches Ok(q) && q.domain@ == d && q.record_type == t,
                Err(msg) => r matches Err(e) && e@ == msg,
            },
    {
        let ghost a = views(args@);
        let mut domain: Option<String> = None;
        let mut record_type = RecordType::A;
        let mut i: usize = 0;
        while i < args.len()
            invariant
                i <= args@.len(),
                a == views(args@),
                parse_query(a, 0, None, RecordType::A) == parse_query(
                    a,
                    i as int,
                    match domain {
                        Some(d) => Some(d@),
                        None => None,
                    },
                    record_type,
                ),
            decreases args.len() - i,
        {
            let arg = chars_of(args[i].as_str());
            assert(a[i as int] == arg@);
            if eq_lit(arg.as_slice(), "-t") || eq_lit(arg.as_slice(), "--type") {
                if i + 1 >= args.len() {
                    return Err(owned("usage: dig [-t A|AAAA|MX|TXT|NS|CNAME] <domain>"));
                }
                assert(a[i + 1] == args@[i + 1]@);
                record_type = RecordType::parse(args[i + 1].as_str())?;
                i = i + 2;
            } else if !(arg.len() > 0 && arg[0] == '-') && domain.is_none() {
                domain = Some(strip_url_exec(args[i].as_str()));
                i = i + 1;
            } else {
                return Err(owned("usage: dig [-t A|AAAA|MX|TXT|NS|CNAME] <domain>"));
            }
        }
        match domain {
            Some(d) => Ok(Query { domain: d, record_type }),
            None => Err(owned("usage: dig [-t A|AAAA|MX|TXT|NS|CNAME] <domain>")),
        }
    }
}

/// What `dig` prints for the records it found.
pub open spec fn dig_text(domain: Seq<char>, rt: RecordType, records: Seq<Seq<char>>) -> Seq<char> {
    if records.len() == 0 {
        domain + ": no "@ + rt.spec_name() + " records found\n"@
    } else {
        line_block(records)
    }
}

/// Appends the records, one per line, or a note that there are none.
pub fn print_records(out: &mut String, query: &Query, records: &[String])
    ensures
        final(out)@ == old(out)@ + dig_text(query.domain@, query.record_type, views(records@)),
{
    if records.len() == 0 {
        out.append(query.domain.as_str());
        out.append(": no ");
        out.append(query.record_type.name());
        out.append(" records found\n");
    } else {
        push_lines(out, records);
    }
}

/// Looks up the records of one type for a domain (A by default).
pub fn run<D: Dns>(out: &mut String, dns: &D, args: &[String]) -> (r: Result<(), String>)
    ensures
        match parse_query(views(args@), 0, None, RecordType::A) {
            Ok((d, t)) => r is Ok ==> exists|recs: Seq<Seq<char>>| final(out)@ == old(out)@
                + #[trigger] dig_text(d, t, recs),
            Err(msg) => r matches Err(e) && e@ == msg,
        },
        r is Err ==> final(out)@ == old(out)@,
{
    let query = Query::parse(args)?;
    let records = query.record_type.lookup(dns, query.domain.as_str())?;
    print_records(out, &query, records.as_slice());
    Ok(())
}

} // verus!

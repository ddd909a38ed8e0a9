use vstd::prelude::*;

use crate::deps::{Dns, Whois};
use crate::ipv4::{parse_ipv4, parse_ipv4_exec, Ipv4Addr};
use crate::text::{
    chars_of, eq_ignore_case, eq_ignore_case_exec, lines, lines_exec, owned, split_char,
    split_exec, string_of, trim, trim_exec, views,
};

verus! {

pub const CYMRU_SERVER: &'static str = "whois.cymru.com";

/// One row of a Team Cymru `-v` answer.
pub struct AsnRecord {
    pub asn: String,
    pub ip: String,
    pub prefix: String,
    pub cc: String,
    pub registry: String,
    pub allocated: String,
    pub name: String,
}

impl AsnRecord {
    /// The fields in the order of the answer's columns.
    pub open spec fn fields(self) -> Seq<Seq<char>> {
        seq![self.asn@, self.ip@, self.prefix@, self.cc@, self.registry@, self.allocated@, self.name@]
    }
}

/// The trimmed `|`-separated columns of a row.
pub open spec fn columns(line: Seq<char>) -> Seq<Seq<char>> {
    split_char(line, '|').map_values(|c: Seq<char>| trim(c))
}

/// The seven fields of a data row: rows with fewer than seven columns and the
/// header row (first column `AS`) have none.
pub open spec fn record_line(line: Seq<char>) -> Option<Seq<Seq<char>>> {
    let cols = columns(line);
    if cols.len() < 7 || eq_ignore_case(cols[0], "as"@) {
        None
    } else {
        Some(cols.take(7))
    }
}

/// The first non-blank line that is a data row.
pub open spec fn first_record(ls: Seq<Seq<char>>) -> Option<Seq<Seq<char>>>
    decreases ls.len(),
{
    if ls.len() == 0 {
        None
    } else if trim(ls[0]).len() > 0 && record_line(ls[0]) is Some {
        record_line(ls[0])
    } else {
        first_record(ls.drop_first())
    }
}

/// The lines that `asn` prints for a record.
pub open spec fn record_text(f: Seq<Seq<char>>) -> Seq<char> {
    "ip "@ + f[1] + "\n"@ + "asn "@ + f[0] + "\n"@ + "prefix "@ + f[2] + "\n"@ + "cc "@ + f[3]
        + "\n"@ + "registry "@ + f[4] + "\n"@ + "allocated "@ + f[5] + "\n"@ + "name "@ + f[6]
        + "\n"@
}

/// Parses one row into a record.
pub fn parse_record_line(line: &[char]) -> (r: Option<AsnRecord>)
    ensures
        match r {
            Some(rec) => record_line(line@) == Some(rec.fields()),
            None => record_line(line@) is None,
        },
{
    let parts = split_exec(line, '|');
    let ghost cols = columns(line@);
    let mut cols_v: Vec<Vec<char>> = Vec::new();
    let mut i: usize = 0;
    while i < parts.len()
        invariant
            i <= parts@.len(),
            parts@.len() == split_char(line@, '|').len(),
            forall|k: int| 0 <= k < parts@.len() ==> #[trigger] parts@[k]@ == split_char(line@, '|')[k],
            cols == columns(line@),
            cols_v@.len() == i,
            forall|k: int| 0 <= k < i ==> #[trigger] cols_v@[k]@ == cols[k],
        decreases parts.len() - i,
    {
        cols_v.push(trim_exec(parts[i].as_slice()));
        i = i + 1;
    }
    if cols_v.len() < 7 {
        return None;
    }
    let as_lit = chars_of("as");
    if eq_ignore_case_exec(cols_v[0].as_slice(), as_lit.as_slice()) {
        return None;
    }
    let rec = AsnRecord {
        asn: string_of(cols_v[0].as_slice()),
        ip: string_of(cols_v[1].as_slice()),
        prefix: string_of(cols_v[2].as_slice()),
        cc: string_of(cols_v[3].as_slice()),
        registry: string_of(cols_v[4].as_slice()),
        allocated: string_of(cols_v[5].as_slice()),
        name: string_of(cols_v[6].as_slice()),
    };
    assert(rec.fields() =~= cols.take(7));
    Some(rec)
}

impl AsnRecord {
    /// The first data row of a response.
    pub fn parse(response: &str) -> (r: Result<AsnRecord, String>)
        ensures
            match r {
                Ok(rec) => first_record(lines(response@)) == Some(rec.fields()),
                Err(e) => first_record(lines(response@)) is None && e@ == "ASN record not found"@,
            },
    {
        let text = chars_of(response);
        let ls = lines_exec(text.as_slice());
        let ghost all = lines(response@);
        let mut i: usize = 0;
        assert(all.skip(0) =~= all);
        while i < ls.len()
            invariant
                i <= ls@.len(),
                all == lines(response@),
                ls@.len() == all.len(),
                forall|k: int| 0 <= k < ls@.len() ==> #[trigger] ls@[k]@ == all[k],
                first_record(all) == first_record(all.skip(i as int)),
            decreases ls.len() - i,
        {
            assert(all.skip(i as int)[0] == ls@[i as int]@);
            assert(all.skip(i as int).drop_first() =~= all.skip(i + 1));
            let t = trim_exec(ls[i].as_slice());
            if t.len() > 0 {
                match parse_record_line(ls[i].as_slice()) {
                    Some(rec) => {
                        return Ok(rec);
                    },
                    None => {},
                }
            }
            i = i + 1;
        }
        Err(owned("ASN record not found"))
    }
}

/// Appends the lines that describe a record.
pub fn format_record(out: &mut String, rec: &AsnRecord)
    ensures
        final(out)@ == old(out)@ + record_text(rec.fields()),
{
    out.append("ip ");
    out.append(rec.ip.as_str());
    out.append("\n");
    out.append("asn ");
    out.append(rec.asn.as_str());
    out.append("\n");
    out.append("prefix ");
    out.append(rec.prefix.as_str());
    out.append("\n");
    out.append("cc ");
    out.append(rec.cc.as_str());
    out.append("\n");
    out.append("registry ");
    out.append(rec.registry.as_str());
    out.append("\n");
    out.append("allocated ");
    out.append(rec.allocated.as_str());
    out.append("\n");
    out.append("name ");
    out.append(rec.name.as_str());
    out.append("\n");
    assert(out@ =~= old(out)@ + record_text(rec.fields()));
}

/// What resolving `host` gives when the resolver answered `res`: its first
/// address, an error naming the host where there is none, or the resolver's
/// error.
pub open spec fn first_addr(res: Result<Seq<Ipv4Addr>, Seq<char>>, host: Seq<char>) -> Result<Ipv4Addr, Seq<char>> {
    match res {
        Ok(addrs) => if addrs.len() > 0 {
            Ok(addrs[0])
        } else {
            Err(host + ": no A records found"@)
        },
        Err(e) => Err(e),
    }
}

/// The first A record of `host`. What the resolver answers is its own to
/// say, so the contract holds for some answer.
fn resolve_one<D: Dns>(dns: &D, host: &str) -> (r: Result<Ipv4Addr, String>)
    ensures
        exists|res: Result<Seq<Ipv4Addr>, Seq<char>>| match #[trigger] first_addr(res, host@) {
            Ok(a) => r == Ok::<Ipv4Addr, String>(a),
            Err(m) => r matches Err(e) && e@ == m,
        },
{
    let addrs = match dns.lookup_a(host) {
        Ok(a) => a,
        Err(e) => {
            assert(first_addr(Err(e@), host@) == Err::<Ipv4Addr, Seq<char>>(e@));
            return Err(e);
        },
    };
    assert(first_addr(Ok(addrs@), host@) == if addrs@.len() > 0 {
        Ok::<Ipv4Addr, Seq<char>>(addrs@[0])
    } else {
        Err::<Ipv4Addr, Seq<char>>(host@ + ": no A records found"@)
    });
    if addrs.len() == 0 {
        let mut msg = owned(host);
        msg.append(": no A records found");
        return Err(msg);
    }
    Ok(addrs[0])
}

/// The query sent to the Cymru whois server for an address: ` -v <ip>`
/// (verbose output).
pub fn cymru_query(ip: &Ipv4Addr) -> (r: String)
    ensures
        r@ == " -v "@ + ip.text(),
{
    let mut query = owned(" -v ");
    ip.push_text(&mut query);
    query
}

/// Looks up the ASN record of an IPv4 address or host name.
pub fn run<D: Dns, W: Whois>(out: &mut String, dns: &D, whois: &W, args: &[String]) -> (r: Result<(), String>)
    ensures
        args@.len() != 1 ==> (r matches Err(e) && e@ == "usage: asn <ip|host>"@),
        r is Ok ==> exists|f: Seq<Seq<char>>| final(out)@ == old(out)@ + #[trigger] record_text(f),
        r is Err ==> final(out)@ == old(out)@,
{
    if args.len() != 1 {
        return Err(owned("usage: asn <ip|host>"));
    }
    let target = chars_of(args[0].as_str());
    let ip = match parse_ipv4_exec(target.as_slice()) {
        Some(ip) => ip,
        None => resolve_one(dns, args[0].as_str())?,
    };
    let query = cymru_query(&ip);
    let response = whois.query(CYMRU_SERVER, query.as_str())?;
    let record = AsnRecord::parse(response.as_str())?;
    format_record(out, &record);
    Ok(())
}

} // verus!

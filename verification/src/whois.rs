use vstd::prelude::*;

use crate::deps::Whois;
use crate::text::{
    ascii_lower, chars_of, eq_lit, has_prefix, lines, lines_exec, lower_of, owned, string_of,
    strip_prefix_lit, trim, trim_exec, views,
};

verus! {

pub const DEFAULT_SERVER: &'static str = "whois.iana.org";

/// The server and the query that the arguments name.
pub open spec fn whois_args(args: Seq<Seq<char>>) -> Option<(Seq<char>, Seq<char>)> {
    if args.len() == 1 {
        Some(("whois.iana.org"@, args[0]))
    } else if args.len() == 3 && args[0] == "-h"@ {
        Some((args[1], args[2]))
    } else {
        None
    }
}

/// The server that one line of a response refers to: the trimmed value of a
/// `refer:` or `whois:` line, matched without regard to ASCII case.
pub open spec fn referral_of(line: Seq<char>) -> Option<Seq<char>> {
    let lower = line.map_values(|c: char| ascii_lower(c));
    if has_prefix(lower, "refer:"@) && trim(lower.skip("refer:"@.len() as int)).len() > 0 {
        Some(trim(lower.skip("refer:"@.len() as int)))
    } else if !has_prefix(lower, "refer:"@) && has_prefix(lower, "whois:"@) && trim(
        lower.skip("whois:"@.len() as int),
    ).len() > 0 {
        Some(trim(lower.skip("whois:"@.len() as int)))
    } else {
        None
    }
}

/// The referral of the first line that has one.
pub open spec fn first_referral(ls: Seq<Seq<char>>) -> Option<Seq<char>>
    decreases ls.len(),
{
    if ls.len() == 0 {
        None
    } else {
        match referral_of(ls[0]) {
            Some(s) => Some(s),
            None => first_referral(ls.drop_first()),
        }
    }
}

/// Splits the arguments into the server to ask and the query.
pub fn parse_args(args: &[String]) -> (r: Result<(String, String), String>)
    ensures
        match whois_args(views(args@)) {
            Some((server, query)) => r matches Ok((s, q)) && s@ == server && q@ == query,
            None => r matches Err(e) && e@ == "usage: whois [-h server] <query>"@,
        },
{
    if args.len() == 1 {
        return Ok((owned(DEFAULT_SERVER), args[0].clone()));
    }
    if args.len() == 3 {
        let h = chars_of(args[0].as_str());
        if eq_lit(h.as_slice(), "-h") {
            return Ok((args[1].clone(), args[2].clone()));
        }
    }
    Err(owned("usage: whois [-h server] <query>"))
}

fn referral_of_exec(line: &[char]) -> (r: Option<Vec<char>>)
    ensures
        match r {
            Some(v) => referral_of(line@) == Some(v@),
            None => referral_of(line@) is None,
        },
{
    let lower = lower_of(line);
    assert(lower@ =~= line@.map_values(|c: char| ascii_lower(c)));
    let rest = match strip_prefix_lit(lower.as_slice(), "refer:") {
        Some(r) => r,
        None => match strip_prefix_lit(lower.as_slice(), "whois:") {
            Some(r) => r,
            None => return None,
        },
    };
    let server = trim_exec(rest.as_slice());
    if server.len() == 0 {
        None
    } else {
        Some(server)
    }
}

/// The server that the first `refer:` or `whois:` line of a response names.
pub fn find_referral(response: &str) -> (r: Option<String>)
    ensures
        match r {
            Some(s) => first_referral(lines(response@)) == Some(s@),
            None => first_referral(lines(response@)) is None,
        },
{
    let text = chars_of(response);
    let ls = lines_exec(text.as_slice());
    let ghost all = lines(response@);
    assert(ls@.len() == all.len());
    let mut i: usize = 0;
    assert(all.skip(0) =~= all);
    while i < ls.len()
        invariant
            i <= ls@.len(),
            all == lines(response@),
            ls@.len() == all.len(),
            forall|k: int| 0 <= k < ls@.len() ==> #[trigger] ls@[k]@ == all[k],
            first_referral(all) == first_referral(all.skip(i as int)),
        decreases ls.len() - i,
    {
        assert(all.skip(i as int)[0] == ls@[i as int]@);
        assert(all.skip(i as int).drop_first() =~= all.skip(i + 1));
        match referral_of_exec(ls[i].as_slice()) {
            Some(s) => {
                assert(all.skip(i as int).len() > 0);
                assert(referral_of(all.skip(i as int)[0]) == Some(s@));
                assert(first_referral(all.skip(i as int)) == Some(s@));
                return Some(string_of(s.as_slice()));
            },
            None => {},
        }
        i = i + 1;
    }
    None
}

/// The server to ask next once `server` answered `first`: the referral in
/// the answer, where the default server was asked; none otherwise.
pub open spec fn next_server(server: Seq<char>, first: Seq<char>) -> Option<Seq<char>> {
    if server == "whois.iana.org"@ {
        first_referral(lines(first))
    } else {
        None
    }
}

/// What `whois` prints when `server` answered `first` and the server it
/// was referred to, if any, answered `second`.
pub open spec fn whois_output(server: Seq<char>, first: Seq<char>, second: Seq<char>) -> Seq<char> {
    if next_server(server, first) is Some {
        second
    } else {
        first
    }
}

/// Decides which server to ask next after `server` answered `response`.
pub fn referral_to_follow(server: &str, response: &str) -> (r: Option<String>)
    ensures
        match r {
            Some(s) => next_server(server@, response@) == Some(s@),
            None => next_server(server@, response@) is None,
        },
{
    let cs = chars_of(server);
    if eq_lit(cs.as_slice(), DEFAULT_SERVER) {
        find_referral(response)
    } else {
        None
    }
}

/// Queries WHOIS; a query to the default server follows one referral. The
/// answers are the servers' to give, so the contract holds for some answers.
pub fn run<W: Whois>(out: &mut String, whois: &W, args: &[String]) -> (r: Result<(), String>)
    ensures
        whois_args(views(args@)) is None ==> (r matches Err(e) && e@
            == "usage: whois [-h server] <query>"@),
        r is Ok ==> (whois_args(views(args@)) matches Some((server, _)) && exists|first: Seq<char>, second: Seq<char>|
            final(out)@ == old(out)@ + #[trigger] whois_output(server, first, second)),
        r is Err ==> final(out)@ == old(out)@,
{
    let (server, query) = parse_args(args)?;
    let response = whois.query(server.as_str(), query.as_str())?;
    match referral_to_follow(server.as_str(), response.as_str()) {
        Some(referral) => {
            let referred = whois.query(referral.as_str(), query.as_str())?;
            out.append(referred.as_str());
            assert(whois_output(server@, response@, referred@) == referred@);
            Ok(())
        },
        None => {
            out.append(response.as_str());
            assert(whois_output(server@, response@, response@) == response@);
            Ok(())
        },
    }
}

} // verus!

use vstd::prelude::*;

use crate::deps::Net;
use vstd::utf8::encode_utf8;

use crate::text::{chars_of, eq_lit, owned};

verus! {

pub open spec fn fetch_usage() -> Seq<char> {
    "usage: fetch [-X METHOD] [-d BODY] <url> [url...]"@
}

/// The methods that `fetch` sends.
pub open spec fn method_ok(m: Seq<char>) -> bool {
    m == "GET"@ || m == "HEAD"@ || m == "POST"@ || m == "PUT"@ || m == "PATCH"@ || m == "DELETE"@
        || m == "OPTIONS"@
}

/// Accepts the methods that `fetch` sends.
pub fn validate_method(method: &str) -> (r: Result<(), String>)
    ensures
        method_ok(method@) ==> r is Ok,
        !method_ok(method@) ==> (r matches Err(e) && e@ == "unsupported HTTP method"@),
{
    let m = chars_of(method);
    if eq_lit(m.as_slice(), "GET") || eq_lit(m.as_slice(), "HEAD") || eq_lit(m.as_slice(), "POST")
        || eq_lit(m.as_slice(), "PUT") || eq_lit(m.as_slice(), "PATCH") || eq_lit(
        m.as_slice(),
        "DELETE",
    ) || eq_lit(m.as_slice(), "OPTIONS") {
        Ok(())
    } else {
        Err(owned("unsupported HTTP method"))
    }
}

/// A parsed `fetch` command line.
pub struct FetchRequest {
    pub method: String,
    pub body: Vec<u8>,
    pub urls: Vec<String>,
}

/// The request that the arguments from `i` on describe, given the method,
/// body and URLs of the earlier ones and whether a method was given with
/// `-X`. A body makes the method `POST` unless one was given.
pub open spec fn parse_fetch(
    args: Seq<String>,
    i: int,
    method: Seq<char>,
    explicit: bool,
    body: Seq<u8>,
    urls: Seq<Seq<char>>,
) -> Result<(Seq<char>, Seq<u8>, Seq<Seq<char>>), Seq<char>>
    decreases args.len() - i,
{
    if i < 0 || i >= args.len() {
        if urls.len() == 0 {
            Err(fetch_usage())
        } else {
            Ok((method, body, urls))
        }
    } else if args[i]@ == "-X"@ || args[i]@ == "--request"@ {
        if i + 1 >= args.len() {
            Err(fetch_usage())
        } else if !method_ok(args[i + 1]@) {
            Err("unsupported HTTP method"@)
        } else {
            parse_fetch(args, i + 2, args[i + 1]@, true, body, urls)
        }
    } else if args[i]@ == "-d"@ || args[i]@ == "--data"@ {
        if i + 1 >= args.len() {
            Err(fetch_usage())
        } else {
            let m = if explicit { method } else { "POST"@ };
            parse_fetch(args, i + 2, m, explicit, encode_utf8(args[i + 1]@), urls)
        }
    } else {
        parse_fetch(args, i + 1, method, explicit, body, urls.push(args[i]@))
    }
}

impl FetchRequest {
    /// Reads `[-X METHOD] [-d BODY] <url> [url...]` from the arguments.
    pub fn parse(args: &[String]) -> (r: Result<FetchRequest, String>)
        ensures
            match parse_fetch(args@, 0, "GET"@, false, seq![], seq![]) {
                Ok((m, b, u)) => r matches Ok(req) && req.method@ == m && req.body@ == b && req.urls@.map_values(|s: String| s@) == u,
                Err(msg) => r matches Err(e) && e@ == msg,
            },
    {
        let mut method = owned("GET");
        let mut explicit = false;
        let mut body: Vec<u8> = Vec::new();
        let mut urls: Vec<String> = Vec::new();
        let mut i: usize = 0;
        assert(urls@.map_values(|s: String| s@) =~= Seq::<Seq<char>>::empty());
        assert(body@ =~= Seq::<u8>::empty());
        while i < args.len()
            invariant
                i <= args@.len(),
                parse_fetch(args@, 0, "GET"@, false, seq![], seq![]) == parse_fetch(
                    args@,
                    i as int,
                    method@,
                    explicit,
                    body@,
                    urls@.map_values(|s: String| s@),
                ),
            decreases args.len() - i,
        {
            let arg = chars_of(args[i].as_str());
            if eq_lit(arg.as_slice(), "-X") || eq_lit(arg.as_slice(), "--request") {
                if i + 1 >= args.len() {
                    return Err(owned("usage: fetch [-X METHOD] [-d BODY] <url> [url...]"));
                }
                validate_method(args[i + 1].as_str())?;
                method = args[i + 1].clone();
                explicit = true;
                i = i + 2;
            } else if eq_lit(arg.as_slice(), "-d") || eq_lit(arg.as_slice(), "--data") {
                if i + 1 >= args.len() {
                    return Err(owned("usage: fetch [-X METHOD] [-d BODY] <url> [url...]"));
                }
                body = vstd::slice::slice_to_vec(args[i + 1].as_str().as_bytes());
                if !explicit {
                    method = owned("POST");
                }
                i = i + 2;
            } else {
                let ghost before = urls@;
                urls.push(args[i].clone());
                assert(urls@.map_values(|s: String| s@) =~= before.map_values(|s: String| s@).push(args@[i as int]@));
                i = i + 1;
            }
        }
        if urls.len() == 0 {
            return Err(owned("usage: fetch [-X METHOD] [-d BODY] <url> [url...]"));
        }
        Ok(FetchRequest { method, body, urls })
    }
}

/// The concatenation of response bodies.
pub open spec fn concat_bodies(bodies: Seq<Seq<u8>>) -> Seq<u8>
    decreases bodies.len(),
{
    if bodies.len() == 0 {
        seq![]
    } else {
        concat_bodies(bodies.drop_last()) + bodies.last()
    }
}

/// Sends the request to each URL in turn and writes the response bodies,
/// stopping at the first request that fails: on success a body for every
/// URL has been written, on failure those of the URLs before it. With no
/// URLs nothing is sent and it succeeds.
pub fn fetch_many<N: Net>(out: &mut Vec<u8>, net: &N, request: &FetchRequest) -> (r: Result<(), String>)
    ensures
        r is Ok ==> exists|bodies: Seq<Seq<u8>>| bodies.len() == request.urls@.len() && final(out)@ == old(out)@ + #[trigger] concat_bodies(bodies),
        r is Err ==> exists|bodies: Seq<Seq<u8>>| bodies.len() < request.urls@.len() && final(out)@ == old(out)@ + #[trigger] concat_bodies(bodies),
        request.urls@.len() == 0 ==> r is Ok && final(out)@ == old(out)@,
{
    let ghost start = out@;
    let ghost mut bodies: Seq<Seq<u8>> = seq![];
    let mut i: usize = 0;
    while i < request.urls.len()
        invariant
            i <= request.urls@.len(),
            bodies.len() == i,
            start == old(out)@,
            out@ == start + concat_bodies(bodies),
        decreases request.urls.len() - i,
    {
        let body = match net.request(request.method.as_str(), request.urls[i].as_str(), request.body.as_slice()) {
            Ok(b) => b,
            Err(e) => {
                assert(out@ == old(out)@ + concat_bodies(bodies));
                return Err(e);
            },
        };
        out.extend_from_slice(body.as_slice());
        proof {
            let nb = bodies.push(body@);
            assert(nb.drop_last() =~= bodies);
            bodies = nb;
        }
        i = i + 1;
    }
    Ok(())
}

/// Fetches URLs and writes the response bodies.
pub fn run<N: Net>(out: &mut Vec<u8>, net: &N, args: &[String]) -> (r: Result<(), String>)
    ensures
        match parse_fetch(args@, 0, "GET"@, false, seq![], seq![]) {
            Ok((m, b, u)) => r is Ok ==> exists|bodies: Seq<Seq<u8>>| bodies.len() == u.len() && final(out)@ == old(out)@ + #[trigger] concat_bodies(bodies),
            Err(msg) => (r matches Err(e) && e@ == msg) && final(out)@ == old(out)@,
        },
{
    let request = FetchRequest::parse(args)?;
    fetch_many(out, net, &request)
}

} // verus!

use vstd::prelude::*;

pub mod text;
pub mod ipv4;
pub mod asn;
pub mod calc;
pub mod certwatch;
pub mod ciphers;
pub mod completions;
pub mod deps;
pub mod dig;
pub mod dns;
pub mod dnsname;
pub mod echo;
pub mod env;
pub mod fetch;
pub mod hash;
pub mod hello;
pub mod hostname;
pub mod http;
pub mod httpserver;
pub mod overwrite;
pub mod ping;
pub mod rand;
pub mod redirect;
pub mod sleep;
pub mod tar;
pub mod tar_header;
pub mod target;
pub mod time;
pub mod tlscheck;
pub mod tlsping;
pub mod traceroute;
pub mod uname;
pub mod which;
pub mod whois;

verus! {

} // verus!

use std::cell::RefCell;
use std::collections::HashMap;

use hako::asn::CYMRU_SERVER;
use hako::deps::{Dns, Env, Fs, Whois};
use hako::ipv4::Ipv4Addr;
use hako::whois::{find_referral, parse_args, DEFAULT_SERVER};

struct MemFs {
    files: RefCell<HashMap<String, String>>,
}

impl MemFs {
    fn new(files: &[(&str, &str)]) -> Self {
        Self {
            files: RefCell::new(files.iter().map(|(k, v)| (k.to_string(), v.to_string())).collect()),
        }
    }

    fn get(&self, path: &str) -> Option<String> {
        self.files.borrow().get(path).cloned()
    }
}

impl Fs for MemFs {
    fn read(&self, path: &str) -> Result<String, String> {
        self.files.borrow().get(path).cloned().ok_or_else(|| format!("{path}: no such file"))
    }

    fn write(&self, path: &str, content: &str) -> Result<(), String> {
        self.files.borrow_mut().insert(path.to_string(), content.to_string());
        Ok(())
    }

    fn is_file(&self, path: &str) -> bool {
        self.files.borrow().contains_key(path)
    }
}

struct FakeEnv(Vec<(String, String)>);

impl FakeEnv {
    fn new(vars: &[(&str, &str)]) -> Self {
        Self(vars.iter().map(|(k, v)| (k.to_string(), v.to_string())).collect())
    }
}

impl Env for FakeEnv {
    fn vars(&self) -> Vec<(String, String)> {
        self.0.clone()
    }

    fn var(&self, key: &str) -> Option<String> {
        self.0.iter().find(|(k, _)| k == key).map(|(_, v)| v.clone())
    }
}

struct FakeDns(Vec<Ipv4Addr>);

impl Dns for FakeDns {
    fn lookup_a(&self, _domain: &str) -> Result<Vec<Ipv4Addr>, String> {
        Ok(self.0.clone())
    }
    fn lookup_ptr(&self, _addr: &Ipv4Addr) -> Result<Vec<String>, String> {
        Ok(vec![])
    }
    fn lookup_aaaa(&self, _domain: &str) -> Result<Vec<String>, String> {
        Ok(vec![])
    }
    fn lookup_mx(&self, _domain: &str) -> Result<Vec<String>, String> {
        Ok(vec![])
    }
    fn lookup_txt(&self, _domain: &str) -> Result<Vec<String>, String> {
        Ok(vec![])
    }
    fn lookup_ns(&self, _domain: &str) -> Result<Vec<String>, String> {
        Ok(vec![])
    }
    fn lookup_cname(&self, _domain: &str) -> Result<Vec<String>, String> {
        Ok(vec![])
    }
}

struct FailDns;

impl Dns for FailDns {
    fn lookup_a(&self, _domain: &str) -> Result<Vec<Ipv4Addr>, String> {
        Err("timeout".into())
    }
    fn lookup_ptr(&self, _addr: &Ipv4Addr) -> Result<Vec<String>, String> {
        Err("timeout".into())
    }
    fn lookup_aaaa(&self, _domain: &str) -> Result<Vec<String>, String> {
        Err("timeout".into())
    }
    fn lookup_mx(&self, _domain: &str) -> Result<Vec<String>, String> {
        Err("timeout".into())
    }
    fn lookup_txt(&self, _domain: &str) -> Result<Vec<String>, String> {
        Err("timeout".into())
    }
    fn lookup_ns(&self, _domain: &str) -> Result<Vec<String>, String> {
        Err("timeout".into())
    }
    fn lookup_cname(&self, _domain: &str) -> Result<Vec<String>, String> {
        Err("timeout".into())
    }
}

struct FakeWhois {
    responses: Vec<(&'static str, &'static str)>,
}

impl Whois for FakeWhois {
    fn query(&self, server: &str, _query: &str) -> Result<String, String> {
        self.responses
            .iter()
            .find(|(s, _)| *s == server)
            .map(|(_, r)| r.to_string())
            .ok_or_else(|| format!("no response for {server}"))
    }
}

struct CymruWhois {
    response: &'static str,
}

impl Whois for CymruWhois {
    fn query(&self, server: &str, query: &str) -> Result<String, String> {
        if server != CYMRU_SERVER {
            return Err(format!("wrong server: {server}"));
        }
        if query != " -v 1.1.1.1" {
            return Err(format!("wrong query: {query}"));
        }
        Ok(self.response.to_string())
    }
}

struct FailWhois;

impl Whois for FailWhois {
    fn query(&self, _server: &str, _query: &str) -> Result<String, String> {
        Err("connection refused".into())
    }
}

const CYMRU_RESPONSE: &str = "\
AS      | IP               | BGP Prefix          | CC | Registry | Allocated  | AS Name
13335   | 1.1.1.1          | 1.1.1.0/24          | AU | apnic    | 2011-08-11 | CLOUDFLARENET, US
";

#[test]
fn copies_contents() {
    let fs = MemFs::new(&[("a.txt", "hello")]);
    let mut out = String::new();
    hako::overwrite::run(&mut out, &fs, &["a.txt".into(), "b.txt".into()]).unwrap();
    assert_eq!(fs.get("b.txt").as_deref(), Some("hello"));
}

#[test]
fn overwrites_existing() {
    let fs = MemFs::new(&[("a.txt", "new"), ("b.txt", "old")]);
    let mut out = String::new();
    hako::overwrite::run(&mut out, &fs, &["a.txt".into(), "b.txt".into()]).unwrap();
    assert_eq!(fs.get("b.txt").as_deref(), Some("new"));
}

#[test]
fn missing_src_errors() {
    let fs = MemFs::new(&[]);
    let mut out = String::new();
    let err = hako::overwrite::run(&mut out, &fs, &["missing.txt".into(), "b.txt".into()]).unwrap_err();
    assert!(err.contains("no such file"));
}

#[test]
fn overwrite_wrong_arg_count_errors() {
    let fs = MemFs::new(&[]);
    let mut out = String::new();
    assert!(hako::overwrite::run(&mut out, &fs, &["only_one".into()]).is_err());
}

#[test]
fn follows_referral() {
    let whois = FakeWhois {
        responses: vec![
            (DEFAULT_SERVER, "refer: whois.verisign-grs.com\n"),
            ("whois.verisign-grs.com", "Domain Name: EXAMPLE.COM\n"),
        ],
    };
    let mut out = String::new();
    hako::whois::run(&mut out, &whois, &["example.com".into()]).unwrap();
    assert_eq!(out, "Domain Name: EXAMPLE.COM\n");
}

#[test]
fn no_referral_prints_iana_response() {
    let whois = FakeWhois { responses: vec![(DEFAULT_SERVER, "% No referral\nsome data\n")] };
    let mut out = String::new();
    hako::whois::run(&mut out, &whois, &["example".into()]).unwrap();
    assert_eq!(out, "% No referral\nsome data\n");
}

#[test]
fn explicit_server_skips_referral() {
    let whois = FakeWhois {
        responses: vec![("whois.verisign-grs.com", "refer: should.not.follow\nDomain Name: EXAMPLE.COM\n")],
    };
    let mut out = String::new();
    hako::whois::run(
        &mut out,
        &whois,
        &["-h".into(), "whois.verisign-grs.com".into(), "example.com".into()],
    )
    .unwrap();
    assert_eq!(out, "refer: should.not.follow\nDomain Name: EXAMPLE.COM\n");
}

#[test]
fn wrong_args_errors() {
    let whois = FakeWhois { responses: vec![] };
    let mut out = String::new();
    assert!(hako::whois::run(&mut out, &whois, &[]).is_err());
    assert!(hako::whois::run(&mut out, &whois, &["-h".into()]).is_err());
}

#[test]
fn parse_args_default_server() {
    let (server, query) = parse_args(&["example.com".into()]).unwrap();
    assert_eq!(server, DEFAULT_SERVER);
    assert_eq!(query, "example.com");
}

#[test]
fn find_referral_matches_refer_and_whois_keys() {
    assert_eq!(find_referral("refer: whois.example.com\n").as_deref(), Some("whois.example.com"));
    assert_eq!(find_referral("whois: whois.example.com\n").as_deref(), Some("whois.example.com"));
    assert_eq!(find_referral("nothing here\n"), None);
}

#[test]
fn prints_asn_record_for_ip() {
    let mut out = String::new();
    hako::asn::run(&mut out, &FakeDns(vec![]), &CymruWhois { response: CYMRU_RESPONSE }, &["1.1.1.1".into()])
        .unwrap();
    assert_eq!(
        out,
        "ip 1.1.1.1\nasn 13335\nprefix 1.1.1.0/24\ncc AU\nregistry apnic\nallocated 2011-08-11\nname CLOUDFLARENET, US\n"
    );
}

#[test]
fn resolves_host_before_querying() {
    let mut out = String::new();
    hako::asn::run(
        &mut out,
        &FakeDns(vec![Ipv4Addr::new(1, 1, 1, 1)]),
        &CymruWhois { response: CYMRU_RESPONSE },
        &["one.one.one.one".into()],
    )
    .unwrap();
    assert!(out.contains("asn 13335\n"));
}

#[test]
fn propagates_dns_error() {
    let mut out = String::new();
    let err = hako::asn::run(&mut out, &FailDns, &FailWhois, &["bad.example".into()]).unwrap_err();
    assert_eq!(err, "timeout");
}

#[test]
fn rejects_empty_dns_result() {
    let mut out = String::new();
    let err = hako::asn::run(&mut out, &FakeDns(vec![]), &FailWhois, &["empty.example".into()]).unwrap_err();
    assert_eq!(err, "empty.example: no A records found");
}

#[test]
fn propagates_whois_error() {
    let mut out = String::new();
    let err = hako::asn::run(&mut out, &FakeDns(vec![]), &FailWhois, &["1.1.1.1".into()]).unwrap_err();
    assert_eq!(err, "connection refused");
}

#[test]
fn rejects_malformed_response() {
    let mut out = String::new();
    let err = hako::asn::run(&mut out, &FakeDns(vec![]), &CymruWhois { response: "nope\n" }, &["1.1.1.1".into()])
        .unwrap_err();
    assert_eq!(err, "ASN record not found");
}

#[test]
fn asn_wrong_arg_count_errors() {
    let mut out = String::new();
    assert!(hako::asn::run(&mut out, &FakeDns(vec![]), &FailWhois, &[]).is_err());
    assert!(hako::asn::run(&mut out, &FakeDns(vec![]), &FailWhois, &["1.1.1.1".into(), "8.8.8.8".into()]).is_err());
}

#[test]
fn no_args_prints_all_sorted() {
    let env = FakeEnv::new(&[("ZOO", "z"), ("AAA", "a")]);
    let mut out = String::new();
    let mut err = String::new();
    hako::env::run(&mut out, &mut err, &env, &[]).unwrap();
    assert_eq!(out, "AAA=a\nZOO=z\n");
}

#[test]
fn args_print_values() {
    let env = FakeEnv::new(&[("HOME", "/root"), ("PATH", "/bin")]);
    let mut out = String::new();
    let mut err = String::new();
    hako::env::run(&mut out, &mut err, &env, &["HOME".into()]).unwrap();
    assert_eq!(out, "/root\n");
}

#[test]
fn missing_var_errors() {
    let env = FakeEnv::new(&[]);
    let mut out = String::new();
    let mut err = String::new();
    assert!(hako::env::run(&mut out, &mut err, &env, &["NOPE".into()]).is_err());
}

#[test]
fn sort_vars_orders_by_name_then_value() {
    let sorted = hako::env::sort_vars(vec![
        ("B".into(), "2".into()),
        ("A".into(), "9".into()),
        ("B".into(), "1".into()),
    ]);
    assert_eq!(
        sorted,
        vec![("A".to_string(), "9".to_string()), ("B".to_string(), "1".to_string()), ("B".to_string(), "2".to_string())]
    );
}

#[test]
fn finds_command_in_path() {
    let env = FakeEnv::new(&[("PATH", "/usr/bin:/bin")]);
    let fs = MemFs::new(&[("/usr/bin/ls", "")]);
    let mut out = String::new();
    let mut err = String::new();
    hako::which::run(&mut out, &mut err, &env, &fs, &["ls".into()]).unwrap();
    assert_eq!(out, "/usr/bin/ls\n");
}

#[test]
fn finds_first_match_in_path() {
    let env = FakeEnv::new(&[("PATH", "/usr/local/bin:/usr/bin")]);
    let fs = MemFs::new(&[("/usr/local/bin/grep", ""), ("/usr/bin/grep", "")]);
    let mut out = String::new();
    let mut err = String::new();
    hako::which::run(&mut out, &mut err, &env, &fs, &["grep".into()]).unwrap();
    assert_eq!(out, "/usr/local/bin/grep\n");
}

#[test]
fn missing_command_errors() {
    let env = FakeEnv::new(&[("PATH", "/bin")]);
    let fs = MemFs::new(&[]);
    let mut out = String::new();
    let mut err = String::new();
    assert!(hako::which::run(&mut out, &mut err, &env, &fs, &["nope".into()]).is_err());
}

#[test]
fn which_no_args_errors() {
    let env = FakeEnv::new(&[("PATH", "/bin")]);
    let fs = MemFs::new(&[]);
    let mut out = String::new();
    let mut err = String::new();
    assert!(hako::which::run(&mut out, &mut err, &env, &fs, &[]).is_err());
}

#[test]
fn multiple_commands() {
    let env = FakeEnv::new(&[("PATH", "/bin")]);
    let fs = MemFs::new(&[("/bin/ls", ""), ("/bin/cat", "")]);
    let mut out = String::new();
    let mut err = String::new();
    hako::which::run(&mut out, &mut err, &env, &fs, &["ls".into(), "cat".into()]).unwrap();
    assert_eq!(out, "/bin/ls\n/bin/cat\n");
}

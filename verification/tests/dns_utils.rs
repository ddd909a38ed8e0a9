use std::collections::HashMap;

use hako::deps::{DirFs, Dns, Fs};
use hako::hash::Algo;
use hako::ipv4::Ipv4Addr;

struct BytesFs(HashMap<String, Vec<u8>>);

impl BytesFs {
    fn new(files: &[(&str, &[u8])]) -> Self {
        Self(files.iter().map(|(k, v)| (k.to_string(), v.to_vec())).collect())
    }
}

impl Fs for BytesFs {
    fn read(&self, path: &str) -> Result<String, String> {
        self.read_bytes(path).map(|b| String::from_utf8_lossy(&b).into_owned())
    }
    fn write(&self, _: &str, _: &str) -> Result<(), String> {
        Err("read-only".into())
    }
    fn is_file(&self, path: &str) -> bool {
        self.0.contains_key(path)
    }
}

impl DirFs for BytesFs {
    fn read_bytes(&self, path: &str) -> Result<Vec<u8>, String> {
        self.0.get(path).cloned().ok_or_else(|| "not found".to_string())
    }
    fn write_bytes(&self, _: &str, _: &[u8]) -> Result<(), String> {
        Err("read-only".into())
    }
    fn create_dir_all(&self, _: &str) -> Result<(), String> {
        Err("read-only".into())
    }
    fn is_dir(&self, _: &str) -> bool {
        false
    }
    fn list_dir(&self, _: &str) -> Result<Vec<String>, String> {
        Ok(vec![])
    }
}

#[derive(Default)]
struct FakeTypedDns {
    a: Vec<Ipv4Addr>,
    ptr: Vec<String>,
    aaaa: Vec<String>,
    mx: Vec<String>,
    txt: Vec<String>,
    ns: Vec<String>,
    cname: Vec<String>,
}

impl Dns for FakeTypedDns {
    fn lookup_a(&self, _: &str) -> Result<Vec<Ipv4Addr>, String> {
        Ok(self.a.clone())
    }
    fn lookup_ptr(&self, _: &Ipv4Addr) -> Result<Vec<String>, String> {
        Ok(self.ptr.clone())
    }
    fn lookup_aaaa(&self, _: &str) -> Result<Vec<String>, String> {
        Ok(self.aaaa.clone())
    }
    fn lookup_mx(&self, _: &str) -> Result<Vec<String>, String> {
        Ok(self.mx.clone())
    }
    fn lookup_txt(&self, _: &str) -> Result<Vec<String>, String> {
        Ok(self.txt.clone())
    }
    fn lookup_ns(&self, _: &str) -> Result<Vec<String>, String> {
        Ok(self.ns.clone())
    }
    fn lookup_cname(&self, _: &str) -> Result<Vec<String>, String> {
        Ok(self.cname.clone())
    }
}

fn a_dns(addrs: Vec<Ipv4Addr>) -> FakeTypedDns {
    FakeTypedDns { a: addrs, ..FakeTypedDns::default() }
}

fn ptr_dns(names: Vec<String>) -> FakeTypedDns {
    FakeTypedDns { ptr: names, ..FakeTypedDns::default() }
}

struct FailDns;

impl Dns for FailDns {
    fn lookup_a(&self, _: &str) -> Result<Vec<Ipv4Addr>, String> {
        Err("timeout".into())
    }
    fn lookup_ptr(&self, _: &Ipv4Addr) -> Result<Vec<String>, String> {
        Err("timeout".into())
    }
    fn lookup_aaaa(&self, _: &str) -> Result<Vec<String>, String> {
        Err("timeout".into())
    }
    fn lookup_mx(&self, _: &str) -> Result<Vec<String>, String> {
        Err("timeout".into())
    }
    fn lookup_txt(&self, _: &str) -> Result<Vec<String>, String> {
        Err("timeout".into())
    }
    fn lookup_ns(&self, _: &str) -> Result<Vec<String>, String> {
        Err("timeout".into())
    }
    fn lookup_cname(&self, _: &str) -> Result<Vec<String>, String> {
        Err("timeout".into())
    }
}

fn hash_run(fs: &BytesFs, algo: Algo, args: &[String]) -> String {
    let mut out = String::new();
    let mut err = String::new();
    hako::hash::run(&mut out, &mut err, fs, algo, args, b"").unwrap();
    out
}

#[test]
fn md5_empty() {
    let fs = BytesFs::new(&[("f", b"")]);
    assert_eq!(hash_run(&fs, Algo::Md5, &["f".into()]), "d41d8cd98f00b204e9800998ecf8427e  f\n");
}

#[test]
fn md5_known() {
    let fs = BytesFs::new(&[("f", b"hello world\n")]);
    assert_eq!(hash_run(&fs, Algo::Md5, &["f".into()]), "6f5902ac237024bdd0c176cb93063dc4  f\n");
}

#[test]
fn sha256_empty() {
    let fs = BytesFs::new(&[("f", b"")]);
    assert_eq!(
        hash_run(&fs, Algo::Sha256, &["f".into()]),
        "e3b0c44298fc1c149afbf4c8996fb92427ae41e4649b934ca495991b7852b855  f\n"
    );
}

#[test]
fn sha256_known() {
    let fs = BytesFs::new(&[("f", b"hello world\n")]);
    assert_eq!(
        hash_run(&fs, Algo::Sha256, &["f".into()]),
        "a948904f2f0f479b8f8197694b30184b0d2ed1c1cd2a1ec0fb85d299a192a447  f\n"
    );
}

#[test]
fn multiple_files() {
    let fs = BytesFs::new(&[("a", b"foo"), ("b", b"bar")]);
    let body = hash_run(&fs, Algo::Sha256, &["a".into(), "b".into()]);
    assert!(body.contains("  a\n"));
    assert!(body.contains("  b\n"));
}

#[test]
fn missing_file_continues() {
    let fs = BytesFs::new(&[("exists", b"data")]);
    let body = hash_run(&fs, Algo::Md5, &["missing".into(), "exists".into()]);
    assert!(body.contains("exists"));
    assert!(!body.contains("missing"));
}

#[test]
fn hash_reads_stdin_without_files() {
    let fs = BytesFs::new(&[]);
    let mut out = String::new();
    let mut err = String::new();
    hako::hash::run(&mut out, &mut err, &fs, Algo::Md5, &[], b"hello world\n").unwrap();
    assert_eq!(out, "6f5902ac237024bdd0c176cb93063dc4  -\n");
}

#[test]
fn hash_bytes_hex_is_lowercase() {
    assert_eq!(hako::hash::hash_bytes(Algo::Md5, b""), "d41d8cd98f00b204e9800998ecf8427e");
}

#[test]
fn prints_a_records_by_default() {
    let mut out = String::new();
    let dns = a_dns(vec![Ipv4Addr::new(1, 2, 3, 4), Ipv4Addr::new(5, 6, 7, 8)]);
    hako::dig::run(&mut out, &dns, &["example.com".into()]).unwrap();
    assert_eq!(out, "1.2.3.4\n5.6.7.8\n");
}

#[test]
fn no_a_records() {
    let mut out = String::new();
    hako::dig::run(&mut out, &a_dns(vec![]), &["empty.example".into()]).unwrap();
    assert_eq!(out, "empty.example: no A records found\n");
}

#[test]
fn explicit_type_a() {
    let mut out = String::new();
    let dns = a_dns(vec![Ipv4Addr::new(9, 9, 9, 9)]);
    hako::dig::run(&mut out, &dns, &["-t".into(), "A".into(), "example.com".into()]).unwrap();
    assert_eq!(out, "9.9.9.9\n");
}

#[test]
fn type_flag_case_insensitive() {
    let mut out = String::new();
    let dns = FakeTypedDns { mx: vec!["10 mail.example.com".into()], ..FakeTypedDns::default() };
    hako::dig::run(&mut out, &dns, &["--type".into(), "mx".into(), "example.com".into()]).unwrap();
    assert_eq!(out, "10 mail.example.com\n");
}

#[test]
fn aaaa_records() {
    let mut out = String::new();
    let dns = FakeTypedDns { aaaa: vec!["2606:4700:4700::1111".into()], ..FakeTypedDns::default() };
    hako::dig::run(&mut out, &dns, &["-t".into(), "AAAA".into(), "example.com".into()]).unwrap();
    assert_eq!(out, "2606:4700:4700::1111\n");
}

#[test]
fn txt_records() {
    let mut out = String::new();
    let dns = FakeTypedDns { txt: vec!["v=spf1 include:example.com ~all".into()], ..FakeTypedDns::default() };
    hako::dig::run(&mut out, &dns, &["-t".into(), "TXT".into(), "example.com".into()]).unwrap();
    assert_eq!(out, "v=spf1 include:example.com ~all\n");
}

#[test]
fn ns_records() {
    let mut out = String::new();
    let dns = FakeTypedDns { ns: vec!["ns1.example.com".into(), "ns2.example.com".into()], ..FakeTypedDns::default() };
    hako::dig::run(&mut out, &dns, &["-t".into(), "NS".into(), "example.com".into()]).unwrap();
    assert_eq!(out, "ns1.example.com\nns2.example.com\n");
}

#[test]
fn cname_no_records() {
    let mut out = String::new();
    let dns = FakeTypedDns::default();
    hako::dig::run(&mut out, &dns, &["-t".into(), "CNAME".into(), "alias.example".into()]).unwrap();
    assert_eq!(out, "alias.example: no CNAME records found\n");
}

#[test]
fn unknown_type_errors() {
    let mut out = String::new();
    let err = hako::dig::run(&mut out, &a_dns(vec![]), &["-t".into(), "BOGUS".into(), "example.com".into()])
        .unwrap_err();
    assert_eq!(err, "unknown record type: BOGUS");
}

#[test]
fn dig_dns_error_propagates() {
    let mut out = String::new();
    let err = hako::dig::run(&mut out, &FailDns, &["bad.example".into()]).unwrap_err();
    assert_eq!(err, "timeout");
}

#[test]
fn no_domain_errors() {
    let mut out = String::new();
    assert!(hako::dig::run(&mut out, &a_dns(vec![]), &[]).is_err());
}

#[test]
fn missing_type_value_errors() {
    let mut out = String::new();
    assert!(hako::dig::run(&mut out, &a_dns(vec![]), &["-t".into()]).is_err());
}

#[test]
fn dig_strips_url_scheme_and_path() {
    assert_eq!(hako::text::strip_url_exec("https://example.com/foo?x=1"), "example.com");
    assert_eq!(hako::text::strip_url_exec("http://example.com"), "example.com");
    assert_eq!(hako::text::strip_url_exec("example.com"), "example.com");
}

#[test]
fn accepts_url_as_domain() {
    let mut out = String::new();
    let dns = a_dns(vec![Ipv4Addr::new(1, 2, 3, 4)]);
    hako::dig::run(&mut out, &dns, &["https://example.com/path".into()]).unwrap();
    assert_eq!(out, "1.2.3.4\n");
}

#[test]
fn prints_each_name() {
    let mut out = String::new();
    let dns = ptr_dns(vec!["host.example.com".into(), "alt.example.com".into()]);
    hako::dnsname::run(&mut out, &dns, &["1.2.3.4".into()]).unwrap();
    assert_eq!(out, "host.example.com\nalt.example.com\n");
}

#[test]
fn no_records() {
    let mut out = String::new();
    hako::dnsname::run(&mut out, &ptr_dns(vec![]), &["1.2.3.4".into()]).unwrap();
    assert_eq!(out, "1.2.3.4: no PTR records found\n");
}

#[test]
fn dnsname_dns_error_propagates() {
    let mut out = String::new();
    let err = hako::dnsname::run(&mut out, &FailDns, &["1.2.3.4".into()]).unwrap_err();
    assert_eq!(err, "timeout");
}

#[test]
fn invalid_ip_errors() {
    let mut out = String::new();
    assert!(hako::dnsname::run(&mut out, &ptr_dns(vec![]), &["not-an-ip".into()]).is_err());
}

#[test]
fn dnsname_wrong_arg_count_errors() {
    let mut out = String::new();
    assert!(hako::dnsname::run(&mut out, &ptr_dns(vec![]), &[]).is_err());
    assert!(hako::dnsname::run(&mut out, &ptr_dns(vec![]), &["1.2.3.4".into(), "extra".into()]).is_err());
}

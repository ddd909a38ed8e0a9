use std::cell::{Cell, RefCell};

use hako::deps::{CipherProbe, CipherResult, Dns, HopResult, Probe, TlsCheck, TlsInfo, TlsOptions, TlsPing, TlsPingResult};
use hako::ipv4::Ipv4Addr;
use hako::text::strip_url_exec as strip_url;

struct FakeDns(Vec<Ipv4Addr>);

impl Dns for FakeDns {
    fn lookup_a(&self, _domain: &str) -> Result<Vec<Ipv4Addr>, String> {
        Ok(self.0.clone())
    }
    fn lookup_ptr(&self, _addr: &Ipv4Addr) -> Result<Vec<String>, String> {
        Ok(vec![])
    }
    fn lookup_aaaa(&self, _domain: &str) -> Result<Vec<String>, String> {
        Ok(vec![])
    }
    fn lookup_mx(&self, _domain: &str) -> Result<Vec<String>, String> {
        Ok(vec![])
    }
    fn lookup_txt(&self, _domain: &str) -> Result<Vec<String>, String> {
        Ok(vec![])
    }
    fn lookup_ns(&self, _domain: &str) -> Result<Vec<String>, String> {
        Ok(vec![])
    }
    fn lookup_cname(&self, _domain: &str) -> Result<Vec<String>, String> {
        Ok(vec![])
    }
}

struct FakeProbe(RefCell<Vec<HopResult>>);

impl FakeProbe {
    fn new(mut results: Vec<HopResult>) -> Self {
        results.reverse();
        Self(RefCell::new(results))
    }
}

impl Probe for FakeProbe {
    fn probe(&self, _dest: Ipv4Addr, _ttl: u8, _seq: u16, _payload: &[u8]) -> Result<HopResult, String> {
        self.0.borrow_mut().pop().ok_or_else(|| "FakeProbe: no more results".to_string())
    }
}

fn reply(a: u8, b: u8, c: u8, d: u8, millis: u64, reached: bool) -> HopResult {
    HopResult::Reply { from: Ipv4Addr::new(a, b, c, d), rtt: millis * 1_000_000, reached }
}

struct AllSupported;

impl CipherProbe for AllSupported {
    fn probe_ciphers(&self, _host: &str, _port: u16) -> Result<CipherResult, String> {
        Ok(CipherResult { aes128_gcm_sha256: true, aes256_gcm_sha384: true, chacha20_poly1305_sha256: true })
    }
}

struct NoneSupported;

impl CipherProbe for NoneSupported {
    fn probe_ciphers(&self, _host: &str, _port: u16) -> Result<CipherResult, String> {
        Ok(CipherResult { aes128_gcm_sha256: false, aes256_gcm_sha384: false, chacha20_poly1305_sha256: false })
    }
}

struct CaptureCipher(RefCell<(String, u16)>);

impl CaptureCipher {
    fn new() -> Self {
        Self(RefCell::new((String::new(), 0)))
    }
    fn captured(&self) -> (String, u16) {
        self.0.borrow().clone()
    }
}

impl CipherProbe for CaptureCipher {
    fn probe_ciphers(&self, host: &str, port: u16) -> Result<CipherResult, String> {
        *self.0.borrow_mut() = (host.to_string(), port);
        Ok(CipherResult { aes128_gcm_sha256: true, aes256_gcm_sha384: true, chacha20_poly1305_sha256: true })
    }
}

struct FakePing {
    tcp_ms: u64,
    tls_ms: u64,
}

impl TlsPing for FakePing {
    fn ping(&self, _host: &str, _port: u16) -> Result<TlsPingResult, String> {
        Ok(TlsPingResult { tcp_ms: self.tcp_ms, tls_ms: self.tls_ms })
    }
}

struct CapturePing(RefCell<(String, u16)>);

impl TlsPing for CapturePing {
    fn ping(&self, host: &str, port: u16) -> Result<TlsPingResult, String> {
        *self.0.borrow_mut() = (host.to_string(), port);
        Ok(TlsPingResult { tcp_ms: 10, tls_ms: 20 })
    }
}

struct FakeTls {
    certs: Vec<Vec<u8>>,
}

impl TlsCheck for FakeTls {
    fn check_tls(&self, _host: &str, _port: u16, _opts: &TlsOptions<'_>) -> Result<TlsInfo, String> {
        Ok(TlsInfo { certs: self.certs.clone(), verified: true })
    }
}

struct FailTls(&'static str);

impl TlsCheck for FailTls {
    fn check_tls(&self, _: &str, _: u16, _: &TlsOptions<'_>) -> Result<TlsInfo, String> {
        Err(self.0.to_string())
    }
}

struct CaptureTls(RefCell<(String, u16)>, Cell<bool>);

impl TlsCheck for CaptureTls {
    fn check_tls(&self, h: &str, p: u16, opts: &TlsOptions<'_>) -> Result<TlsInfo, String> {
        *self.0.borrow_mut() = (h.to_string(), p);
        self.1.set(opts.server_name == h);
        Err("ok".into())
    }
}

fn der(tag: u8, content: &[u8]) -> Vec<u8> {
    let mut v = vec![tag];
    if content.len() < 128 {
        v.push(content.len() as u8);
    } else {
        v.push(0x82);
        v.push((content.len() >> 8) as u8);
        v.push(content.len() as u8);
    }
    v.extend_from_slice(content);
    v
}

fn test_cert(not_after: &[u8], generalized: bool) -> Vec<u8> {
    let version = der(0xa0, &der(0x02, &[2]));
    let serial = der(0x02, &[1]);
    let alg = der(0x30, &der(0x06, &[0x2a, 0x86, 0x48, 0xce, 0x3d, 0x04, 0x03, 0x02]));
    let issuer = der(0x30, &der(0x31, &der(0x30, &[])));
    let mut validity_body = der(0x17, b"250101000000Z");
    validity_body.extend(der(if generalized { 0x18 } else { 0x17 }, not_after));
    let validity = der(0x30, &validity_body);
    let mut tbs_body = Vec::new();
    for part in [&version, &serial, &alg, &issuer, &validity] {
        tbs_body.extend_from_slice(part);
    }
    let tbs = der(0x30, &tbs_body);
    let mut cert_body = tbs;
    cert_body.extend(alg.clone());
    cert_body.extend(der(0x03, &[0, 1, 2, 3]));
    der(0x30, &cert_body)
}

#[test]
fn reaches_destination_in_two_hops() {
    let dns = FakeDns(vec![]);
    let probe = FakeProbe::new(vec![
        reply(10, 0, 0, 1, 1, false),
        reply(10, 0, 0, 1, 2, false),
        reply(10, 0, 0, 1, 3, false),
        reply(1, 2, 3, 4, 10, true),
        reply(1, 2, 3, 4, 11, true),
        reply(1, 2, 3, 4, 12, true),
    ]);
    let mut out = String::new();
    hako::traceroute::run(&mut out, &probe, &dns, &["1.2.3.4".into()]).unwrap();
    assert!(out.starts_with("traceroute to 1.2.3.4 (1.2.3.4), 30 hops max\n"));
    assert!(out.contains(" 1  10.0.0.1"));
    assert!(out.contains(" 2  1.2.3.4"));
    let hop_lines: Vec<&str> = out.lines().skip(1).collect();
    assert_eq!(hop_lines.len(), 2);
}

#[test]
fn traceroute_resolves_hostname() {
    let dns = FakeDns(vec![Ipv4Addr::new(5, 6, 7, 8)]);
    let probe = FakeProbe::new(vec![reply(5, 6, 7, 8, 5, true), reply(5, 6, 7, 8, 5, true), reply(5, 6, 7, 8, 5, true)]);
    let mut out = String::new();
    hako::traceroute::run(&mut out, &probe, &dns, &["example.com".into()]).unwrap();
    assert!(out.contains("traceroute to example.com (5.6.7.8)"));
}

#[test]
fn timeouts_print_star() {
    let dns = FakeDns(vec![]);
    let probe = FakeProbe::new(vec![
        HopResult::Timeout,
        HopResult::Timeout,
        HopResult::Timeout,
        reply(1, 2, 3, 4, 5, true),
        reply(1, 2, 3, 4, 5, true),
        reply(1, 2, 3, 4, 5, true),
    ]);
    let mut out = String::new();
    hako::traceroute::run(&mut out, &probe, &dns, &["1.2.3.4".into()]).unwrap();
    let first_hop = out.lines().nth(1).unwrap();
    assert!(first_hop.contains('*'));
    assert!(!first_hop.contains("ms"));
}

#[test]
fn custom_max_hops_and_nprobes() {
    let dns = FakeDns(vec![]);
    let probe = FakeProbe::new(vec![reply(1, 1, 1, 1, 1, true)]);
    let mut out = String::new();
    hako::traceroute::run(
        &mut out,
        &probe,
        &dns,
        &["1.2.3.4".into(), "-m".into(), "5".into(), "-q".into(), "1".into()],
    )
    .unwrap();
    assert!(out.contains("5 hops max"));
}

#[test]
fn traceroute_hop_line_format() {
    let dns = FakeDns(vec![]);
    let probe = FakeProbe::new(vec![reply(1, 1, 1, 1, 1, true), HopResult::Timeout]);
    let mut out = String::new();
    hako::traceroute::run(&mut out, &probe, &dns, &["1.1.1.1".into(), "-q".into(), "2".into()]).unwrap();
    assert_eq!(out, "traceroute to 1.1.1.1 (1.1.1.1), 30 hops max\n 1  1.1.1.1  1.000 ms  *\n");
}

#[test]
fn traceroute_strips_url_scheme_and_path() {
    assert_eq!(strip_url("https://example.com/foo?x=1"), "example.com");
    assert_eq!(strip_url("http://example.com"), "example.com");
    assert_eq!(strip_url("https://example.com:443/"), "example.com");
    assert_eq!(strip_url("example.com"), "example.com");
    assert_eq!(strip_url("1.2.3.4"), "1.2.3.4");
}

#[test]
fn traceroute_no_args_errors() {
    let dns = FakeDns(vec![]);
    let probe = FakeProbe::new(vec![]);
    let mut out = String::new();
    assert!(hako::traceroute::run(&mut out, &probe, &dns, &[]).is_err());
}

#[test]
fn parse_args_defaults() {
    let (host, max_hops, nprobes) = hako::traceroute::parse_args(&["example.com".into()]).unwrap();
    assert_eq!(host, "example.com");
    assert_eq!(max_hops, 30);
    assert_eq!(nprobes, 3);
}

#[test]
fn parse_args_flags_after_host() {
    let (host, max_hops, nprobes) = hako::traceroute::parse_args(&[
        "example.com".into(),
        "-m".into(),
        "10".into(),
        "-q".into(),
        "2".into(),
    ])
    .unwrap();
    assert_eq!(host, "example.com");
    assert_eq!(max_hops, 10);
    assert_eq!(nprobes, 2);
}

#[test]
fn parse_args_flags_before_host() {
    let (host, max_hops, nprobes) = hako::traceroute::parse_args(&[
        "-m".into(),
        "10".into(),
        "-q".into(),
        "2".into(),
        "example.com".into(),
    ])
    .unwrap();
    assert_eq!(host, "example.com");
    assert_eq!(max_hops, 10);
    assert_eq!(nprobes, 2);
}

#[test]
fn prints_all_ok() {
    let mut out = String::new();
    hako::ciphers::run(&mut out, &AllSupported, &["example.com".into()]).unwrap();
    assert_eq!(
        out,
        "TLS_AES_128_GCM_SHA256       ok\nTLS_AES_256_GCM_SHA384       ok\nTLS_CHACHA20_POLY1305_SHA256 ok\n"
    );
}

#[test]
fn prints_all_no() {
    let mut out = String::new();
    hako::ciphers::run(&mut out, &NoneSupported, &["example.com".into()]).unwrap();
    assert_eq!(
        out,
        "TLS_AES_128_GCM_SHA256       no\nTLS_AES_256_GCM_SHA384       no\nTLS_CHACHA20_POLY1305_SHA256 no\n"
    );
}

#[test]
fn ciphers_default_port_is_443() {
    let probe = CaptureCipher::new();
    let mut out = String::new();
    hako::ciphers::run(&mut out, &probe, &["example.com".into()]).unwrap();
    assert_eq!(probe.captured(), ("example.com".to_string(), 443));
}

#[test]
fn ciphers_accepts_host_colon_port() {
    let probe = CaptureCipher::new();
    let mut out = String::new();
    hako::ciphers::run(&mut out, &probe, &["example.com:8443".into()]).unwrap();
    assert_eq!(probe.captured(), ("example.com".to_string(), 8443));
}

#[test]
fn ciphers_accepts_https_url() {
    let probe = CaptureCipher::new();
    let mut out = String::new();
    hako::ciphers::run(&mut out, &probe, &["https://example.com/path".into()]).unwrap();
    assert_eq!(probe.captured(), ("example.com".to_string(), 443));
}

#[test]
fn ciphers_wrong_args_error() {
    let mut out = String::new();
    assert!(hako::ciphers::run(&mut out, &AllSupported, &[]).is_err());
    assert!(hako::ciphers::run(&mut out, &AllSupported, &["a".into(), "b".into()]).is_err());
}

#[test]
fn prints_timings() {
    let net = FakePing { tcp_ms: 12, tls_ms: 38 };
    let mut out = String::new();
    hako::tlsping::run(&mut out, &net, &["example.com".into()]).unwrap();
    assert_eq!(out, "tcp   12ms\ntls   38ms\ntotal 50ms\n");
}

#[test]
fn tlsping_default_port_is_443() {
    let net = CapturePing(RefCell::new((String::new(), 0)));
    let mut out = String::new();
    hako::tlsping::run(&mut out, &net, &["example.com".into()]).unwrap();
    assert_eq!(net.0.borrow().clone(), ("example.com".to_string(), 443));
}

#[test]
fn tlsping_accepts_host_colon_port() {
    let net = CapturePing(RefCell::new((String::new(), 0)));
    let mut out = String::new();
    hako::tlsping::run(&mut out, &net, &["example.com:8443".into()]).unwrap();
    assert_eq!(net.0.borrow().clone(), ("example.com".to_string(), 8443));
}

#[test]
fn tlsping_accepts_https_url() {
    let net = CapturePing(RefCell::new((String::new(), 0)));
    let mut out = String::new();
    hako::tlsping::run(&mut out, &net, &["https://example.com/path".into()]).unwrap();
    assert_eq!(net.0.borrow().clone(), ("example.com".to_string(), 443));
}

#[test]
fn tlsping_wrong_args_error() {
    let net = FakePing { tcp_ms: 0, tls_ms: 0 };
    let mut out = String::new();
    assert!(hako::tlsping::run(&mut out, &net, &[]).is_err());
    assert!(hako::tlsping::run(&mut out, &net, &["a".into(), "b".into()]).is_err());
}

#[test]
fn checks_default_port() {
    let mut out = String::new();
    hako::tlscheck::run(&mut out, &FakeTls { certs: vec![] }, &["example.com".into()]).unwrap();
    assert_eq!(out, "example.com:443 ok\n");
}

#[test]
fn accepts_host_port() {
    let mut out = String::new();
    hako::tlscheck::run(&mut out, &FakeTls { certs: vec![] }, &["example.com:8443".into()]).unwrap();
    assert_eq!(out, "example.com:8443 ok\n");
}

#[test]
fn accepts_port_option() {
    let mut out = String::new();
    hako::tlscheck::run(&mut out, &FakeTls { certs: vec![] }, &["-p".into(), "9443".into(), "example.com".into()])
        .unwrap();
    assert_eq!(out, "example.com:9443 ok\n");
}

#[test]
fn tlscheck_accepts_https_url() {
    let mut out = String::new();
    hako::tlscheck::run(&mut out, &FakeTls { certs: vec![] }, &["https://example.com/path".into()]).unwrap();
    assert_eq!(out, "example.com:443 ok\n");
}

#[test]
fn propagates_tls_error() {
    let mut out = String::new();
    let err = hako::tlscheck::run(&mut out, &FailTls("certificate verify failed"), &["example.com".into()]).unwrap_err();
    assert_eq!(err, "certificate verify failed");
}

#[test]
fn tlscheck_wrong_args_error() {
    let mut out = String::new();
    let tls = FakeTls { certs: vec![] };
    assert!(hako::tlscheck::run(&mut out, &tls, &[]).is_err());
    assert!(hako::tlscheck::run(&mut out, &tls, &["-p".into(), "0".into(), "x".into()]).is_err());
    assert!(hako::tlscheck::run(&mut out, &tls, &["x".into(), "y".into()]).is_err());
}

#[test]
fn tlscheck_prints_requested_reports() {
    let leaf = test_cert(b"351231235959Z", false);
    let tls = FakeTls { certs: vec![leaf.clone(), vec![1, 2, 3]] };
    let report = |flag: &str| {
        let mut out = String::new();
        hako::tlscheck::run(&mut out, &tls, &[flag.into(), "example.com".into()]).map(|_| out)
    };
    assert_eq!(
        report("--expiry").unwrap(),
        "example.com:443 ok\nexpires 2035-12-31T23:59:59Z\n"
    );
    assert_eq!(
        report("--cert").unwrap(),
        format!("example.com:443 ok\ncert 0: {} bytes, expires 2035-12-31T23:59:59Z\n", leaf.len())
    );
    assert_eq!(
        report("--chain").unwrap(),
        format!(
            "example.com:443 ok\ncert 0: {} bytes, expires 2035-12-31T23:59:59Z\ncert 1: 3 bytes, expires unknown\n",
            leaf.len()
        )
    );
    let fingerprint = report("--fingerprint").unwrap();
    assert!(fingerprint.starts_with("example.com:443 ok\nsha256 "));
    assert_eq!(fingerprint.len(), "example.com:443 ok\nsha256 ".len() + 64 + 1);
    let want: String = <sha2::Sha256 as sha2::Digest>::digest(&leaf).iter().map(|b| format!("{b:02x}")).collect();
    assert!(fingerprint.ends_with(&format!("{want}\n")));
}

#[test]
fn tlscheck_reports_need_a_certificate() {
    let tls = FakeTls { certs: vec![] };
    for flag in ["--cert", "--expiry", "--fingerprint"] {
        let mut out = String::new();
        let err = hako::tlscheck::run(&mut out, &tls, &[flag.into(), "example.com".into()]).unwrap_err();
        assert_eq!(err, "no certificate");
        assert_eq!(out, "");
    }
    let mut out = String::new();
    hako::tlscheck::run(&mut out, &tls, &["--chain".into(), "example.com".into()]).unwrap();
    assert_eq!(out, "example.com:443 ok\n");
}

#[test]
fn prints_expiry_for_valid_cert() {
    let tls = FakeTls { certs: vec![test_cert(b"351231235959Z", false)] };
    let mut out = String::new();
    hako::certwatch::run(&mut out, &tls, &["example.com".into()]).unwrap();
    assert!(out.starts_with("example.com  ok   expires "));
    assert!(out.contains(" days)"));
}

#[test]
fn prints_error_on_connection_failure() {
    let mut out = String::new();
    hako::certwatch::run(&mut out, &FailTls("connection refused"), &["example.com".into()]).unwrap();
    assert!(out.contains("error: connection refused"));
}

#[test]
fn certwatch_accepts_host_colon_port() {
    let tls = CaptureTls(RefCell::new((String::new(), 0)), Cell::new(false));
    let mut out = String::new();
    hako::certwatch::run(&mut out, &tls, &["example.com:8443".into()]).unwrap();
    assert_eq!(tls.0.borrow().clone(), ("example.com".to_string(), 8443));
    assert!(tls.1.get());
}

#[test]
fn aligns_multiple_hosts() {
    let tls = FakeTls { certs: vec![test_cert(b"351231235959Z", false)] };
    let mut out = String::new();
    hako::certwatch::run(&mut out, &tls, &["a.com".into(), "longer.example.com".into()]).unwrap();
    let lines: Vec<&str> = out.lines().collect();
    assert_eq!(lines.len(), 2);
    let col0: usize = lines[0].find("  ok").unwrap();
    let col1: usize = lines[1].find("  ok").unwrap();
    assert_eq!(col0, col1);
}

#[test]
fn certwatch_wrong_args_error() {
    let tls = FakeTls { certs: vec![test_cert(b"351231235959Z", false)] };
    let mut out = String::new();
    assert!(hako::certwatch::run(&mut out, &tls, &[]).is_err());
}

#[test]
fn ymd_unix_days_epoch() {
    assert_eq!(hako::certwatch::ymd_to_unix_days(1970, 1, 1), 0);
}

#[test]
fn ymd_unix_days_known_date() {
    assert_eq!(hako::certwatch::ymd_to_unix_days(2025, 9, 1), 20332);
}

#[test]
fn certwatch_reports_days_left() {
    let tls = FakeTls { certs: vec![test_cert(b"20250911000000Z", true)] };
    let mut out = String::new();
    let today = hako::certwatch::ymd_to_unix_days(2025, 9, 1);
    hako::certwatch::run_at(&mut out, &tls, &["ex.com".into()], today).unwrap();
    assert_eq!(out, "ex.com  ok   expires 2025-09-11  (10 days)  EXPIRING SOON\n");
}

#[test]
fn certwatch_marks_expired_certificates() {
    let tls = FakeTls { certs: vec![test_cert(b"990101000000Z", false)] };
    let mut out = String::new();
    let today = hako::certwatch::ymd_to_unix_days(2000, 1, 1);
    hako::certwatch::run_at(&mut out, &tls, &["ex.com".into()], today).unwrap();
    assert_eq!(out, "ex.com  ok   expires 1999-01-01  (-365 days)  EXPIRED\n");
}

#[test]
fn leaf_expiry_rejects_garbage() {
    let info = TlsInfo { certs: vec![vec![1, 2, 3]], verified: true };
    assert_eq!(hako::certwatch::leaf_expiry(&info).unwrap_err(), "malformed certificate");
    let none = TlsInfo { certs: vec![], verified: true };
    assert_eq!(hako::certwatch::leaf_expiry(&none).unwrap_err(), "no certificate");
}

#[test]
fn certwatch_invalid_port_stops_report() {
    let tls = FakeTls { certs: vec![] };
    let mut out = String::new();
    let err = hako::certwatch::run(&mut out, &tls, &["a.com:0".into()]).unwrap_err();
    assert_eq!(err, "invalid port");
    assert!(out.is_empty());
}

use std::cell::{Cell, RefCell};

use hako::deps::{Dns, Icmp, Net, Redirect, RedirectStep, Sleeper};
use hako::ipv4::Ipv4Addr;

struct FakeNet(Vec<u8>);

impl Net for FakeNet {
    fn request(&self, _method: &str, _url: &str, _body: &[u8]) -> Result<Vec<u8>, String> {
        Ok(self.0.clone())
    }
}

struct FailNet;

impl Net for FailNet {
    fn request(&self, _method: &str, _url: &str, _body: &[u8]) -> Result<Vec<u8>, String> {
        Err("connection refused".into())
    }
}

struct RecordingNet {
    response: Vec<u8>,
    calls: RefCell<Vec<(String, String, Vec<u8>)>>,
}

impl RecordingNet {
    fn new(response: Vec<u8>) -> Self {
        Self { response, calls: RefCell::new(Vec::new()) }
    }

    fn calls(&self) -> Vec<(String, String, Vec<u8>)> {
        self.calls.borrow().clone()
    }
}

impl Net for RecordingNet {
    fn request(&self, method: &str, url: &str, body: &[u8]) -> Result<Vec<u8>, String> {
        self.calls.borrow_mut().push((method.to_string(), url.to_string(), body.to_vec()));
        Ok(self.response.clone())
    }
}

struct FakeRedirect(Vec<(u16, &'static str)>);

impl Redirect for FakeRedirect {
    fn follow(&self, _url: &str) -> Result<Vec<RedirectStep>, String> {
        Ok(self.0.iter().map(|&(status, url)| RedirectStep { status, url: url.to_string() }).collect())
    }
}

struct CaptureRedirect(Cell<String>);

impl Redirect for CaptureRedirect {
    fn follow(&self, url: &str) -> Result<Vec<RedirectStep>, String> {
        self.0.set(url.to_string());
        Ok(vec![RedirectStep { status: 200, url: url.to_string() }])
    }
}

struct FakeIcmp(u64);

impl Icmp for FakeIcmp {
    fn send_ping(&self, _: Ipv4Addr, _: u16, _: &[u8]) -> Result<u64, String> {
        Ok(self.0)
    }
}

struct FailIcmp;

impl Icmp for FailIcmp {
    fn send_ping(&self, _: Ipv4Addr, _: u16, _: &[u8]) -> Result<u64, String> {
        Err("timeout".into())
    }
}

struct NoSleep;

impl Sleeper for NoSleep {
    fn sleep(&self, _seconds: u64) {}
}

struct FakeDns(Vec<Ipv4Addr>);

impl Dns for FakeDns {
    fn lookup_a(&self, _domain: &str) -> Result<Vec<Ipv4Addr>, String> {
        Ok(self.0.clone())
    }
    fn lookup_ptr(&self, _addr: &Ipv4Addr) -> Result<Vec<String>, String> {
        Ok(vec![])
    }
    fn lookup_aaaa(&self, _domain: &str) -> Result<Vec<String>, String> {
        Ok(vec![])
    }
    fn lookup_mx(&self, _domain: &str) -> Result<Vec<String>, String> {
        Ok(vec![])
    }
    fn lookup_txt(&self, _domain: &str) -> Result<Vec<String>, String> {
        Ok(vec![])
    }
    fn lookup_ns(&self, _domain: &str) -> Result<Vec<String>, String> {
        Ok(vec![])
    }
    fn lookup_cname(&self, _domain: &str) -> Result<Vec<String>, String> {
        Ok(vec![])
    }
}

fn ms(n: u64) -> u64 {
    n * 1_000_000
}

#[test]
fn prints_body() {
    let mut out = Vec::new();
    hako::fetch::run(&mut out, &FakeNet(b"hello world".to_vec()), &["http://example.com".into()]).unwrap();
    assert_eq!(out, b"hello world");
}

#[test]
fn net_error_propagates() {
    let mut out = Vec::new();
    let err = hako::fetch::run(&mut out, &FailNet, &["http://bad.example".into()]).unwrap_err();
    assert_eq!(err, "connection refused");
}

#[test]
fn fetch_no_args_errors() {
    let mut out = Vec::new();
    assert!(hako::fetch::run(&mut out, &FakeNet(vec![]), &[]).is_err());
}

#[test]
fn multiple_urls_concatenates_bodies() {
    let mut out = Vec::new();
    hako::fetch::run(&mut out, &FakeNet(b"hi".to_vec()), &["http://a.com".into(), "http://b.com".into()]).unwrap();
    assert_eq!(out, b"hihi");
}

#[test]
fn multiple_urls_propagates_error() {
    let mut out = Vec::new();
    let err = hako::fetch::run(&mut out, &FailNet, &["http://a.com".into(), "http://b.com".into()]).unwrap_err();
    assert_eq!(err, "connection refused");
}

#[test]
fn request_method_is_passed_to_net() {
    let mut out = Vec::new();
    let net = RecordingNet::new(b"ok".to_vec());
    hako::fetch::run(&mut out, &net, &["-X".into(), "DELETE".into(), "http://example.com".into()]).unwrap();
    assert_eq!(out, b"ok");
    assert_eq!(net.calls(), vec![("DELETE".to_string(), "http://example.com".to_string(), vec![])]);
}

#[test]
fn data_defaults_to_post_and_is_passed_to_net() {
    let mut out = Vec::new();
    let net = RecordingNet::new(b"created".to_vec());
    hako::fetch::run(&mut out, &net, &["-d".into(), "name=hako".into(), "http://example.com".into()]).unwrap();
    assert_eq!(out, b"created");
    assert_eq!(
        net.calls(),
        vec![("POST".to_string(), "http://example.com".to_string(), b"name=hako".to_vec())]
    );
}

#[test]
fn explicit_method_with_data_is_preserved() {
    let mut out = Vec::new();
    let net = RecordingNet::new(b"updated".to_vec());
    hako::fetch::run(
        &mut out,
        &net,
        &["-X".into(), "PUT".into(), "-d".into(), "name=hako".into(), "http://example.com".into()],
    )
    .unwrap();
    assert_eq!(
        net.calls(),
        vec![("PUT".to_string(), "http://example.com".to_string(), b"name=hako".to_vec())]
    );
}

#[test]
fn unsupported_method_errors() {
    let mut out = Vec::new();
    let err = hako::fetch::run(&mut out, &FakeNet(vec![]), &["-X".into(), "TRACE".into(), "http://example.com".into()])
        .unwrap_err();
    assert_eq!(err, "unsupported HTTP method");
}

#[test]
fn prints_direct_response() {
    let net = FakeRedirect(vec![(200, "http://example.com")]);
    let mut out = String::new();
    hako::redirect::run(&mut out, &net, &["http://example.com".into()]).unwrap();
    assert_eq!(out, "200  http://example.com\n");
}

#[test]
fn prints_redirect_chain() {
    let net = FakeRedirect(vec![(301, "http://example.com"), (200, "https://example.com/")]);
    let mut out = String::new();
    hako::redirect::run(&mut out, &net, &["http://example.com".into()]).unwrap();
    assert_eq!(out, "301  http://example.com  →  https://example.com/\n200  https://example.com/\n");
}

#[test]
fn auto_prefixes_http_scheme() {
    let net = CaptureRedirect(Cell::new(String::new()));
    let mut out = String::new();
    hako::redirect::run(&mut out, &net, &["example.com".into()]).unwrap();
    assert_eq!(net.0.take(), "http://example.com");
}

#[test]
fn redirect_wrong_args_error() {
    let net = FakeRedirect(vec![]);
    let mut out = String::new();
    assert!(hako::redirect::run(&mut out, &net, &[]).is_err());
    assert!(hako::redirect::run(&mut out, &net, &["a".into(), "b".into()]).is_err());
}

#[test]
fn ping_ip_prints_rtt() {
    let mut out = String::new();
    hako::ping::run(&mut out, &FakeIcmp(ms(15)), &FakeDns(vec![]), &NoSleep, &["1.2.3.4".into(), "-c".into(), "1".into()])
        .unwrap();
    assert!(out.contains("time=15.000 ms"));
    assert!(out.contains("1 packets transmitted, 1 received, 0% packet loss"));
}

#[test]
fn ping_resolves_hostname() {
    let mut out = String::new();
    hako::ping::run(
        &mut out,
        &FakeIcmp(ms(5)),
        &FakeDns(vec![Ipv4Addr::new(1, 2, 3, 4)]),
        &NoSleep,
        &["example.com".into(), "-c".into(), "1".into()],
    )
    .unwrap();
    assert!(out.contains("PING example.com (1.2.3.4)"));
    assert!(out.contains("from 1.2.3.4"));
}

#[test]
fn timeout_counted_as_loss() {
    let mut out = String::new();
    hako::ping::run(&mut out, &FailIcmp, &FakeDns(vec![]), &NoSleep, &["1.2.3.4".into(), "-c".into(), "1".into()])
        .unwrap();
    assert!(out.contains("1 packets transmitted, 0 received, 100% packet loss"));
}

#[test]
fn parse_args_defaults_count() {
    let (host, count) = hako::ping::parse_args(&["example.com".into()]).unwrap();
    assert_eq!(host, "example.com");
    assert_eq!(count, 4);
}

#[test]
fn parse_args_custom_count() {
    let (_, count) = hako::ping::parse_args(&["example.com".into(), "-c".into(), "3".into()]).unwrap();
    assert_eq!(count, 3);
}

#[test]
fn ping_no_args_errors() {
    assert!(hako::ping::parse_args(&[]).is_err());
}

#[test]
fn ping_rounds_to_microseconds() {
    let mut out = String::new();
    hako::ping::run(&mut out, &FakeIcmp(1_234_567), &FakeDns(vec![]), &NoSleep, &["1.2.3.4".into(), "-c".into(), "1".into()])
        .unwrap();
    assert!(out.contains("time=1.235 ms"));
}

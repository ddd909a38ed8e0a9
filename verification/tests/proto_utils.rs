use hako::dns::{build_query, check_response, parse_a_records, parse_ptr_records, read_name};
use hako::http::{
    handle_response, parse_http_status, parse_response, parse_url, redirect_location,
    sync_http_exchange, write_http_request, Fetched,
};
use hako::ipv4::Ipv4Addr;

fn a_response() -> Vec<u8> {
    vec![
        0x12, 0x34, // ID
        0x81, 0x80, // flags
        0x00, 0x01, // QDCOUNT=1
        0x00, 0x01, // ANCOUNT=1
        0x00, 0x00, 0x00, 0x00, // NS/AR=0
        7, b'e', b'x', b'a', b'm', b'p', b'l', b'e', 3, b'c', b'o', b'm', 0, 0x00, 0x01, 0x00,
        0x01, // answer: compressed name, A, IN, TTL=300, RDLEN=4, 1.2.3.4
        0xc0, 0x0c, 0x00, 0x01, 0x00, 0x01, 0x00, 0x00, 0x01, 0x2c, 0x00, 0x04, 1, 2, 3, 4,
    ]
}

fn check_query(q: &[u8]) {
    assert_eq!(&q[0..2], &[0x12, 0x34]);
    assert_eq!(&q[2..4], &[0x01, 0x00]);
    assert_eq!(&q[4..6], &[0x00, 0x01]);
    assert_eq!(q[12], 7);
    assert_eq!(&q[13..20], b"example");
    assert_eq!(q[20], 3);
    assert_eq!(&q[21..24], b"com");
    assert_eq!(&q[24..], &[0, 0x00, 0x01, 0x00, 0x01]);
}

#[test]
fn dns_build_query_encodes_domain() {
    let q = build_query("example.com", 0x1234, 1);
    check_query(&q);
}

#[test]
fn deps_build_query_encodes_domain() {
    let q = build_query("example.com", 0x1234, 1);
    check_query(&q);
}

#[test]
fn dns_parse_a_records_single() {
    let mut pkt = a_response();
    let addrs = parse_a_records(&pkt).unwrap();
    assert_eq!(addrs, vec![Ipv4Addr::new(1, 2, 3, 4)]);

    pkt[7] = 0;
    let addrs = parse_a_records(&pkt).unwrap();
    assert!(addrs.is_empty());
}

#[test]
fn deps_parse_a_records_single() {
    let mut pkt = a_response();
    assert!(check_response(&pkt, 0x1234).is_ok());
    let addrs = parse_a_records(&pkt).unwrap();
    assert_eq!(addrs, vec![Ipv4Addr::new(1, 2, 3, 4)]);

    pkt[7] = 0;
    assert!(check_response(&pkt, 0x1234).is_ok());
    let addrs = parse_a_records(&pkt).unwrap();
    assert!(addrs.is_empty());
}

#[test]
fn parse_rejects_id_mismatch() {
    let pkt = vec![0x00; 12];
    assert!(check_response(&pkt, 0x0001).is_err());
}

#[test]
fn parse_rejects_nonzero_rcode() {
    let mut pkt = vec![0x12, 0x34, 0x81, 0x83];
    pkt.extend_from_slice(&[0u8; 8]);
    assert!(check_response(&pkt, 0x1234).is_err());
}

#[test]
fn check_response_messages() {
    assert_eq!(check_response(&[0u8; 11], 0).unwrap_err(), "response too short");
    assert_eq!(check_response(&[0u8; 12], 1).unwrap_err(), "ID mismatch");
    let mut pkt = vec![0x12, 0x34, 0x81, 0x83];
    pkt.extend_from_slice(&[0u8; 8]);
    assert_eq!(check_response(&pkt, 0x1234).unwrap_err(), "DNS rcode 3");
    assert_eq!(check_response(&a_response(), 0x1234), Ok(()));
}

#[test]
fn parse_ptr_record() {
    let qname: &[u8] = &[
        1, b'4', 1, b'3', 1, b'2', 1, b'1', 7, b'i', b'n', b'-', b'a', b'd', b'd', b'r', 4, b'a',
        b'r', b'p', b'a', 0,
    ];
    let rdata: &[u8] = &[
        4, b'h', b'o', b's', b't', 7, b'e', b'x', b'a', b'm', b'p', b'l', b'e', 3, b'c', b'o', b'm',
        0,
    ];
    let rdlen = rdata.len() as u16;

    let mut pkt: Vec<u8> = vec![
        0xab, 0xcd, 0x81, 0x80, 0x00, 0x01, 0x00, 0x01, 0x00, 0x00, 0x00, 0x00,
    ];
    pkt.extend_from_slice(qname);
    pkt.extend_from_slice(&[0x00, 0x0c, 0x00, 0x01]);
    pkt.extend_from_slice(&[0xc0, 0x0c]);
    pkt.extend_from_slice(&[0x00, 0x0c]);
    pkt.extend_from_slice(&[0x00, 0x01]);
    pkt.extend_from_slice(&[0x00, 0x00, 0x01, 0x2c]);
    pkt.extend_from_slice(&rdlen.to_be_bytes());
    pkt.extend_from_slice(rdata);

    let names = parse_ptr_records(&pkt).unwrap();
    assert_eq!(names, vec!["host.example.com"]);
}

#[test]
fn parse_ptr_empty() {
    let qname: &[u8] = &[1, b'1', 0];
    let mut pkt: Vec<u8> = vec![
        0x00, 0x01, 0x81, 0x80, 0x00, 0x01, 0x00, 0x00, 0x00, 0x00, 0x00, 0x00,
    ];
    pkt.extend_from_slice(qname);
    pkt.extend_from_slice(&[0x00, 0x0c, 0x00, 0x01]);
    let names = parse_ptr_records(&pkt).unwrap();
    assert!(names.is_empty());
}

#[test]
fn read_name_follows_pointer_and_decodes_lossily() {
    // "a.b" at 0, then a pointer to it at 5.
    let buf = [1, b'a', 1, 0xff, 0, 0xc0, 0x00];
    let (name, next) = read_name(&buf, 5).unwrap();
    assert_eq!(name, "a.\u{fffd}");
    assert_eq!(next, 7);
    let (name, next) = read_name(&buf, 0).unwrap();
    assert_eq!(name, "a.\u{fffd}");
    assert_eq!(next, 5);
}

#[test]
fn read_name_rejects_truncation() {
    assert!(read_name(&[3, b'a'], 0).is_err());
    assert!(read_name(&[0xc0], 0).is_err());
}

fn check_url_defaults() {
    let (tls, host, port, path) = parse_url("http://example.com").unwrap();
    assert!(!tls);
    assert_eq!(host, "example.com");
    assert_eq!(port, 80);
    assert_eq!(path, "/");
}

#[test]
fn net_parse_url_defaults_path_and_port() {
    check_url_defaults();
}

#[test]
fn deps_parse_url_defaults_path_and_port() {
    check_url_defaults();
}

fn check_url_https() {
    let (tls, host, port, path) = parse_url("https://example.com:8443/a/b").unwrap();
    assert!(tls);
    assert_eq!(host, "example.com");
    assert_eq!(port, 8443);
    assert_eq!(path, "/a/b");
}

#[test]
fn net_parse_url_preserves_https_path_and_port() {
    check_url_https();
}

#[test]
fn deps_parse_url_preserves_https_path_and_port() {
    check_url_https();
}

#[test]
fn parse_url_rejects_other_schemes_and_bad_ports() {
    assert!(parse_url("ftp://example.com").is_err());
    assert!(parse_url("http://example.com:99999/").is_err());
    let (tls, _, port, _) = parse_url("https://example.com").unwrap();
    assert!(tls);
    assert_eq!(port, 443);
}

#[test]
fn net_parse_http_status_rejects_malformed_line() {
    let err = parse_http_status("nonsense").unwrap_err();
    assert_eq!(err.to_string(), "invalid HTTP status line");
}

#[test]
fn deps_parse_http_status_rejects_malformed_line() {
    let err = parse_http_status("nonsense").unwrap_err();
    assert_eq!(err.to_string(), "invalid HTTP status line");
}

#[test]
fn parse_http_status_reads_code() {
    assert_eq!(parse_http_status("HTTP/1.1 301 Moved Permanently"), Ok(301));
}

fn check_absolute_location() {
    let headers = vec![("Location".to_string(), "https://example.org/new".to_string())];
    let next = redirect_location(&headers, "https://example.com/old").unwrap();
    assert_eq!(next.as_deref(), Some("https://example.org/new"));
}

#[test]
fn net_redirect_location_accepts_absolute_url() {
    check_absolute_location();
}

#[test]
fn deps_redirect_location_accepts_absolute_url() {
    check_absolute_location();
}

fn check_path_location() {
    let headers = vec![("location".to_string(), "/new".to_string())];
    let next = redirect_location(&headers, "https://example.com/old").unwrap();
    assert_eq!(next.as_deref(), Some("https://example.com/new"));
}

#[test]
fn net_redirect_location_resolves_absolute_path() {
    check_path_location();
}

#[test]
fn deps_redirect_location_resolves_absolute_path() {
    check_path_location();
}

#[test]
fn redirect_location_absent() {
    let headers = vec![("Server".to_string(), "x".to_string())];
    assert_eq!(redirect_location(&headers, "https://example.com/old"), Ok(None));
}

fn check_exchange_body() {
    let response = b"HTTP/1.0 200 OK\r\nContent-Length: 5\r\n\r\nhello";
    let (written, body) = sync_http_exchange(response, "GET", "example.com", "/hello", &[]);
    assert_eq!(
        written,
        b"GET /hello HTTP/1.0\r\nHost: example.com\r\nConnection: close\r\n\r\n".to_vec()
    );
    assert_eq!(body.unwrap(), b"hello".to_vec());
}

#[test]
fn net_sync_http_exchange_writes_request_and_reads_body() {
    check_exchange_body();
}

#[test]
fn deps_sync_http_exchange_writes_request_and_reads_body() {
    check_exchange_body();
}

#[test]
fn sync_http_exchange_writes_method_and_body() {
    let response = b"HTTP/1.0 200 OK\r\nContent-Length: 2\r\n\r\nok";
    let (written, body) = sync_http_exchange(response, "PUT", "example.com", "/item", b"name=hako");
    assert_eq!(
        written,
        b"PUT /item HTTP/1.0\r\nHost: example.com\r\nConnection: close\r\nContent-Length: 9\r\n\r\nname=hako"
            .to_vec()
    );
    assert_eq!(body.unwrap(), b"ok".to_vec());
}

fn check_exchange_404() {
    let response = b"HTTP/1.0 404 Not Found\r\nContent-Length: 0\r\n\r\n";
    let (_, body) = sync_http_exchange(response, "GET", "example.com", "/missing", &[]);
    assert_eq!(body.unwrap_err().to_string(), "HTTP 404");
}

#[test]
fn net_sync_http_exchange_rejects_non_success_status() {
    check_exchange_404();
}

#[test]
fn deps_sync_http_exchange_rejects_non_success_status() {
    check_exchange_404();
}

#[test]
fn write_http_request_without_body() {
    let req = write_http_request("HEAD", "h", "/", &[]);
    assert_eq!(req, b"HEAD / HTTP/1.0\r\nHost: h\r\nConnection: close\r\n\r\n".to_vec());
}

#[test]
fn parse_response_splits_head_and_body() {
    let r = parse_response(b"HTTP/1.1 302 Found\r\nLocation: /x\r\nA: b\r\n\r\nbody").unwrap();
    assert_eq!(r.status, 302);
    assert_eq!(
        r.headers,
        vec![
            ("Location".to_string(), "/x".to_string()),
            ("A".to_string(), "b".to_string())
        ]
    );
    assert_eq!(r.body, b"body".to_vec());
    assert!(parse_response(b"garbage").is_err());
}

#[test]
fn handle_response_follows_and_limits_redirects() {
    let resp = || parse_response(b"HTTP/1.1 301 Moved\r\nLocation: /next\r\n\r\n").unwrap();
    match handle_response(resp(), "http://h/a", 0).unwrap() {
        Fetched::Redirect(u) => assert_eq!(u, "http://h/next"),
        Fetched::Body(_) => panic!("expected a redirect"),
    }
    assert_eq!(
        handle_response(resp(), "http://h/a", 5).err().unwrap(),
        "too many redirects"
    );
    let ok = parse_response(b"HTTP/1.1 200 OK\r\n\r\nfine").unwrap();
    match handle_response(ok, "http://h/a", 5).unwrap() {
        Fetched::Body(b) => assert_eq!(b, b"fine".to_vec()),
        Fetched::Redirect(_) => panic!("expected a body"),
    }
}

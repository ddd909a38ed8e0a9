use hako::certwatch::ymd_to_unix_days;
use hako::fetch::FetchRequest;
use hako::redirect::start_url_exec;
use hako::tar::list_archive;
use hako::tar_header::{numeric_field_exec, octal_field_exec, sizes_fit_exec};
use hako::tlscheck::Target;
use hako::which::first_hit_exec;
use hako::whois::referral_to_follow;

fn strings(xs: &[&str]) -> Vec<String> {
    xs.iter().map(|s| s.to_string()).collect()
}

#[test]
fn explicit_get_with_data_is_kept() {
    let r = FetchRequest::parse(&strings(&["-X", "GET", "-d", "a=1", "http://example.com"])).ok().unwrap();
    assert_eq!(r.method, "GET");
    assert_eq!(r.body, b"a=1".to_vec());
    assert_eq!(r.urls, vec!["http://example.com".to_string()]);
}

#[test]
fn data_then_explicit_method() {
    let r = FetchRequest::parse(&strings(&["-d", "a=1", "-X", "PUT", "u"])).ok().unwrap();
    assert_eq!(r.method, "PUT");
    let r = FetchRequest::parse(&strings(&["-d", "a=1", "u"])).ok().unwrap();
    assert_eq!(r.method, "POST");
}

#[test]
fn tlscheck_accepts_report_flags() {
    let t = Target::parse(&strings(&["--expiry", "example.com"])).ok().unwrap();
    assert_eq!(t.host, "example.com");
    assert_eq!(t.port, 443);
    assert!(t.name.is_none());
    assert_eq!(t.report, hako::tlscheck::Report::Expiry);
    let t = Target::parse(&strings(&["--cert", "--chain", "--fingerprint", "-p", "8443", "h"])).ok().unwrap();
    assert_eq!((t.host.as_str(), t.port), ("h", 8443));
    assert_eq!(t.report, hako::tlscheck::Report::Fingerprint);
    let t = Target::parse(&strings(&["h"])).ok().unwrap();
    assert_eq!(t.report, hako::tlscheck::Report::Status);
}

#[test]
fn tlscheck_name_overrides_server_name() {
    let t = Target::parse(&strings(&["--name", "alt.example", "example.com:444"])).ok().unwrap();
    assert_eq!(t.host, "example.com");
    assert_eq!(t.port, 444);
    assert_eq!(t.name.as_deref(), Some("alt.example"));
    assert!(Target::parse(&strings(&["example.com", "--name"])).is_err());
    assert!(Target::parse(&strings(&["--bogus", "example.com"])).is_err());
}

#[test]
fn whois_follows_referrals_only_from_default_server() {
    let response = "% IANA\nrefer:        whois.verisign-grs.com\n";
    assert_eq!(
        referral_to_follow("whois.iana.org", response).as_deref(),
        Some("whois.verisign-grs.com")
    );
    assert_eq!(referral_to_follow("whois.example.net", response), None);
    assert_eq!(referral_to_follow("whois.iana.org", "no referral here\n"), None);
}

#[test]
fn redirect_start_url_adds_scheme() {
    assert_eq!(start_url_exec("example.com"), "http://example.com");
    assert_eq!(start_url_exec("https://example.com/a"), "https://example.com/a");
    assert_eq!(start_url_exec("http://x"), "http://x");
}

#[test]
fn which_takes_first_yes() {
    let dirs: Vec<Vec<char>> = vec!["/a".chars().collect(), "/b/".chars().collect(), "/c".chars().collect()];
    let name: Vec<char> = "ls".chars().collect();
    assert_eq!(first_hit_exec(&dirs, &name, &[false, true, true]).as_deref(), Some("/b/ls"));
    assert_eq!(first_hit_exec(&dirs, &name, &[true]).as_deref(), Some("/a/ls"));
    assert_eq!(first_hit_exec(&dirs, &name, &[false, false]), None);
}

#[test]
fn empty_or_short_archive_is_truncated() {
    let mut out = String::new();
    assert_eq!(list_archive(&mut out, &[]).unwrap_err(), "truncated tar archive");
    assert_eq!(out, "");
    assert_eq!(list_archive(&mut out, &[0u8; 1024]), Ok(()));
    assert_eq!(out, "");
}

#[test]
fn successive_days_across_month_and_year_ends() {
    assert_eq!(ymd_to_unix_days(1970, 1, 1), 0);
    assert_eq!(ymd_to_unix_days(2024, 2, 29) + 1, ymd_to_unix_days(2024, 3, 1));
    assert_eq!(ymd_to_unix_days(2023, 2, 28) + 1, ymd_to_unix_days(2023, 3, 1));
    assert_eq!(ymd_to_unix_days(1999, 12, 31) + 1, ymd_to_unix_days(2000, 1, 1));
    assert_eq!(ymd_to_unix_days(2000, 1, 1), 10957);
}

struct FailFs;

impl hako::deps::Fs for FailFs {
    fn read(&self, _: &str) -> Result<String, String> {
        Err("no".to_string())
    }
    fn write(&self, _: &str, _: &str) -> Result<(), String> {
        Err("disk full".to_string())
    }
    fn is_file(&self, _: &str) -> bool {
        false
    }
}

impl hako::deps::DirFs for FailFs {
    fn read_bytes(&self, _: &str) -> Result<Vec<u8>, String> {
        Err("no".to_string())
    }
    fn write_bytes(&self, _: &str, _: &[u8]) -> Result<(), String> {
        Err("disk full".to_string())
    }
    fn create_dir_all(&self, _: &str) -> Result<(), String> {
        Ok(())
    }
    fn is_dir(&self, _: &str) -> bool {
        false
    }
    fn list_dir(&self, _: &str) -> Result<Vec<String>, String> {
        Ok(vec![])
    }
}

fn file_archive(path: &str, body: &[u8]) -> Vec<u8> {
    let mut builder = tar_core::builder::EntryBuilder::new_ustar();
    builder.path(path.as_bytes());
    builder.mode(0o644).unwrap();
    builder.uid(0).unwrap();
    builder.gid(0).unwrap();
    builder.size(body.len() as u64).unwrap();
    builder.mtime(0).unwrap();
    builder.entry_type(tar_core::EntryType::Regular);
    let mut out = builder.finish_bytes();
    out.extend_from_slice(body);
    out.resize(out.len().next_multiple_of(512), 0);
    out.extend_from_slice(&[0u8; 1024]);
    out
}

#[test]
fn extract_reports_file_system_errors() {
    assert_eq!(
        hako::tar::extract_archive(&FailFs, &file_archive("a.txt", b"x")),
        Err("disk full".to_string())
    );
    assert_eq!(hako::tar::extract_archive(&FailFs, &[0u8; 1024]), Ok(()));
    assert_eq!(
        hako::tar::extract_archive(&FailFs, &file_archive("../a.txt", b"x")),
        Err("tar entry escapes current directory".to_string())
    );
}

fn extension_header(kind: tar_core::EntryType, size: u64) -> Vec<u8> {
    let mut builder = tar_core::builder::HeaderBuilder::new_ustar();
    builder.path(b"ext").unwrap();
    builder.size(0).unwrap();
    builder.entry_type(kind);
    let mut h = builder.finish().as_bytes().to_vec();
    // The size in base-256 form, then the checksum again.
    h[124..136].fill(0);
    h[124] = 0x80;
    h[128..136].copy_from_slice(&size.to_be_bytes());
    h[148..156].fill(b' ');
    let sum: u64 = h.iter().map(|&b| b as u64).sum();
    h[148..156].copy_from_slice(format!("{:06o}\0 ", sum).as_bytes());
    h
}

#[test]
fn oversized_extension_header_is_refused() {
    // A PAX header with 1000 bytes of data, then a long-name header whose
    // size would push the sum of extension sizes past u64::MAX.
    let mut block = extension_header(tar_core::EntryType::XHeader, 1000);
    block.extend_from_slice(&[b'a'; 1024]);
    block.extend_from_slice(&extension_header(tar_core::EntryType::GnuLongName, u64::MAX - 600));
    block.extend_from_slice(&[0u8; 1024]);
    let mut out = String::new();
    assert_eq!(list_archive(&mut out, &block).unwrap_err(), "invalid tar header size");
    assert_eq!(out, "");
    assert_eq!(
        hako::tar::extract_archive(&FailFs, &block),
        Err("invalid tar header size".to_string())
    );
}

#[test]
fn header_like_bytes_inside_file_data_are_plain_data() {
    let mut body = vec![0u8; 512];
    body[156] = b'x';
    body[124] = 0x80;
    for b in &mut body[128..133] {
        *b = 0xff;
    }
    body[133] = 0xf0;
    let archive = file_archive("a.bin", &body);
    let mut out = String::new();
    assert_eq!(list_archive(&mut out, &archive), Ok(()));
    assert_eq!(out, "a.bin\n");
}

struct MapEnv(Vec<(String, String)>);

impl hako::deps::Env for MapEnv {
    fn vars(&self) -> Vec<(String, String)> {
        self.0.clone()
    }
    fn var(&self, key: &str) -> Option<String> {
        self.0.iter().find(|(k, _)| k == key).map(|(_, v)| v.clone())
    }
}

#[test]
fn env_prints_values_and_reports_missing() {
    let env = MapEnv(vec![("A".into(), "1".into()), ("B".into(), "2".into())]);
    let mut out = String::new();
    let mut err = String::new();
    let r = hako::env::run(&mut out, &mut err, &env, &strings(&["B", "X", "A"]));
    assert_eq!(r, Err("one or more variables not set".to_string()));
    assert_eq!(out, "2\n1\n");
    assert_eq!(err, "X: not set\n");
}

#[test]
fn looping_name_pointers_are_an_error() {
    // A pointer at 0 that points to itself.
    let buf = [0xc0u8, 0x00];
    assert_eq!(hako::dns::read_name(&buf, 0).unwrap_err(), "DNS name compression loop");
    // A PTR answer whose name points to itself.
    let mut pkt: Vec<u8> = vec![0, 1, 0x81, 0x80, 0, 0, 0, 1, 0, 0, 0, 0];
    pkt.extend_from_slice(&[0xc0, 12, 0, 12, 0, 1, 0, 0, 0, 0, 0, 2, 0xc0, 24]);
    assert_eq!(hako::dns::parse_ptr_records(&pkt).unwrap_err(), "DNS name compression loop");
}

#[test]
fn tar_number_fields() {
    assert_eq!(octal_field_exec(b"0000644\0"), Some(420));
    assert_eq!(octal_field_exec(b"     123 "), Some(83));
    assert_eq!(octal_field_exec(b"+17\0garbage"), Some(15));
    assert_eq!(octal_field_exec(b" \x0b\t\0"), Some(0));
    assert_eq!(octal_field_exec(b"+"), None);
    assert_eq!(octal_field_exec(b"-1"), None);
    assert_eq!(octal_field_exec(b"19"), None);
    assert_eq!(numeric_field_exec(&[0x80, 0xff, 0xff, 0xff, 0, 0, 0, 0, 0, 0, 1, 0]), Some(256));
    assert_eq!(numeric_field_exec(b"00000000012\0"), Some(10));
    assert!(sizes_fit_exec(&[]));
    assert!(sizes_fit_exec(&[0u8; 1024]));
}

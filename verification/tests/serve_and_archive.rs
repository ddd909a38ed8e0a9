use std::cell::RefCell;
use std::collections::{HashMap, HashSet};

use hako::deps::{DirFs, Fs};
use hako::httpserver::{
    dir_listing, handle_request, html_escape, local_addrs_from, mime_type, parse_args,
    read_plain_request_line_sync, resolve_path, response_for_request, split_query, Response,
    MAX_HTTP_HEADER_BYTES,
};
use hako::ipv4::Ipv4Addr;
use hako::tar::{extract_archive, list_archive, padded_size, run, safe_path};
use tar_core::builder::EntryBuilder;
use tar_core::EntryType;

struct FakeFs {
    files: RefCell<HashMap<String, Vec<u8>>>,
    dirs: RefCell<HashSet<String>>,
}

impl FakeFs {
    fn new(files: &[(&str, &[u8])], dirs: &[&str]) -> Self {
        Self {
            files: RefCell::new(files.iter().map(|(k, v)| (k.to_string(), v.to_vec())).collect()),
            dirs: RefCell::new(dirs.iter().map(|d| d.to_string()).collect()),
        }
    }

    fn file(&self, path: &str) -> Option<Vec<u8>> {
        self.files.borrow().get(path).cloned()
    }

    fn has_dir(&self, path: &str) -> bool {
        self.dirs.borrow().contains(path)
    }
}

impl Fs for FakeFs {
    fn read(&self, path: &str) -> Result<String, String> {
        self.read_bytes(path).map(|b| String::from_utf8_lossy(&b).into_owned())
    }

    fn write(&self, path: &str, content: &str) -> Result<(), String> {
        self.write_bytes(path, content.as_bytes())
    }

    fn is_file(&self, path: &str) -> bool {
        self.files.borrow().contains_key(path)
    }
}

impl DirFs for FakeFs {
    fn read_bytes(&self, path: &str) -> Result<Vec<u8>, String> {
        self.files.borrow().get(path).cloned().ok_or_else(|| format!("{path}: not found"))
    }

    fn write_bytes(&self, path: &str, content: &[u8]) -> Result<(), String> {
        self.files.borrow_mut().insert(path.to_string(), content.to_vec());
        Ok(())
    }

    fn create_dir_all(&self, path: &str) -> Result<(), String> {
        let mut current = String::new();
        for seg in path.split('/').filter(|s| !s.is_empty() && *s != ".") {
            if !current.is_empty() {
                current.push('/');
            }
            current.push_str(seg);
            self.dirs.borrow_mut().insert(current.clone());
        }
        Ok(())
    }

    fn is_dir(&self, path: &str) -> bool {
        self.has_dir(path)
    }

    fn list_dir(&self, path: &str) -> Result<Vec<String>, String> {
        let prefix = format!("{path}/");
        let mut entries: Vec<String> = self
            .files
            .borrow()
            .keys()
            .filter(|k| k.starts_with(&prefix))
            .filter_map(|k| k.get(prefix.len()..).map(str::to_string))
            .collect();
        entries.sort();
        Ok(entries)
    }
}

fn text(bytes: &[u8]) -> String {
    String::from_utf8_lossy(bytes).into_owned()
}

#[test]
fn serves_file() {
    let fs = FakeFs::new(&[("/root/hello.txt", b"hi")], &["/root"]);
    let r = handle_request(&fs, "/root", "/hello.txt");
    assert_eq!(r.status, 200);
    assert_eq!(r.body, b"hi");
}

#[test]
fn post_returns_method_not_allowed() {
    let fs = FakeFs::new(&[("/root/hello.txt", b"hi")], &["/root"]);
    let r = response_for_request(&fs, "/root", "POST /hello.txt HTTP/1.1");
    assert_eq!(r.status, 405);
    assert!(text(&r.to_bytes()).contains("Allow: GET, HEAD, OPTIONS\r\n"));
}

#[test]
fn mutating_methods_return_method_not_allowed() {
    let fs = FakeFs::new(&[("/root/hello.txt", b"hi")], &["/root"]);
    for method in ["PUT", "PATCH", "DELETE"] {
        let request = format!("{method} /hello.txt HTTP/1.1");
        let r = response_for_request(&fs, "/root", &request);
        assert_eq!(r.status, 405);
        assert!(text(&r.to_bytes()).contains("Allow: GET, HEAD, OPTIONS\r\n"));
    }
}

#[test]
fn options_returns_allowed_methods_without_body() {
    let fs = FakeFs::new(&[("/root/hello.txt", b"hi")], &["/root"]);
    let r = response_for_request(&fs, "/root", "OPTIONS /hello.txt HTTP/1.1");
    let bytes = r.to_bytes();
    let t = text(&bytes);
    assert_eq!(r.status, 204);
    assert!(t.contains("Allow: GET, HEAD, OPTIONS\r\n"));
    assert!(t.contains("Content-Length: 0\r\n"));
    assert!(bytes.ends_with(b"\r\n\r\n"));
}

#[test]
fn head_response_omits_body_bytes() {
    let fs = FakeFs::new(&[("/root/hello.txt", b"hi")], &["/root"]);
    let r = response_for_request(&fs, "/root", "HEAD /hello.txt HTTP/1.1");
    let bytes = r.to_bytes();
    assert!(text(&bytes).contains("Content-Length: 2\r\n"));
    assert!(!bytes.ends_with(b"hi"));
}

#[test]
fn get_response_bytes_are_exact() {
    let fs = FakeFs::new(&[("/root/hello.txt", b"hi")], &["/root"]);
    let r = response_for_request(&fs, "/root", "GET /hello.txt HTTP/1.1");
    assert_eq!(
        text(&r.to_bytes()),
        "HTTP/1.1 200 OK\r\nContent-Type: text/plain\r\nContent-Length: 2\r\nConnection: close\r\n\r\nhi"
    );
}

#[test]
fn returns_404_for_missing() {
    let fs = FakeFs::new(&[], &["/root"]);
    let r = handle_request(&fs, "/root", "/missing.txt");
    assert_eq!(r.status, 404);
}

#[test]
fn directory_listing() {
    let fs = FakeFs::new(&[("/root/a.txt", b""), ("/root/b.txt", b"")], &["/root"]);
    let r = handle_request(&fs, "/root", "/");
    assert_eq!(r.status, 200);
    let body = String::from_utf8(r.body).unwrap();
    assert!(body.contains("a.txt"));
    assert!(body.contains("b.txt"));
}

#[test]
fn directory_listing_escapes_html() {
    let fs = FakeFs::new(&[("/root/<script>.txt", b"")], &["/root"]);
    let r = handle_request(&fs, "/root", "/");
    let body = String::from_utf8(r.body).unwrap();
    assert!(!body.contains("<script>"));
    assert!(body.contains("&lt;script&gt;.txt"));
}

#[test]
fn redirect_body_escapes_html() {
    let r = Response::redirect("/a\"&<b>/");
    let body = String::from_utf8(r.body).unwrap();
    assert!(!body.contains("/a\"&<b>/"));
    assert!(body.contains("/a&quot;&amp;&lt;b&gt;/"));
}

#[test]
fn serves_index_html_for_dir() {
    let fs = FakeFs::new(&[("/root/index.html", b"<h1>home</h1>")], &["/root"]);
    let r = handle_request(&fs, "/root", "/");
    assert_eq!(r.status, 200);
    assert_eq!(r.body, b"<h1>home</h1>");
}

#[test]
fn redirects_dir_without_trailing_slash() {
    let fs = FakeFs::new(&[], &["/root/src"]);
    let r = handle_request(&fs, "/root", "/src");
    assert_eq!(r.status, 301);
    assert_eq!(r.location.as_deref(), Some("/src/"));
}

#[test]
fn redirects_dir_query_after_trailing_slash() {
    let fs = FakeFs::new(&[], &["/root/src"]);
    let r = handle_request(&fs, "/root", "/src?x=1");
    assert_eq!(r.status, 301);
    assert_eq!(r.location.as_deref(), Some("/src/?x=1"));
}

#[test]
fn directory_query_with_trailing_slash_does_not_redirect() {
    let fs = FakeFs::new(&[], &["/root/src"]);
    let r = handle_request(&fs, "/root", "/src/?x=1");
    assert_eq!(r.status, 200);
}

#[test]
fn reads_plain_request_line() {
    let request = b"GET /hello.txt HTTP/1.1\r\nHost: example.com\r\n\r\n";
    let line = read_plain_request_line_sync(&request[..]).unwrap();
    assert_eq!(line, "GET /hello.txt HTTP/1.1\r\n");
}

#[test]
fn rejects_oversized_plain_headers() {
    let request = format!(
        "GET / HTTP/1.1\r\nX-Fill: {}\r\n\r\n",
        "a".repeat(MAX_HTTP_HEADER_BYTES)
    );
    let err = read_plain_request_line_sync(request.as_bytes()).unwrap_err();
    assert_eq!(err.to_string(), "HTTP request headers too large");
}

#[test]
fn blocks_traversal() {
    let fs = FakeFs::new(&[("/etc/passwd", b"secret")], &[]);
    let r = handle_request(&fs, "/root", "/../../../etc/passwd");
    assert_eq!(r.status, 404);
}

#[test]
fn resolve_path_keeps_requests_under_root() {
    assert_eq!(resolve_path("/root", "/../../etc/passwd").as_deref(), Some("/root/etc/passwd"));
    assert_eq!(resolve_path("/root", "/a/./b").as_deref(), Some("/root/a/./b"));
    assert_eq!(resolve_path("/root", "/").as_deref(), Some("/root"));
}

#[test]
fn split_query_parts() {
    assert_eq!(split_query("/a?x=1"), ("/a".to_string(), Some("x=1".to_string())));
    assert_eq!(split_query("/a"), ("/a".to_string(), None));
}

#[test]
fn html_escape_replaces_specials() {
    assert_eq!(html_escape("<a href='x'>&\"</a>"), "&lt;a href=&#39;x&#39;&gt;&amp;&quot;&lt;/a&gt;");
    assert_eq!(html_escape("plain"), "plain");
}

#[test]
fn dir_listing_links_parent_below_root() {
    let html = dir_listing("/sub/", &["x".to_string()]);
    assert!(html.contains("<li><a href=\"..\">..</a></li>"));
    assert!(html.contains("<li><a href=\"x\">x</a></li>"));
    let root = dir_listing("/", &[]);
    assert!(!root.contains("href=\"..\""));
}

#[test]
fn mime_types() {
    assert_eq!(mime_type("foo.html"), "text/html");
    assert_eq!(mime_type("foo.js"), "text/javascript");
    assert_eq!(mime_type("foo.png"), "image/png");
    assert_eq!(mime_type("foo"), "application/octet-stream");
}

#[test]
fn parse_args_defaults_port() {
    let args = vec!["./public".to_string()];
    let (dir, port, tls) = parse_args(&args).unwrap();
    assert_eq!(dir, "./public");
    assert_eq!(port, 8080);
    assert!(!tls);
}

#[test]
fn parse_args_custom_port() {
    let args = vec!["./public".to_string(), "3000".to_string()];
    let (_, port, _) = parse_args(&args).unwrap();
    assert_eq!(port, 3000);
}

#[test]
fn parse_args_tls_flag() {
    let args = vec!["./public".to_string(), "--tls".to_string()];
    let (dir, port, tls) = parse_args(&args).unwrap();
    assert_eq!(dir, "./public");
    assert_eq!(port, 8443);
    assert!(tls);
}

#[test]
fn parse_args_tls_with_port() {
    let args = vec!["./public".to_string(), "9443".to_string(), "--tls".to_string()];
    let (_, port, tls) = parse_args(&args).unwrap();
    assert_eq!(port, 9443);
    assert!(tls);
}

#[test]
fn local_addrs_from_route_table() {
    let content = "Main:\n  +-- 0.0.0.0/0 3 0 5\n     |-- 10.0.0.5\n        /32 host LOCAL\n     |-- 127.0.0.1\n        /32 host LOCAL\n     |-- 10.0.0.5\n        /32 host LOCAL\n     |-- 192.168.1.2\n        /32 host LOCAL\n";
    let addrs = local_addrs_from(content);
    assert_eq!(addrs, vec![Ipv4Addr::new(10, 0, 0, 5), Ipv4Addr::new(192, 168, 1, 2)]);
}

fn archive_bytes(entries: &[Vec<u8>]) -> Vec<u8> {
    let mut archive = Vec::new();
    for entry in entries {
        archive.extend_from_slice(entry);
    }
    archive.extend_from_slice(&[0u8; 1024]);
    archive
}

fn file_entry(path: &str, body: &[u8]) -> Vec<u8> {
    let mut builder = EntryBuilder::new_ustar();
    builder.path(path.as_bytes());
    builder.mode(0o644).unwrap();
    builder.uid(0).unwrap();
    builder.gid(0).unwrap();
    builder.size(body.len() as u64).unwrap();
    builder.mtime(0).unwrap();
    builder.entry_type(EntryType::Regular);

    let mut out = builder.finish_bytes();
    out.extend_from_slice(body);
    out.resize(out.len().next_multiple_of(512), 0);
    out
}

fn dir_entry(path: &str) -> Vec<u8> {
    let mut builder = EntryBuilder::new_ustar();
    builder.path(path.as_bytes());
    builder.mode(0o755).unwrap();
    builder.uid(0).unwrap();
    builder.gid(0).unwrap();
    builder.size(0).unwrap();
    builder.mtime(0).unwrap();
    builder.entry_type(EntryType::Directory);
    builder.finish_bytes()
}

#[test]
fn lists_entries() {
    let archive = archive_bytes(&[dir_entry("docs/"), file_entry("docs/readme.txt", b"hello")]);
    let mut out = String::new();
    list_archive(&mut out, &archive).unwrap();
    assert_eq!(out, "docs/\ndocs/readme.txt\n");
}

#[test]
fn extracts_files_and_dirs() {
    let archive = archive_bytes(&[dir_entry("docs/"), file_entry("docs/readme.txt", b"hello")]);
    let fs = FakeFs::new(&[], &[]);
    extract_archive(&fs, &archive).unwrap();
    assert!(fs.has_dir("docs"));
    assert_eq!(fs.file("docs/readme.txt").as_deref(), Some(b"hello".as_slice()));
}

#[test]
fn rejects_traversal() {
    let archive = archive_bytes(&[file_entry("../secret.txt", b"nope")]);
    let fs = FakeFs::new(&[], &[]);
    let err = extract_archive(&fs, &archive).unwrap_err();
    assert!(err.to_string().contains("escapes current directory"));
}

#[test]
fn tar_wrong_args_error() {
    let fs = FakeFs::new(&[], &[]);
    let mut out = String::new();
    assert!(run(&mut out, &fs, &[]).is_err());
    assert!(run(&mut out, &fs, &["-cf".to_string(), "a.tar".to_string()]).is_err());
}

#[test]
fn tar_run_lists_archive_from_fs() {
    let archive = archive_bytes(&[file_entry("a.txt", b"x")]);
    let fs = FakeFs::new(&[("in.tar", &archive)], &[]);
    let mut out = String::new();
    run(&mut out, &fs, &["-tf".to_string(), "in.tar".to_string()]).unwrap();
    assert_eq!(out, "a.txt\n");
}

#[test]
fn truncated_archive_is_an_error() {
    let mut archive = file_entry("a.txt", &[7u8; 600]);
    archive.truncate(700);
    let mut out = String::new();
    assert!(list_archive(&mut out, &archive).is_err());
}

#[test]
fn padding_rounds_to_blocks() {
    assert_eq!(padded_size(0), Some(0));
    assert_eq!(padded_size(1), Some(512));
    assert_eq!(padded_size(512), Some(512));
    assert_eq!(padded_size(513), Some(1024));
    assert_eq!(padded_size(usize::MAX), None);
}

#[test]
fn safe_path_rules() {
    assert_eq!(safe_path(b"./a//b/"), Ok("a/b".to_string()));
    assert_eq!(safe_path(b"/etc/passwd").unwrap_err(), "tar entry escapes current directory");
    assert_eq!(safe_path(b"a/../b").unwrap_err(), "tar entry escapes current directory");
    assert_eq!(safe_path(b"./").unwrap_err(), "empty tar path");
    assert_eq!(safe_path(&[0xff]).unwrap_err(), "non-utf8 tar path");
}

use mpquic::request::{build_request, requested_file, requested_uri, resolve, Request, Target};
use mpquic::response::{response_body, ResponseQueue, SendOutcome};

fn get(path: &str) -> Request {
    Request::Get(path.to_string())
}

#[test]
fn requests_name_files_below_the_root() {
    assert_eq!(requested_file(b"GET /index.html\r\n", "/srv"), get("/srv/index.html"));
    assert_eq!(requested_file(b"GET a/b\nGET c\n", "/srv/"), get("/srv/a/b"));
    assert_eq!(requested_file(b"GET x", ""), get("x"));
    assert_eq!(requested_file(b"GET \r\n", "/srv"), get("/srv"));
    assert_eq!(requested_file(b"GET a\r", "/srv"), get("/srv/a\r"));
    assert_eq!(requested_file("GET /h\u{e9}\r\n".as_bytes(), "/srv"), get("/srv/h\u{e9}"));
}

#[test]
fn requests_name_their_first_line() {
    assert_eq!(requested_uri(b"GET /../a\\b\r\nHost: x"), get("/../a\\b"));
    assert_eq!(requested_uri(b"GET \r\n"), get(""));
    assert_eq!(requested_uri(b"GET "), Request::NotGet);
    assert_eq!(requested_uri(b"GET \xff"), Request::Undecodable);
    assert_eq!(requested_uri(&build_request("/x y")), get("/x y"));
}

#[test]
fn other_bytes_are_no_requests() {
    assert_eq!(requested_file(b"", "/srv"), Request::NotGet);
    assert_eq!(requested_file(b"GET ", "/srv"), Request::NotGet);
    assert_eq!(requested_file(b"GET/index", "/srv"), Request::NotGet);
    assert_eq!(requested_file(b"get /index", "/srv"), Request::NotGet);
    assert_eq!(requested_file(b"POST /index", "/srv"), Request::NotGet);
    assert_eq!(requested_file(b"GET \xff\xfe", "/srv"), Request::Undecodable);
}

#[test]
fn requests_do_not_leave_the_root() {
    assert_eq!(resolve("/srv", "/../../etc/passwd"), "/srv/etc/passwd");
    assert_eq!(resolve("/srv", "//a//./b/../c/"), "/srv/a/b/c");
    assert_eq!(resolve("/srv", ".."), "/srv");
    assert_eq!(resolve("/srv", "..."), "/srv/...");
    assert_eq!(resolve("/srv", ".hidden/..x"), "/srv/.hidden/..x");
    assert_eq!(resolve("/srv", "..\\x"), "/srv/..\\x");
    assert_eq!(resolve("", "/a/b"), "a/b");
    assert_eq!(resolve("", ""), "");
}

#[test]
fn paths_agree_with_the_standard_library() {
    for root in ["/srv", "/srv/", "www", "", "/"] {
        for uri in ["/a/b.txt", "a//b", "./x/../y", "/", "", "..", "q/./", "a/b/c/", "/..//z"] {
            let mut path = std::path::PathBuf::from(root);
            for c in std::path::Path::new(uri).components() {
                if let std::path::Component::Normal(v) = c {
                    path.push(v)
                }
            }
            assert_eq!(resolve(root, uri), path.to_str().unwrap());
        }
    }
}

#[test]
fn first_lines_agree_with_the_standard_library() {
    for text in ["a\nb", "a\r\nb", "a\rb\n", "\n", "\r\n", "\r", "a\r", "a\r\r\n", "a"] {
        let bytes = format!("GET {}", text);
        let line = text.lines().next().unwrap();
        assert_eq!(requested_file(bytes.as_bytes(), ""), get(&resolve("", line)));
    }
}

#[test]
fn the_server_understands_the_client() {
    assert_eq!(build_request("/a/b"), b"GET /a/b\r\n".to_vec());
    for path in ["/a/b", "/", "", "/x\r", "/../y"] {
        assert_eq!(requested_file(&build_request(path), "/srv"), get(&resolve("/srv", path)));
    }
    // A path with a line feed is cut there.
    assert_eq!(requested_file(&build_request("/a\nb"), "/srv"), get("/srv/a"));
}

#[test]
fn urls_have_a_path_and_mostly_a_domain() {
    let t = Target::parse("https://Example.com:4433/dir/big file?x=1#y").unwrap();
    assert_eq!(t.path, "/dir/big%20file");
    assert_eq!(t.domain.as_deref(), Some("example.com"));
    assert_eq!((t.host.as_deref(), t.port), (Some("example.com"), Some(4433)));
    assert_eq!(t.request(), b"GET /dir/big%20file\r\n".to_vec());
    let t = Target::parse("http://10.0.0.1:80").unwrap();
    assert_eq!(t.path, "/");
    assert_eq!(t.domain, None);
    assert_eq!((t.host.as_deref(), t.port), (Some("10.0.0.1"), Some(80)));
    let t = Target::parse("https://[::1]/x").unwrap();
    assert_eq!((t.host.as_deref(), t.port), (Some("[::1]"), Some(443)));
    let t = Target::parse("data:x").unwrap();
    assert_eq!((t.host, t.port), (None, None));
    assert_eq!(Target::parse("http://a/b\nc").unwrap().path, "/bc");
    assert!(Target::parse("no url").is_none());
    assert!(Target::parse("").is_none());
}

#[test]
fn missing_files_are_answered() {
    assert_eq!(response_body(None), b"Not Found!\r\n".to_vec());
    assert_eq!(response_body(Some(vec![1, 2])), vec![1, 2]);
    assert_eq!(response_body(Some(Vec::new())), Vec::<u8>::new());
}

#[test]
fn what_a_stream_does_not_take_is_kept() {
    let mut q = ResponseQueue::new();
    assert_eq!(q.record_first_send(4, vec![1, 2, 3, 4, 5], SendOutcome::Written(2)), 2);
    assert_eq!(q.pending(4), Some(&[3u8, 4, 5][..]));
    assert_eq!(q.record_first_send(8, vec![7], SendOutcome::Blocked), 0);
    assert_eq!(q.pending(8), Some(&[7u8][..]));
    assert_eq!(q.totals(), Some((2, 4)));
    assert_eq!(q.record_first_send(12, vec![9, 9], SendOutcome::Written(2)), 2);
    assert_eq!(q.record_first_send(16, vec![9, 9], SendOutcome::Failed), 0);
    assert_eq!(q.record_first_send(20, Vec::new(), SendOutcome::Written(0)), 0);
    assert_eq!((q.pending(12), q.pending(16), q.pending(20)), (None, None, None));
    assert_eq!(q.totals(), Some((2, 4)));
}

#[test]
fn responses_are_sent_on_in_order() {
    let body: Vec<u8> = (0..100).collect();
    let mut q = ResponseQueue::new();
    let mut got: Vec<u8> = body[..10].to_vec();
    q.record_first_send(4, body.clone(), SendOutcome::Written(10));
    for n in [1usize, 0, 40, 7, 42] {
        let chunk = q.pending(4).unwrap()[..n].to_vec();
        got.extend_from_slice(&chunk);
        let outcome = if n == 0 { SendOutcome::Blocked } else { SendOutcome::Written(n) };
        assert_eq!(q.record_send(4, outcome), n);
    }
    assert_eq!(got, body);
    assert_eq!(q.pending(4), None);
    assert_eq!(q.totals(), Some((0, 0)));
}

#[test]
fn a_failed_stream_is_forgotten() {
    let mut q = ResponseQueue::new();
    q.record_first_send(4, vec![1, 2, 3], SendOutcome::Blocked);
    q.record_first_send(8, vec![4, 5, 6], SendOutcome::Written(1));
    assert_eq!(q.record_send(4, SendOutcome::Failed), 0);
    assert_eq!(q.pending(4), None);
    assert_eq!(q.pending(8), Some(&[5u8, 6][..]));
    assert_eq!(q.record_send(4, SendOutcome::Written(0)), 0);
    assert_eq!(q.record_send(8, SendOutcome::Written(2)), 2);
    assert_eq!(q.pending(8), None);
}

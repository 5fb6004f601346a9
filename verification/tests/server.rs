use include_dir::{Dir, DirEntry, File};
use kimi_ui::embedded::collect_embedded;
use kimi_ui::static_server::{
    answer_request, cache_control, content_type, disk_lookup, folder_index, handle, parse_request,
    reply_found, reply_missing, resolve, AssetSource, Handled, Lookup, Request,
};

const INDEX: &[u8] = b"<html><script src=\"/assets/index-1.js\"></script></html>";
const SCRIPT: &[u8] = b"console.log(1)";

fn bundle() -> AssetSource {
    AssetSource::from_memory(vec![
        ("./index.html".to_string(), INDEX),
        ("assets\\index-1.js".to_string(), SCRIPT),
        ("docs/index.html".to_string(), b"docs"),
        ("logo.svg".to_string(), b"<svg/>"),
    ])
}

/// The whole answer to a request, as text.
fn get(source: &AssetSource, request: &str) -> String {
    match handle(request.as_bytes(), source) {
        Handled::Answered(reply) => {
            let mut bytes = reply.head.into_bytes();
            bytes.extend_from_slice(&reply.body);
            String::from_utf8_lossy(&bytes).into_owned()
        }
        _ => panic!("an answer is expected for {request}"),
    }
}

fn fetch(source: &AssetSource, path: &str) -> String {
    get(source, &format!("GET {path} HTTP/1.1\r\nHost: localhost\r\nConnection: close\r\n\r\n"))
}

#[test]
fn hashed_asset_urls_are_immutable() {
    assert_eq!(
        cache_control("/assets/index-B-HzRssS.js"),
        "public, max-age=31536000, immutable"
    );
}

#[test]
fn stable_entrypoints_must_revalidate() {
    assert_eq!(cache_control("/"), "no-cache");
    assert_eq!(cache_control("/index.html"), "no-cache");
    assert_eq!(cache_control("/boot.js"), "no-cache");
}

#[test]
fn spa_routes_must_revalidate() {
    assert_eq!(cache_control("/sessions/example"), "no-cache");
}

#[test]
fn serves_index_html_over_http() {
    let text = get(
        &bundle(),
        "GET / HTTP/1.1\r\nHost: localhost\r\nConnection: close\r\n\r\n",
    );
    assert!(text.starts_with("HTTP/1.1 200 OK"), "response: {text:.200}");
    assert!(text.contains("text/html"), "response: {text:.200}");
    assert!(
        text.contains("Cache-Control: no-cache"),
        "stable entrypoints must revalidate: {text:.300}"
    );
    assert!(text.to_lowercase().contains("<html"), "response: {text:.200}");
}

#[test]
fn serves_referenced_assets_with_correct_mime() {
    let source = bundle();
    let index = fetch(&source, "/");
    let asset = {
        let start = index
            .find("\"/assets/")
            .map(|i| i + 1)
            .or_else(|| index.find("\"./assets/").map(|i| i + 2))
            .expect("index.html should reference an /assets/ bundle");
        let rest = &index[start..];
        rest[..rest.find('"').unwrap()].to_string()
    };
    let head = fetch(&source, &asset);
    assert!(head.starts_with("HTTP/1.1 200 OK"), "{asset}: {head:.200}");
    assert!(
        head.contains("text/javascript"),
        "{asset} must be executable JS, not the SPA fallback: {head:.200}"
    );
    assert!(
        head.contains("Cache-Control: public, max-age=31536000, immutable"),
        "hashed assets should be cached across launches: {head:.300}"
    );
    let missing = fetch(&source, "/assets/definitely-missing.js");
    assert!(
        missing.starts_with("HTTP/1.1 404 Not Found"),
        "missing assets must not receive the SPA fallback: {missing:.200}"
    );
}

#[test]
fn answers_are_exact() {
    let source = bundle();
    assert_eq!(
        fetch(&source, "/assets/index-1.js?v=1#x"),
        "HTTP/1.1 200 OK\r\nContent-Type: text/javascript; charset=utf-8\r\nContent-Length: 14\r\nCache-Control: public, max-age=31536000, immutable\r\nX-Content-Type-Options: nosniff\r\nConnection: close\r\n\r\nconsole.log(1)"
    );
    assert_eq!(
        get(&source, "HEAD /logo.svg HTTP/1.1\r\n\r\n"),
        "HTTP/1.1 200 OK\r\nContent-Type: image/svg+xml\r\nContent-Length: 6\r\nCache-Control: no-cache\r\nX-Content-Type-Options: nosniff\r\nConnection: close\r\n\r\n"
    );
    assert!(fetch(&source, "/docs").ends_with("docs"));
    assert!(fetch(&source, "/sessions/abc").ends_with("</html>"));
    assert_eq!(
        fetch(&AssetSource::from_memory(vec![]), "/"),
        "HTTP/1.1 404 Not Found\r\nContent-Length: 0\r\n\r\n"
    );
    assert_eq!(
        get(&source, "POST / HTTP/1.1\r\n\r\n"),
        "HTTP/1.1 405 Method Not Allowed\r\nContent-Length: 0\r\n\r\n"
    );
    for path in ["/..", "/a/../b", "/%2e%2E/x", "/a\\..\\b", "/%2e.%5cx"] {
        assert_eq!(fetch(&source, path), "HTTP/1.1 403 Forbidden\r\nContent-Length: 0\r\n\r\n");
    }
    assert!(fetch(&source, "/..x").starts_with("HTTP/1.1 200 OK"));
}

#[test]
fn malformed_requests_are_ignored() {
    let source = bundle();
    for raw in ["", "\r\n", "GET", "GET\r\nx y", "   \n"] {
        assert!(matches!(handle(raw.as_bytes(), &source), Handled::Ignored), "{raw:?}");
    }
    // Two words are enough, and bytes that are no text do no harm.
    assert!(matches!(handle(b"GET /\xff", &source), Handled::Answered(_)));
}

fn path_of(target: &str) -> String {
    match parse_request(&format!("GET {target} HTTP/1.1\n")) {
        Request::Asset { path, with_body } => {
            assert!(with_body);
            path
        }
        _ => panic!("{target} names an asset"),
    }
}

#[test]
fn percent_escapes_are_decoded() {
    assert_eq!(path_of("/a%20b"), "/a b");
    assert_eq!(path_of("/%41%7a"), "/Az");
    assert_eq!(path_of("/%e9"), "/\u{e9}");
    assert_eq!(path_of("/%zz!"), "/%!");
    assert_eq!(path_of("/%4"), "/\u{4}");
    assert_eq!(path_of("/%"), "/%");
    assert_eq!(path_of("/%+5x"), "/\u{5}x");
    assert_eq!(path_of("/%+"), "/%");
    assert_eq!(path_of("/%-1"), "/%");
    assert_eq!(path_of("/a%3fb?c"), "/a?b");
    assert_eq!(path_of("/a\\b"), "/a/b");
    assert_eq!(path_of("#x?y"), "");
}

#[test]
fn media_types_go_by_extension() {
    for (path, mime) in [
        ("a.html", "text/html; charset=utf-8"),
        ("b/a.js", "text/javascript; charset=utf-8"),
        ("a.css", "text/css; charset=utf-8"),
        ("a.json", "application/json; charset=utf-8"),
        ("a.js.map", "application/json; charset=utf-8"),
        ("a.png", "image/png"),
        ("a.svg", "image/svg+xml"),
        ("a.ico", "image/x-icon"),
        ("a.wasm", "application/wasm"),
        ("a.woff", "font/woff"),
        ("a.woff2", "font/woff2"),
        ("a.ttf", "font/ttf"),
        ("a.txt", "text/plain; charset=utf-8"),
        ("a.HTML", "application/octet-stream"),
        ("a", "application/octet-stream"),
        ("", "application/octet-stream"),
        (".html", "application/octet-stream"),
        ("..", "application/octet-stream"),
        ("a.", "application/octet-stream"),
        ("a.js/b", "application/octet-stream"),
        ("a.js/", "text/javascript; charset=utf-8"),
        ("a.js/./.", "text/javascript; charset=utf-8"),
    ] {
        assert_eq!(content_type(path), mime, "{path}");
    }
}

#[test]
fn extensions_agree_with_the_standard_library() {
    for path in ["a.js", ".js", "a/.js", "a.b.js", "x/..", "a.js/..", "a.js/.", "./a.js", ".", "/", "a/./b.js/"] {
        let ext = std::path::Path::new(path).extension().and_then(|e| e.to_str());
        assert_eq!(content_type(path) == "text/javascript; charset=utf-8", ext == Some("js"), "{path}");
    }
}

#[test]
fn later_files_replace_earlier_ones() {
    let source = AssetSource::from_memory(vec![
        ("a.txt".to_string(), b"one"),
        ("./a.txt".to_string(), b"two"),
        (".\\b.txt".to_string(), b"b"),
    ]);
    match source.lookup("///a.txt") {
        Lookup::Found(body, mime) => {
            assert_eq!(body, b"two");
            assert_eq!(mime, "text/plain; charset=utf-8");
        }
        _ => panic!("a.txt is there"),
    }
    assert!(matches!(source.lookup("/b.txt"), Lookup::Found(b"b", _)));
    assert!(matches!(source.lookup("/c.txt"), Lookup::Missing));
}

#[test]
fn disk_paths_are_resolved() {
    assert_eq!(resolve("a.js", true, false, false), "a.js");
    assert_eq!(resolve("docs", false, true, true), "docs/index.html");
    assert_eq!(resolve("docs/", false, true, true), "docs/index.html");
    assert_eq!(resolve("", false, true, true), "index.html");
    assert_eq!(resolve("docs", false, true, false), "index.html");
    assert_eq!(resolve("route", false, false, false), "index.html");
    assert_eq!(resolve("assets/x.js", false, false, false), "index.html");
    assert_eq!(disk_lookup("route", false, false, false), Some("index.html".to_string()));
    assert_eq!(disk_lookup("docs", false, true, true), Some("docs/index.html".to_string()));
    assert_eq!(disk_lookup("assets/x.js", false, false, false), None);
    assert_eq!(disk_lookup("assets/", false, true, true), None);
    assert_eq!(disk_lookup("assets/x.js", true, false, false), Some("assets/x.js".to_string()));
    assert_eq!(folder_index("a"), "a/index.html");

    let dir = AssetSource::Dir("/root".to_string());
    match answer_request(parse_request("HEAD //a.js x\n"), &dir) {
        Handled::FromDisk { clean, path, with_body } => {
            assert_eq!((clean.as_str(), path.as_str(), with_body), ("a.js", "//a.js", false));
        }
        _ => panic!("the disk decides"),
    }
    assert!(matches!(handle(b"GET", &dir), Handled::Ignored));
    assert!(matches!(handle(b"PUT / x", &dir), Handled::Answered(_)));
}

#[test]
fn replies_announce_their_length() {
    let full = reply_found("/x", true, b"abc", "m");
    let head = reply_found("/x", false, b"abc", "m");
    assert_eq!(full.head, head.head);
    assert_eq!(full.body, b"abc");
    assert!(head.body.is_empty());
    assert!(full.head.contains("Content-Length: 3\r\n"));
    assert!(reply_missing().head.starts_with("HTTP/1.1 404"));
}

#[test]
fn nested_files_are_collected_in_order() {
    const INNER: &[DirEntry<'static>] =
        &[DirEntry::File(File::new("assets/js/a.js", b"a")), DirEntry::File(File::new("assets/js/b.js", b"b"))];
    const MIDDLE: &[DirEntry<'static>] =
        &[DirEntry::Dir(Dir::new("assets/js", INNER)), DirEntry::File(File::new("assets/c.css", b"c"))];
    const OUTER: &[DirEntry<'static>] = &[
        DirEntry::Dir(Dir::new("assets", MIDDLE)),
        DirEntry::File(File::new("index.html", b"i")),
        DirEntry::Dir(Dir::new("empty", &[])),
    ];
    const ROOT: Dir<'static> = Dir::new("", OUTER);
    let root: &'static Dir<'static> = &ROOT;
    let mut files = vec![("first".to_string(), b"0" as &'static [u8])];
    collect_embedded(root, &mut files);
    let got: Vec<(&str, &[u8])> = files.iter().map(|(p, b)| (p.as_str(), *b)).collect();
    assert_eq!(
        got,
        vec![
            ("first", b"0" as &[u8]),
            ("index.html", b"i"),
            ("assets/c.css", b"c"),
            ("assets/js/a.js", b"a"),
            ("assets/js/b.js", b"b"),
        ]
    );
}

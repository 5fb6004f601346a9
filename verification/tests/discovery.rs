use kimi_ui::attach::{attach, attach_next, discover_daemon, server_token, Found, Probe};
use kimi_ui::http::{
    daemon_endpoint, exchange_error, get_request_text, parsed_document, response_body,
    response_json, shutdown_request_text, Stage,
};
use kimi_ui::json::{parse_json, Json};
use kimi_ui::net::{
    base_text, current_addr, host_port_text, is_loopback_host, normalize_host, DaemonAddr,
};
use kimi_ui::registry::{
    candidates_in, daemon_candidates, instance_pid_for, live_only, pid_among, read_records,
    stale_daemons, stale_in, RegistryFile,
};
use kimi_ui::version::{
    cli_version, daemon_stale, parse_kimi_version, version_newer, version_older, MIN_KIMI_VERSION,
};

fn file(name: &str, text: String) -> RegistryFile {
    RegistryFile { name: name.to_string(), text: Some(text) }
}

fn addr(host: &str, port: u16) -> DaemonAddr {
    DaemonAddr { host: host.to_string(), port }
}

fn ports(addrs: &[DaemonAddr]) -> Vec<u16> {
    addrs.iter().map(|a| a.port).collect()
}

/// Which of the addresses have one of the live ports.
fn alive(addrs: &[DaemonAddr], live: &[u16]) -> Vec<bool> {
    addrs.iter().map(|a| live.contains(&a.port)).collect()
}

fn discover(
    files: &Vec<RegistryFile>,
    lock: Option<&str>,
    cli: Option<&str>,
    live: &[u16],
) -> Result<DaemonAddr, String> {
    let found = daemon_candidates(files, lock, cli);
    let up = alive(&found, live);
    discover_daemon(&found, &up)
}

#[test]
fn prefers_longest_running_instance() {
    let (p1, p2) = (40001, 40002);
    let files = vec![
        file(
            "newer.json",
            format!(
                r#"{{"server_id":"newer","pid":1,"host":"127.0.0.1","port":{p2},"started_at":200,"heartbeat_at":200}}"#
            ),
        ),
        file(
            "older.json",
            format!(
                r#"{{"server_id":"older","pid":1,"host":"127.0.0.1","port":{p1},"started_at":100,"heartbeat_at":100}}"#
            ),
        ),
    ];
    let found = discover(&files, None, None, &[p1, p2]).unwrap_or(addr("", 0));
    assert_eq!(found.port, p1);
}

#[test]
fn skips_stale_daemon_older_than_cli() {
    let (stale_port, fresh_port) = (40011, 40012);
    let live = [stale_port, fresh_port];
    let files = vec![
        file(
            "stale.json",
            format!(
                r#"{{"server_id":"stale","pid":1,"host":"127.0.0.1","port":{stale_port},"started_at":100,"host_version":"0.36.1"}}"#
            ),
        ),
        file(
            "fresh.json",
            format!(
                r#"{{"server_id":"fresh","pid":1,"host":"127.0.0.1","port":{fresh_port},"started_at":200,"host_version":"0.39.0"}}"#
            ),
        ),
    ];
    // Stale daemon is skipped even though it is the longest-running.
    let found = discover(&files, None, Some("0.39.0"), &live).unwrap_or(addr("", 0));
    assert_eq!(found.port, fresh_port);
    // Without a known CLI version nothing is skipped.
    let found = discover(&files, None, None, &live).unwrap_or(addr("", 0));
    assert_eq!(found.port, stale_port);
    // An equal or newer daemon is still attached.
    let found = discover(&files, None, Some("0.36.1"), &live).unwrap_or(addr("", 0));
    assert_eq!(found.port, stale_port);
}

#[test]
fn stale_lock_only_is_rejected() {
    let port = 40021;
    let lock = format!(r#"{{"pid":1,"host":"127.0.0.1","port":{port},"host_version":"0.38.0"}}"#);
    assert!(discover(&vec![], Some(&lock), Some("0.39.0"), &[port]).is_err());
}

#[test]
fn stale_daemons_lists_only_live_stale_servers() {
    let (stale_port, fresh_port, dead_port) = (40031, 40032, 40033);
    let files = vec![
        file(
            "stale.json",
            format!(
                r#"{{"server_id":"stale","pid":1,"host":"127.0.0.1","port":{stale_port},"started_at":100,"host_version":"0.36.1"}}"#
            ),
        ),
        file(
            "fresh.json",
            format!(
                r#"{{"server_id":"fresh","pid":1,"host":"127.0.0.1","port":{fresh_port},"started_at":200,"host_version":"0.39.0"}}"#
            ),
        ),
        file(
            "stale-dead.json",
            format!(
                r#"{{"server_id":"stale-dead","pid":1,"host":"127.0.0.1","port":{dead_port},"started_at":300,"host_version":"0.36.1"}}"#
            ),
        ),
    ];
    let old = stale_daemons(&files, None, Some("0.39.0"));
    let up = alive(&old, &[stale_port, fresh_port]);
    let stale = live_only(&old, &up);
    assert_eq!(stale.len(), 1);
    assert_eq!(stale[0].port, stale_port);
    // No CLI version known → nothing is provably stale → nothing to kill.
    assert!(stale_daemons(&files, None, None).is_empty());
}

/// The request is the graceful shutdown route carrying the bearer token.
#[test]
fn shutdown_daemon_posts_shutdown_route() {
    let request = shutdown_request_text(&addr("127.0.0.1", 58627), "t0ken");
    assert!(request.starts_with("POST /api/v1/shutdown HTTP/1.1"));
    assert!(request.contains("Authorization: Bearer t0ken"));
    assert_eq!(
        request,
        "POST /api/v1/shutdown HTTP/1.1\r\nHost: 127.0.0.1:58627\r\nAuthorization: Bearer t0ken\r\nContent-Length: 0\r\nConnection: close\r\n\r\n"
    );
}

#[test]
fn skips_dead_instance_and_falls_back_to_lock() {
    let (dead_port, lock_port) = (40041, 40042);
    let files = vec![file(
        "dead.json",
        format!(
            r#"{{"server_id":"dead","pid":1,"host":"127.0.0.1","port":{dead_port},"started_at":1,"heartbeat_at":1}}"#
        ),
    )];
    let lock = format!(r#"{{"pid":1,"host":"127.0.0.1","port":{lock_port}}}"#);
    let found = discover(&files, Some(&lock), None, &[lock_port]).unwrap_or(addr("", 0));
    assert_eq!(found.port, lock_port);
}

#[test]
fn lock_only_still_works() {
    // The older lock shape: started_at is an ISO string, no instances dir.
    let port = 40051;
    let lock = format!(
        r#"{{"pid":1,"started_at":"2026-07-16T16:52:51.702Z","host":"127.0.0.1","port":{port},"host_version":"0.27.0"}}"#
    );
    let found = discover(&vec![], Some(&lock), None, &[port]).unwrap_or(addr("", 0));
    assert_eq!(found.port, port);
    assert_eq!(found.host, "127.0.0.1");
}

#[test]
fn wildcard_host_normalizes_to_loopback() {
    assert_eq!(normalize_host(Some("0.0.0.0")), "127.0.0.1");
    assert_eq!(normalize_host(Some("::")), "127.0.0.1");
    assert_eq!(normalize_host(Some("[::]")), "127.0.0.1");
    assert_eq!(normalize_host(Some("")), "127.0.0.1");
    assert_eq!(normalize_host(None), "127.0.0.1");
    assert_eq!(normalize_host(Some("192.168.1.2")), "192.168.1.2");
}

#[test]
fn errors_when_nothing_is_reachable() {
    let lock = format!(r#"{{"pid":1,"host":"127.0.0.1","port":{}}}"#, 40061);
    match discover(&vec![], Some(&lock), None, &[]) {
        Ok(_) => panic!("nothing is alive"),
        Err(e) => assert_eq!(
            e,
            "没有发现可达的 kimi daemon（server/instances 与 server/lock 均无效）"
        ),
    }
}

#[test]
fn parses_bare_semver_only() {
    assert_eq!(parse_kimi_version("0.27.0\n"), Some("0.27.0".to_string()));
    assert_eq!(parse_kimi_version("  1.2.3  "), Some("1.2.3".to_string()));
    assert_eq!(parse_kimi_version("v0.27.0"), None);
    assert_eq!(parse_kimi_version("0.27.0-beta"), None);
    assert_eq!(parse_kimi_version(""), None);
}

#[test]
fn enforces_minimum_kimi_version() {
    assert!(version_older("0.39.0", MIN_KIMI_VERSION));
    assert!(!version_older("0.39.1", MIN_KIMI_VERSION));
    assert!(!version_older("0.39.2", MIN_KIMI_VERSION));
    assert!(!version_older("1.0.0", MIN_KIMI_VERSION));
}

#[test]
fn versions_compare_by_their_numbers() {
    assert!(version_newer("0.10.0", "0.9.9"));
    assert!(version_newer("1.0.0", "1.0"));
    assert!(!version_newer("1.0", "1.0.0"));
    assert!(!version_newer("1.2.3", "1.2.3"));
    // Fields that are no numbers do not count.
    assert!(!version_newer("1.x.2", "1.2"));
    assert!(version_newer("1.x.3", "1.2"));
    assert!(!version_newer("4294967296", "0"));
    assert!(version_newer("+2", "1"));
}

#[test]
fn staleness_needs_two_known_versions() {
    assert!(daemon_stale(Some("0.38.0"), Some("0.39.0")));
    assert!(!daemon_stale(Some("0.39.0"), Some("0.39.0")));
    assert!(!daemon_stale(None, Some("0.39.0")));
    assert!(!daemon_stale(Some("0.38.0"), None));
    assert!(!daemon_stale(Some("unknown"), Some("0.39.0")));
    assert!(!daemon_stale(Some("v0.38.0"), Some("0.39.0")));
    assert!(daemon_stale(Some("0.36.1-beta"), Some("0.39.0")));
    assert!(daemon_stale(Some("0.38.0"), Some("0.39.0-rc")));
    assert!(!daemon_stale(Some("0.39.1-beta"), Some("0.39")));
    assert!(!daemon_stale(Some("0.38.0"), Some("dev")));
    assert!(!daemon_stale(Some(""), Some("0.39.0")));
}

#[test]
fn cli_version_needs_a_successful_run() {
    assert_eq!(cli_version(true, b"0.39.1\n"), Some("0.39.1".to_string()));
    assert_eq!(cli_version(false, b"0.39.1\n"), None);
    assert_eq!(cli_version(true, b"0.39.1\xff"), None);
}

#[test]
fn finds_instance_pid_for_endpoint() {
    let port = 40071;
    let files = vec![file(
        "a.json",
        format!(
            r#"{{"server_id":"a","pid":4242,"host":"127.0.0.1","port":{port},"started_at":1,"heartbeat_at":1}}"#
        ),
    )];
    assert_eq!(instance_pid_for(&files, None, &addr("127.0.0.1", port)), Some(4242));

    // A different port must not match this entry.
    assert_eq!(instance_pid_for(&files, None, &addr("127.0.0.1", 40072)), None);
}

#[test]
fn instance_pid_reads_legacy_lock_too() {
    let port = 40081;
    let lock = format!(r#"{{"pid":777,"host":"127.0.0.1","port":{port}}}"#);
    assert_eq!(instance_pid_for(&vec![], Some(&lock), &addr("127.0.0.1", port)), Some(777));
}

#[test]
fn pid_comes_from_the_first_record_that_gives_one() {
    let texts = [
        r#"{"host":"0.0.0.0","port":7}"#,
        r#"{"host":"10.0.0.1","port":7,"pid":1}"#,
        r#"{"host":"::","port":7,"pid":4294967296}"#,
        r#"{"port":7,"pid":12}"#,
        r#"{"port":7,"pid":13}"#,
    ];
    let recs: Vec<Json> = texts.iter().map(|t| parse_json(t).unwrap()).collect();
    assert_eq!(pid_among(&recs, &addr("127.0.0.1", 7)), Some(12));
    assert_eq!(pid_among(&recs, &addr("10.0.0.1", 7)), Some(1));
    assert_eq!(pid_among(&recs, &addr("127.0.0.1", 8)), None);
}

#[test]
fn parses_daemon_base_into_address() {
    let addr = current_addr("http://127.0.0.1:58627").unwrap();
    assert_eq!(addr.host, "127.0.0.1");
    assert_eq!(addr.port, 58627);
    let lan = current_addr("http://192.168.31.106:60001").unwrap();
    assert_eq!(lan.host, "192.168.31.106");
    assert_eq!(lan.port, 60001);
    assert!(current_addr("http://127.0.0.1").is_none());
    assert!(current_addr("http://127.0.0.1:notaport").is_none());
}

#[test]
fn written_addresses_read_back() {
    for (host, port) in [("127.0.0.1", 58627), ("::1", 1), ("h", 65535), ("", 0)] {
        let text = base_text(&addr(host, port));
        let back = current_addr(&text).unwrap();
        assert_eq!((back.host.as_str(), back.port), (host, port));
    }
    assert_eq!(host_port_text(&addr("h", 80)), "h:80");
    assert_eq!(base_text(&addr("h", 80)), "http://h:80");
    assert!(current_addr("http://h:65536").is_none());
    assert_eq!(current_addr("http://http://h:+8").unwrap().host, "h");
}

#[test]
fn recognizes_loopback_hosts() {
    for h in ["127.0.0.1", "localhost", "::1", "[::1]"] {
        assert!(is_loopback_host(h), "{h} should be loopback");
    }
    for h in ["192.168.31.106", "10.0.0.5", "0.0.0.0", "example.com"] {
        assert!(!is_loopback_host(h), "{h} should not be loopback");
    }
}

#[test]
fn daemon_candidates_orders_and_filters() {
    let (p1, p2) = (40091, 40092);
    let older = file(
        "older.json",
        format!(
            r#"{{"server_id":"older","pid":1,"host":"127.0.0.1","port":{p1},"started_at":100,"host_version":"0.42.0"}}"#
        ),
    );
    let newer = file(
        "newer.json",
        format!(
            r#"{{"server_id":"newer","pid":2,"host":"0.0.0.0","port":{p2},"started_at":200,"host_version":"0.42.0"}}"#
        ),
    );
    let mut files = vec![newer, older];
    let found = daemon_candidates(&files, None, Some("0.42.0"));
    assert_eq!(found.len(), 2);
    assert_eq!(found[0].port, p1); // longest-running first
    assert_eq!(found[0].host, "127.0.0.1");
    assert_eq!(found[1].port, p2);
    assert_eq!(found[1].host, "127.0.0.1"); // wildcard bind normalizes

    // A daemon older than the installed CLI is filtered out entirely.
    files[0] = file(
        "newer.json",
        format!(
            r#"{{"server_id":"newer","pid":2,"host":"127.0.0.1","port":{p2},"started_at":200,"host_version":"0.41.0"}}"#
        ),
    );
    let filtered = daemon_candidates(&files, None, Some("0.42.0"));
    assert_eq!(filtered.len(), 1);
    assert_eq!(filtered[0].port, p1);
}

#[test]
fn registry_files_that_are_no_records_are_skipped() {
    let files = vec![
        file("a.txt", r#"{"port":1}"#.to_string()),
        RegistryFile { name: "b.json".to_string(), text: None },
        file("c.json", "not json".to_string()),
        file("d.json", r#"{"port":70000}"#.to_string()),
        file("e.json", r#"{"port":"5"}"#.to_string()),
        file("f.json", r#"[1]"#.to_string()),
        file("g.json", r#"{"port":6,"port":7}"#.to_string()),
    ];
    assert_eq!(read_records(&files).len(), 4);
    assert_eq!(ports(&daemon_candidates(&files, None, None)), vec![7]);
}

#[test]
fn equal_starts_keep_their_order_and_the_lock_is_last() {
    let texts = [
        r#"{"port":1,"started_at":5}"#,
        r#"{"port":2,"started_at":9}"#,
        r#"{"port":3,"started_at":5}"#,
        r#"{"port":4}"#,
        r#"{"port":5,"started_at":18446744073709551615}"#,
    ];
    let recs: Vec<Json> = texts.iter().map(|t| parse_json(t).unwrap()).collect();
    let lock = parse_json(r#"{"port":6}"#).unwrap();
    assert_eq!(ports(&candidates_in(&recs, Some(&lock), None)), vec![4, 1, 3, 2, 5, 6]);
    assert_eq!(ports(&candidates_in(&recs, None, None)), vec![4, 1, 3, 2, 5]);
}

#[test]
fn stale_and_candidates_share_the_records_out() {
    let texts = [
        r#"{"port":1,"host_version":"1.0"}"#,
        r#"{"port":2,"host_version":"2.0"}"#,
        r#"{"port":3}"#,
        r#"{"port":4,"host_version":"unknown"}"#,
        r#"{"port":1,"host_version":"1.0-beta"}"#,
    ];
    let recs: Vec<Json> = texts.iter().map(|t| parse_json(t).unwrap()).collect();
    assert_eq!(ports(&stale_in(&recs, Some("2.0"))), vec![1, 1]);
    assert_eq!(ports(&candidates_in(&recs, None, Some("2.0"))), vec![2, 3, 4]);
    assert_eq!(ports(&candidates_in(&recs, None, None)), vec![1, 2, 3, 4, 1]);
}

#[test]
fn http_get_json_roundtrip() {
    let base = daemon_endpoint("http://127.0.0.1:58627").unwrap_or(addr("", 0));
    let request = get_request_text(&base, "/api/v1/oauth/usage", "t0ken");
    assert!(request.starts_with("GET /api/v1/oauth/usage HTTP/1.1"));
    assert!(request.contains("Authorization: Bearer t0ken"));
    assert_eq!(
        request,
        "GET /api/v1/oauth/usage HTTP/1.1\r\nHost: 127.0.0.1:58627\r\nAuthorization: Bearer t0ken\r\nConnection: close\r\n\r\n"
    );
    let value = response_json(
        b"HTTP/1.1 200 OK\r\nContent-Type: application/json\r\nContent-Length: 10\r\nConnection: close\r\n\r\n{\"ok\":true}",
    );
    match value {
        Ok(v) => assert_eq!(v.bool_at("ok"), Some(true)),
        Err(e) => panic!("{e}"),
    }
}

#[test]
fn http_get_json_rejects_error_status() {
    match response_json(b"HTTP/1.1 401 Unauthorized\r\nContent-Length: 0\r\n\r\n") {
        Ok(_) => panic!("an error status is no answer"),
        Err(err) => {
            assert!(err.contains("401"), "{err}");
            assert_eq!(err, "daemon 响应非 200：HTTP/1.1 401 Unauthorized");
        }
    }
}

#[test]
fn endpoints_and_responses_say_what_is_wrong() {
    match daemon_endpoint("http://localhost") {
        Ok(_) => panic!("no port"),
        Err(e) => assert_eq!(e, "daemon 地址缺少端口：http://localhost"),
    }
    match daemon_endpoint("http://localhost:x") {
        Ok(_) => panic!("no number"),
        Err(e) => assert_eq!(e, "daemon 端口无效：x"),
    }
    assert_eq!(response_body("nothing"), Err("daemon 响应缺少头部分隔".to_string()));
    assert_eq!(response_body("HTTP/1.1 200 OK\r\n\r\na\r\n\r\nb"), Ok("a\r\n\r\nb".to_string()));
    assert_eq!(response_body("\r\n\r\nb"), Err("daemon 响应非 200：".to_string()));
    match response_json(b"HTTP/1.1 200 OK\r\n\r\n{") {
        Ok(_) => panic!("no document"),
        Err(e) => assert!(e.starts_with("解析 JSON 失败："), "{e}"),
    }
    match parsed_document(Err("why".to_string())) {
        Ok(_) => panic!("no document"),
        Err(e) => assert_eq!(e, "解析 JSON 失败：why"),
    }
    // Bytes that are no text are replaced, not refused.
    match response_json(b"HTTP/1.1 200 OK\r\n\r\n\"\xff\"") {
        Ok(Json::Text(t)) => assert_eq!(t, "\u{fffd}"),
        _ => panic!("a text was answered"),
    }
    assert_eq!(exchange_error(Stage::Connect, "e"), "连接 daemon 失败：e");
    assert_eq!(exchange_error(Stage::Prepare, "e"), "e");
    assert_eq!(exchange_error(Stage::Send, "e"), "发送请求失败：e");
    assert_eq!(exchange_error(Stage::Receive, "e"), "读取响应失败：e");
}

#[test]
fn attach_takes_the_first_candidate_that_answers() {
    let mut found = attach(vec![addr("a", 1), addr("b", 2), addr("c", 3), addr("d", 4)]);
    let mut seen = Vec::new();
    loop {
        found = match found {
            Found::Probe(search) => {
                let here = search.candidates[search.at].port;
                seen.push(here);
                let probe = match here {
                    1 => Probe::Closed,
                    2 => Probe::Refused("x".to_string()),
                    _ => Probe::Answered,
                };
                attach_next(search, probe)
            }
            Found::Daemon(a) => {
                assert_eq!(a.port, 3);
                break;
            }
            Found::Nothing(e) => panic!("{e}"),
        };
    }
    assert_eq!(seen, vec![1, 2, 3]);
}

#[test]
fn attach_names_the_last_daemon_that_did_not_answer() {
    let mut found = attach(vec![addr("a", 1), addr("b", 2), addr("c", 3)]);
    loop {
        found = match found {
            Found::Probe(search) => {
                let probe = if search.at == 1 {
                    Probe::Refused("why".to_string())
                } else {
                    Probe::Closed
                };
                attach_next(search, probe)
            }
            Found::Daemon(_) => panic!("none answers"),
            Found::Nothing(e) => {
                assert_eq!(e, "daemon b:2 无响应：why");
                break;
            }
        };
    }
    match attach(vec![]) {
        Found::Nothing(e) => assert_eq!(
            e,
            "没有发现可达的 kimi daemon（server/instances 与 server/lock 均无效）"
        ),
        _ => panic!("there is no candidate"),
    }
}

#[test]
fn token_is_trimmed() {
    assert_eq!(server_token(Some(" tk\n")), Ok("tk".to_string()));
    assert_eq!(server_token(None), Err("读取 server.token 失败".to_string()));
}

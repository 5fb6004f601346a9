use kimi_ui::connections::{
    connection_url, parse_remote_connection, port_written, remote_connection, remote_page_text,
    view_label, ConnKind, Connection,
};
use kimi_ui::json::Json;
use kimi_ui::net::{current_addr, DaemonAddr};
use kimi_ui::tabs::{
    activate_after_removal, add_connection, add_remote_connection, connection_status, daemon_info,
    daemon_of, find_connection, list_connections, local_name, local_tab_name, open_plan, persisted,
    register, remote_capability, remote_connections, remote_probe, remove_connection,
    rename_connection, status_target, switch_connection, tabs_doc, view_visibility, DaemonState,
};
use kimi_ui::web::{
    custom_ui_text, custom_ui_url, desktop_query, launch_at_addr, launch_with, open_url,
    platform_name, restarted_page, Platform, WebUrl, CUSTOM_UI_PORT,
};

fn local(name: &str) -> Connection {
    Connection {
        id: "local".into(),
        name: name.into(),
        kind: ConnKind::Local,
        base: "http://127.0.0.1:58627".into(),
        token: "secret-local".into(),
    }
}

fn remote(id: &str, name: &str) -> Connection {
    Connection {
        id: id.into(),
        name: name.into(),
        kind: ConnKind::Remote,
        base: "http://10.0.0.9:60001".into(),
        token: "secret-remote".into(),
    }
}

fn ids(conns: &[Connection]) -> Vec<&str> {
    conns.iter().map(|c| c.id.as_str()).collect()
}

#[test]
fn parses_remote_connection_addresses() {
    let c = parse_remote_connection("台式机", "192.168.31.106:58627", " tok ").unwrap();
    assert_eq!(c.base, "http://192.168.31.106:58627");
    assert_eq!(c.name, "台式机");
    assert_eq!(c.id, "192.168.31.106-58627");
    assert!(c.kind == ConnKind::Remote);
    assert_eq!(c.token, "tok"); // trimmed

    let bare = parse_remote_connection("", "10.0.0.8", "t").unwrap();
    assert_eq!(bare.base, "http://10.0.0.8:58627");
    assert_eq!(bare.name, "10.0.0.8:58627"); // name defaults to the address

    let with_scheme = parse_remote_connection("n", "http://10.0.0.9:60001", "t").unwrap();
    assert_eq!(with_scheme.base, "http://10.0.0.9:60001");

    assert!(parse_remote_connection("n", "   ", "t").is_err());
    assert!(parse_remote_connection("n", "http://", "t").is_err());
}

#[test]
fn remote_entries_say_what_is_wrong() {
    let err = |a: &str| match parse_remote_connection("n", a, "t") {
        Ok(_) => panic!("{a} is no address"),
        Err(e) => e,
    };
    assert_eq!(err("   "), "请填写地址");
    assert_eq!(err("http://"), "地址无法解析：http://");
    assert_eq!(err(" a b "), "地址无法解析： a b ");
    let no_host = WebUrl { text: "x:".into(), host: None, port: None, last_segment: None };
    match remote_connection("n", "x:", "t", Ok(no_host)) {
        Ok(_) => panic!("there is no host"),
        Err(e) => assert_eq!(e, "地址缺少主机名"),
    }
    let empty = WebUrl { text: "x:".into(), host: Some("".into()), port: None, last_segment: None };
    match remote_connection("n", "x:", "t", Ok(empty)) {
        Ok(_) => panic!("there is no host"),
        Err(e) => assert_eq!(e, "地址缺少主机名"),
    }
    let named = WebUrl {
        text: "x:".into(),
        host: Some("h".into()),
        port: Some(9),
        last_segment: None,
    };
    let c = remote_connection("  ", "x:", " t ", Ok(named)).unwrap();
    assert_eq!((c.id.as_str(), c.name.as_str()), ("h-9", "h:9"));
    assert_eq!((c.base.as_str(), c.token.as_str()), ("http://h:9", "t"));
}

#[test]
fn remote_addresses_are_parsed_as_urls() {
    // Host names come out as the URL rules write them.
    let c = parse_remote_connection("", "HTTP.Example:7", "t").unwrap();
    assert_eq!(c.id, "http.example-7");
    let v6 = parse_remote_connection("", "http://[::1]:70", "t").unwrap();
    assert_eq!(v6.base, "http://[::1]:70");
    let back = current_addr(&v6.base).unwrap();
    assert_eq!((back.host.as_str(), back.port), ("[::1]", 70));
    let tls = parse_remote_connection("", "https://h:8443/path", "t").unwrap();
    assert_eq!(tls.base, "http://h:8443");
}

#[test]
fn a_written_default_port_is_kept() {
    let c = parse_remote_connection("n", "http://10.0.0.8:80", "t").unwrap();
    assert_eq!((c.id.as_str(), c.base.as_str()), ("10.0.0.8-80", "http://10.0.0.8:80"));
    assert_eq!((c.name.as_str(), c.token.as_str()), ("n", "t"));
    assert!(c.kind == ConnKind::Remote);
    let base = |a: &str| parse_remote_connection("", a, "t").unwrap().base;
    assert_eq!(base("https://h:443/x?y:1#z:2"), "http://h:443");
    assert_eq!(base("http://h:443"), "http://h:443");
    assert_eq!(base(" h:80 "), "http://h:80");
    assert_eq!(base("h:0080\\p"), "http://h:80");
    assert_eq!(base("h:8\t0"), "http://h:80");
    assert_eq!(base("h:80\u{1}"), "http://h:80");
    assert_eq!(base("[::1]:80"), "http://[::1]:80");
    assert_eq!(base("http:///h:80"), "http://h:80");
    assert_eq!(base("me:80@h:80?q"), "http://h:80");
}

#[test]
fn without_a_written_port_the_usual_one_is_taken() {
    let base = |a: &str| parse_remote_connection("", a, "t").unwrap().base;
    assert_eq!(base("h"), "http://h:58627");
    assert_eq!(base("https://h/a:80"), "http://h:58627");
    assert_eq!(base("h:"), "http://h:58627");
    assert_eq!(base("[::1]"), "http://[::1]:58627");
    assert_eq!(base("me:80@h"), "http://h:58627");
    assert_eq!(base("h?80:80"), "http://h:58627");
    assert_eq!(port_written("http://h:80"), Some(80));
    assert_eq!(port_written("http://h:65536"), None);
    assert_eq!(port_written("h"), None);
}

#[test]
fn every_added_base_leads_back() {
    for a in ["h:80", "https://[::1]", "http://HTTP:7/", "10.0.0.8", "http.://x"] {
        let c = parse_remote_connection("", a, "t").unwrap();
        let d = current_addr(&c.base).unwrap();
        assert_eq!(c.base, format!("http://{}:{}", d.host, d.port));
        assert_eq!(c.id, format!("{}-{}", d.host, d.port));
    }
}

/// Remote views load the daemon's own UI (same-origin, so no `kimi_origin`
/// and no CORS entry needed on the far side); local views go through the
/// shell's stable loopback origin.
#[test]
fn builds_connection_urls_per_kind() {
    let local = Connection {
        id: "local".into(),
        name: "本地".into(),
        kind: ConnKind::Local,
        base: "http://127.0.0.1:58627".into(),
        token: "tk".into(),
    };
    let local_url = connection_url(&local, Some(CUSTOM_UI_PORT), Platform::Other).unwrap().text;
    assert!(local_url.starts_with("http://127.0.0.1:"), "{local_url}");
    assert!(local_url.contains("kimi_origin="), "{local_url}");
    assert!(local_url.ends_with("#token=tk"), "{local_url}");

    let remote = Connection {
        id: "r".into(),
        name: "远程".into(),
        kind: ConnKind::Remote,
        base: "http://192.168.31.106:58627".into(),
        token: "tk".into(),
    };
    let remote_url = connection_url(&remote, None, Platform::Other).unwrap().text;
    assert!(remote_url.starts_with("http://192.168.31.106:58627/"), "{remote_url}");
    assert!(!remote_url.contains("kimi_origin"), "{remote_url}");
    assert!(remote_url.ends_with("#token=tk"), "{remote_url}");
}

#[test]
fn connection_urls_are_exact() {
    let mut c = local("本地");
    c.token = "tk".into();
    assert_eq!(
        connection_url(&c, Some(51821), Platform::MacOs).unwrap().text,
        "http://127.0.0.1:51821/?kimi_desktop&platform=darwin&kimi_origin=http%3A%2F%2F127.0.0.1%3A58627#token=tk"
    );
    // Without the shell's own server the daemon itself is shown.
    assert_eq!(
        connection_url(&c, None, Platform::MacOs).unwrap().text,
        "http://127.0.0.1:58627/"
    );
    c.base = String::new();
    assert!(connection_url(&c, None, Platform::MacOs).is_err());
    let mut r = remote("r", "n");
    r.base = "http://h:7//".into();
    assert_eq!(remote_page_text(&r.base, "t", Platform::Windows), "http://h:7/?kimi_desktop&platform=win32#token=t");
    assert_eq!(
        connection_url(&r, Some(1), Platform::Windows).unwrap().text,
        "http://h:7/?kimi_desktop&platform=win32#token=secret-remote"
    );
}

#[test]
fn desktop_query_uses_official_bundle_flags() {
    for p in [Platform::MacOs, Platform::Windows, Platform::Other] {
        let query = desktop_query(p);
        assert!(query.starts_with("?kimi_desktop&platform="));
        assert!(query.ends_with(platform_name(p)));
    }
    assert_eq!(desktop_query(Platform::MacOs), "?kimi_desktop&platform=darwin");
}

#[test]
fn launches_carry_token_and_platform() {
    let addr = DaemonAddr { host: "127.0.0.1".into(), port: 58627 };
    let launch = launch_at_addr("tk", &addr, Platform::Other).unwrap();
    assert_eq!(launch.base, "http://127.0.0.1:58627");
    assert_eq!(launch.token, "tk");
    assert_eq!(launch.url.text, "http://127.0.0.1:58627/?kimi_desktop&platform=linux#token=tk");
    assert_eq!(launch.url.host, Some("127.0.0.1".to_string()));
    assert_eq!(launch.url.port, Some(58627));
    assert_eq!(launch.url.last_segment, Some("".to_string()));

    let page = restarted_page(Some(51821), launch, Platform::Other);
    assert!(page.text.starts_with("http://127.0.0.1:51821/"));
    let bad = DaemonAddr { host: "a b".into(), port: 1 };
    match launch_at_addr("tk", &bad, Platform::Other) {
        Ok(_) => panic!("no host"),
        Err(e) => assert!(e.starts_with("构造 web UI 地址失败："), "{e}"),
    }
    match launch_with("tk", &bad, Err("why".to_string())) {
        Ok(_) => panic!("no page"),
        Err(e) => assert_eq!(e, "构造 web UI 地址失败：why"),
    }
}

#[test]
fn own_pages_escape_the_origin() {
    assert_eq!(
        custom_ui_text(7, "http://h:1/a", "t", Platform::Other),
        "http://127.0.0.1:7/?kimi_desktop&platform=linux&kimi_origin=http%3A%2F%2Fh%3A1%2Fa#token=t"
    );
    assert!(custom_ui_url(None, "http://h:1", "t", Platform::Other).is_none());
    assert!(custom_ui_url(Some(7), "http://h:1", "t", Platform::Other).is_some());
}

#[test]
fn only_urls_are_opened() {
    assert_eq!(open_url("https://a.b/c?d#e").unwrap().last_segment, Some("c".to_string()));
    assert_eq!(open_url("mailto:x@y").unwrap().last_segment, None);
    assert_eq!(open_url("http://h:80").unwrap().port, None);
    assert!(open_url("not a url").is_none());
}

/// The local tab's NAME must survive a restart, while its base/token stay
/// out of the file (re-derived from the live daemon each launch).
#[test]
fn persists_local_name_but_not_local_credentials() {
    let conns = vec![local("本机"), remote("r", "台式机")];
    let kept = persisted(&conns);
    let raw = kept
        .iter()
        .map(|c| format!("{} {} {} {}", c.id, c.name, c.base, c.token))
        .collect::<Vec<_>>()
        .join("\n");

    // Local name kept, local secret dropped, remote intact.
    assert!(raw.contains("本机"), "local name must persist: {raw}");
    assert!(!raw.contains("secret-local"), "local token must not persist");
    assert!(raw.contains("secret-remote"));
    assert!(raw.contains("台式机"));

    let stub = kept.iter().find(|c| c.kind == ConnKind::Local).unwrap();
    assert_eq!(stub.name, "本机");
    assert!(stub.base.is_empty() && stub.token.is_empty());
    assert_eq!(local_name(&kept), Some("本机".to_string()));
    assert_eq!(ids(&remote_connections(&kept)), vec!["r"]);
}

#[test]
fn persists_only_remote_connections() {
    // The local daemon is derived fresh each launch; only remote
    // connections (and their tokens) are taken over from disk.
    let conns = vec![local("本地"), remote("r", "远程")];
    let round = remote_connections(&conns);
    assert!(round.iter().any(|c| c.token == "secret-remote"));
    assert!(!round.iter().any(|c| c.token == "secret-local"));
    assert_eq!(round.len(), 1);
    assert_eq!(round[0].id, "r");
    assert!(round[0].kind == ConnKind::Remote);
    assert_eq!(local_name(&round), None);
}

#[test]
fn labels_hold_only_accepted_characters() {
    assert_eq!(view_label("192.168.1.2-58627"), "view-192_168_1_2-58627");
    assert_eq!(view_label("aZ9-/:_é."), "view-aZ9-/:___");
    assert_eq!(view_label(""), "view-");
}

#[test]
fn an_address_is_added_once() {
    let mut conns = vec![local("l")];
    assert_eq!(add_connection(&mut conns, remote("a", "A")), Ok(()));
    assert_eq!(
        add_connection(&mut conns, remote("a", "B")),
        Err("该地址已添加".to_string())
    );
    assert_eq!(ids(&conns), vec!["local", "a"]);
    assert_eq!(conns[1].name, "A");

    assert_eq!(
        add_remote_connection(&mut conns, remote("b", "B"), Err("e".to_string())),
        Err("无法连接 http://10.0.0.9:60001(e)".to_string())
    );
    assert_eq!(add_remote_connection(&mut conns, remote("b", "B"), Ok(())), Ok(()));
    assert_eq!(ids(&conns), vec!["local", "a", "b"]);
    assert_eq!(
        add_remote_connection(&mut conns, remote("b", "B"), Ok(())),
        Err("该地址已添加".to_string())
    );
    assert_eq!(remote_probe(&conns[1]).map(|a| a.port).unwrap_or(0), 60001);
    let mut broken = remote("c", "C");
    broken.base = "x".into();
    assert!(matches!(remote_probe(&broken), Err(e) if e == "地址无效"));
}

#[test]
fn the_local_tab_stays() {
    let mut conns = vec![local("l"), remote("a", "A"), remote("b", "B")];
    assert_eq!(
        remove_connection(&mut conns, "local"),
        Err("本地连接不能删除".to_string())
    );
    assert_eq!(remove_connection(&mut conns, "a"), Ok(()));
    assert_eq!(ids(&conns), vec!["local", "b"]);
    assert_eq!(remove_connection(&mut conns, "nobody"), Ok(()));
    assert_eq!(ids(&conns), vec!["local", "b"]);
    assert_eq!(activate_after_removal(Some("a"), "a"), Some("local"));
    assert_eq!(activate_after_removal(Some("b"), "a"), None);
    assert_eq!(activate_after_removal(None, "a"), None);
}

#[test]
fn renaming_changes_one_name() {
    let mut conns = vec![local("l"), remote("a", "A")];
    assert_eq!(rename_connection(&mut conns, "a", "  neu "), Ok(()));
    assert_eq!(conns[1].name, "neu");
    assert_eq!(conns[1].token, "secret-remote");
    assert_eq!(conns[0].name, "l");
    assert_eq!(rename_connection(&mut conns, "a", "  "), Err("名称不能为空".to_string()));
    assert_eq!(rename_connection(&mut conns, "z", "x"), Err("连接不存在".to_string()));
    assert_eq!(switch_connection(&conns, "a"), Ok(()));
    assert_eq!(switch_connection(&conns, "z"), Err("连接不存在".to_string()));
}

#[test]
fn registering_replaces_or_appends() {
    let mut conns = vec![remote("a", "A")];
    register(&mut conns, &local("one"));
    register(&mut conns, &local("two"));
    assert_eq!(ids(&conns), vec!["a", "local"]);
    assert_eq!(find_connection(&conns, "local").unwrap().name, "two");
    assert!(find_connection(&conns, "z").is_none());
    assert_eq!(daemon_of(&conns, "a").unwrap().base, "http://10.0.0.9:60001");
    assert!(daemon_of(&conns, "z").is_none());
    assert_eq!(local_tab_name(Some("x".into())), "x");
    assert_eq!(local_tab_name(None), "本地");
}

#[test]
fn exactly_one_view_is_shown() {
    let conns = vec![local("l"), remote("a.b", "A")];
    let states = view_visibility(&conns, Some("a.b"));
    assert_eq!(states.iter().filter(|s| s.shown).count(), 1);
    assert_eq!(states[1].label, "view-a_b");
    assert!(states[1].shown);
    assert!(view_visibility(&conns, None).iter().all(|s| !s.shown));
}

fn text<'a>(v: &'a Json, key: &str) -> &'a str {
    v.text_at(key).unwrap_or("?")
}

#[test]
fn pages_are_told_of_connections_but_not_of_tokens() {
    let conns = vec![local("l"), remote("a", "A")];
    let tabs = tabs_doc(&conns, Some("a"));
    assert_eq!(text(&tabs, "active"), "a");
    let items = tabs.array_at("connections").unwrap();
    assert_eq!(text(&items[0], "kind"), "local");
    assert_eq!(text(&items[1], "kind"), "remote");
    assert_eq!(text(&items[1], "name"), "A");
    assert!(items[1].member("base").is_none());
    let list = list_connections(&conns, None);
    assert!(matches!(list.member("active"), Some(Json::Null)));
    let items = list.array_at("connections").unwrap();
    assert_eq!(text(&items[0], "base"), "http://127.0.0.1:58627");
    assert!(items[0].member("token").is_none());

    let state = DaemonState { base: "b".into(), token: "t".into() };
    match daemon_info(Some(&state)) {
        Ok(v) => assert_eq!((text(&v, "base"), text(&v, "token")), ("b", "t")),
        Err(e) => panic!("{e}"),
    }
    assert!(matches!(daemon_info(None), Err(e) if e == "daemon 尚未就绪"));
}

#[test]
fn connection_status_reports_version_or_error() {
    let mut conns = vec![remote("a", "A"), remote("b", "B")];
    conns[1].base = "nowhere".into();
    match status_target(&conns, "a") {
        Ok((a, t)) => assert_eq!((a.port, t.as_str()), (60001, "secret-remote")),
        Err(_) => panic!("the address is valid"),
    }
    match status_target(&conns, "b") {
        Ok(_) => panic!("the address is not valid"),
        Err(v) => assert_eq!(text(&v, "error"), "地址无效"),
    }
    match status_target(&conns, "z") {
        Ok(_) => panic!("there is no such connection"),
        Err(v) => {
            assert_eq!(text(&v, "error"), "连接不存在");
            assert_eq!(v.bool_at("ok"), Some(false));
        }
    }
    let meta = kimi_ui::json::parse_json(r#"{"data":{"server_version":"0.42.0"}}"#);
    let up = connection_status(meta);
    assert_eq!(up.bool_at("ok"), Some(true));
    assert_eq!(text(&up, "version"), "0.42.0");
    assert_eq!(text(&connection_status(Ok(Json::Null)), "version"), "");
    assert_eq!(text(&connection_status(Err("why".into())), "error"), "why");
}

#[test]
fn remote_pages_get_a_capability_of_their_own() {
    let plan = open_plan(&remote("a", "A"));
    let grant = plan.grant.unwrap();
    assert_eq!(grant.identifier, "remote-http---10-0-0-9-60001");
    assert_eq!(grant.origin, "http://10.0.0.9:60001");
    assert_eq!(
        grant.permissions,
        vec![
            "core:window:allow-start-dragging",
            "core:window:allow-internal-toggle-maximize",
            "notification:default",
            "allow-notify",
            "allow-focus-window",
            "allow-toggle-maximize",
            "allow-set-active-session",
        ]
    );
    assert!(plan.navigate);
    assert_eq!(remote_capability("http://h/").origin, "http://h");
    let mut unknown = local("l");
    unknown.base = String::new();
    let plan = open_plan(&unknown);
    assert!(plan.grant.is_none());
    assert!(!plan.navigate);
}

use kimi_ui::chrome::{badge_label, overlay_open, status_height, tabbar_height};
use kimi_ui::download::{destination_next, download_destination, Destination};
use kimi_ui::json::{parse_json, Json};
use kimi_ui::menu::{
    build_app_menu, handle_menu_event, navigation_script, quoted_navigation, refresh_sessions_menu,
    Item, MenuAction, Native,
};
use kimi_ui::rc::{
    exit_target, parse_rc_lock, rc_lock_in, rc_lock_target, rc_qrcode_base64, rc_start_next,
    rc_state, rc_state_doc, rc_stop, remote_control, stderr_tail, RcAction, RcLock, RcState, StartEvent,
    StartStep, StopPlan,
};
use kimi_ui::sessions::{
    daemon_snapshot, parse_sessions, sessions_from, snapshot_next, window_title_text, Snapshot,
};
use kimi_ui::update::{
    auto_update, fetch_next, parse_release_json, progress_doc, release_api_path, release_api_url,
    release_from, release_in, update_error, update_forced, update_info, update_page,
    update_progress, FetchStep, UpdateAction, UpdateEvent, UpdateStage, APP_VERSION,
};
use kimi_ui::usage::{
    extract_plan_usage, plan_usage, row_is_hourly, row_is_weekly, usage_doc, usage_rows, PlanUsage,
    UsageRow,
};
use kimi_ui::web::{open_url, WebUrl};

fn doc(text: &str) -> Json {
    match parse_json(text) {
        Ok(v) => v,
        Err(e) => panic!("{text}: {e}"),
    }
}

/// A document, written plainly.
fn written(v: &Json) -> String {
    match v {
        Json::Null => "null".to_string(),
        Json::Bool(b) => b.to_string(),
        Json::Number(_, t) => t.clone(),
        Json::Text(t) => t.clone(),
        Json::Array(items) => format!("[{}]", items.iter().map(written).collect::<Vec<_>>().join(",")),
        Json::Object(m) => {
            let mut out = String::from("{");
            for (k, v) in m {
                out.push_str(&format!("{k}:{},", written(v)));
            }
            out.push('}');
            out
        }
    }
}

/// The weekly row lives in `summary`, the 5h row in `limits[]`.
const OAUTH_USAGE_SAMPLE: &str = r#"{
    "kind": "ok",
    "summary": {"window": {"duration": 1, "unit": "week"}, "used": 3, "limit": 100,
                "reset_at": "2026-08-29T13:17:18Z"},
    "limits": [{"window": {"duration": 5, "unit": "hour"}, "used": 7, "limit": 200,
                "reset_at": "2026-08-23T19:17:18Z"}],
    "extra_usage": null
}"#;

fn pct(row: &UsageRow) -> Option<u32> {
    let used: f64 = row.used.as_ref()?.parse().ok()?;
    let limit: f64 = row.limit.as_ref()?.parse().ok()?;
    if limit > 0.0 {
        Some((used / limit * 100.0).round() as u32)
    } else {
        None
    }
}

fn extract(base: &str, data: &Json) -> Result<PlanUsage, String> {
    let rows = match usage_rows(data) {
        Ok(rows) => rows,
        Err(e) => return Err(e),
    };
    let pcts: Vec<Option<u32>> = rows.iter().map(pct).collect();
    extract_plan_usage(base, &rows, &pcts, 1000)
}

#[test]
fn extracts_plan_usage_from_oauth_response() {
    let data = doc(OAUTH_USAGE_SAMPLE);
    let plan = extract("http://127.0.0.1:1", &data).unwrap();
    assert_eq!(plan.weekly_pct, 3);
    assert_eq!(plan.hourly_pct, 4); // 7/200 rounds to 4%
    assert_eq!(plan.weekly_reset_at, "2026-08-29T13:17:18Z");
    assert_eq!(plan.hourly_reset_at, "2026-08-23T19:17:18Z");
    assert_eq!(plan.fetched_at, 1000);
}

/// The quota reading records which daemon produced it, so switching tabs
/// does not show the previous connection's numbers.
#[test]
fn plan_usage_records_its_source_daemon() {
    let data = doc(OAUTH_USAGE_SAMPLE);
    let a = extract("http://127.0.0.1:58627", &data).unwrap();
    let b = extract("http://192.168.31.106:58630", &data).unwrap();
    assert_eq!(a.base, "http://127.0.0.1:58627");
    assert_eq!(b.base, "http://192.168.31.106:58630");
    assert_ne!(a.base, b.base, "cache key must distinguish connections");
    assert!(plan_usage(Some(&a), Some(&a.base), false, 1000).show);
    assert!(!plan_usage(Some(&a), Some(&b.base), false, 1000).show);
    // The key is a cache detail, never sent to the page.
    let json = written(&usage_doc(Some(&a)));
    assert!(!json.contains("58627"), "base must be skipped in JSON: {json}");
    assert_eq!(
        json,
        "{weekly_pct:3,weekly_reset_at:2026-08-29T13:17:18Z,hourly_pct:4,hourly_reset_at:2026-08-23T19:17:18Z,fetched_at:1000,}"
    );
    assert_eq!(written(&usage_doc(None)), "{loading:true,}");
}

#[test]
fn oauth_usage_rows_are_matched_by_name_when_window_missing() {
    let data = doc(
        r#"{"kind":"ok","summary":null,
            "limits":[{"name":"Weekly limit","used":50,"limit":100},
                      {"name":"5h limit","used":10,"limit":100}]}"#,
    );
    let plan = extract("http://127.0.0.1:1", &data).unwrap();
    assert_eq!(plan.weekly_pct, 50);
    assert_eq!(plan.hourly_pct, 10);
}

#[test]
fn oauth_usage_error_and_missing_rows_are_rejected() {
    let err = doc(r#"{"kind":"error","message":"not logged in"}"#);
    assert!(extract("http://127.0.0.1:1", &err).unwrap_err().contains("not logged in"));
    let partial = doc(
        r#"{"kind":"ok","summary":null,
            "limits":[{"window":{"duration":1,"unit":"week"},"used":1,"limit":10}]}"#,
    );
    assert!(extract("http://127.0.0.1:1", &partial).is_err());
}

#[test]
fn usage_rows_are_told_apart() {
    assert!(row_is_weekly(&doc(r#"{"window":{"unit":"week"}}"#)));
    assert!(row_is_weekly(&doc(r#"{"name":"My WEEKLY quota"}"#)));
    assert!(!row_is_weekly(&doc(r#"{"window":{"unit":"hour"},"name":"5h"}"#)));
    assert!(row_is_hourly(&doc(r#"{"window":{"unit":"hour","duration":5}}"#)));
    assert!(row_is_hourly(&doc(r#"{"name":"5H Limit"}"#)));
    assert!(!row_is_hourly(&doc(r#"{"window":{"unit":"hour","duration":4}}"#)));
    assert!(!row_is_hourly(&doc(r#"{"window":{"duration":5}}"#)));
    // Letters outside ASCII are lowered too.
    assert!(row_is_weekly(&doc("{\"name\":\"WEE\u{212a}\"}")));
}

#[test]
fn usage_errors_are_exact() {
    let err = |t: &str| extract("b", &doc(t)).unwrap_err();
    assert_eq!(err(r#"{"kind":"error","message":"m"}"#), "额度接口返回错误：m");
    assert_eq!(err(r#"{"kind":"error"}"#), "额度接口返回错误：未知错误");
    assert_eq!(err("null"), "额度响应缺少每周或 5 小时窗口行（接口结构可能已变化）");
    // A row without a positive limit does not count, and the next one is taken.
    let plan = extract(
        "b",
        &doc(
            r#"{"summary":{"name":"week","used":1,"limit":0},
                "limits":[{"name":"week 5h","used":1,"limit":3},{"name":"5h","used":2,"limit":3}]}"#,
        ),
    )
    .unwrap();
    assert_eq!((plan.weekly_pct, plan.hourly_pct), (33, 33));
    assert_eq!(plan.weekly_reset_at, "");
    let rows = usage_rows(&doc(r#"{"summary":[1],"limits":[{"used":1.5,"limit":"3"}]}"#)).unwrap_or(vec![]);
    assert_eq!(rows.len(), 1);
    assert_eq!((rows[0].used.as_deref(), rows[0].limit.as_deref()), (Some("1.5"), None));
}

#[test]
fn usage_is_fetched_when_stale() {
    let u = extract("b", &doc(OAUTH_USAGE_SAMPLE)).unwrap();
    let ask = |base: Option<&str>, fetching: bool, now: u64| {
        let a = plan_usage(Some(&u), base, fetching, now);
        (a.fetch, a.show)
    };
    assert_eq!(ask(Some("b"), false, 1000), (false, true));
    assert_eq!(ask(Some("b"), false, 1600), (false, true));
    assert_eq!(ask(Some("b"), false, 1601), (true, true));
    assert_eq!(ask(Some("b"), true, 1601), (false, true));
    assert_eq!(ask(Some("c"), false, 1000), (true, false));
    assert_eq!(ask(None, false, 9999), (false, false));
    assert_eq!(ask(Some("b"), false, 0), (false, true));
    let none = plan_usage(None, Some("b"), false, 0);
    assert_eq!((none.fetch, none.show), (true, false));
}

#[test]
fn parses_sessions_for_title_and_menu() {
    let v = doc(
        r#"{"data":{"items":[
            {"id":"s1","title":"修复登录","busy":false,"archived":false},
            {"id":"s2","title":"","busy":false,"archived":false},
            {"id":"s3","title":"旧会话","busy":false,"archived":true}
        ]}}"#,
    );
    let sessions = parse_sessions(&v).unwrap();
    assert_eq!(
        sessions,
        vec![
            ("s1".to_string(), "修复登录".to_string()),
            ("s2".to_string(), "未命名会话".to_string()),
        ]
    );
    assert!(parse_sessions(&doc(r#"{ "data": {} }"#)).is_none());
}

#[test]
fn sessions_come_with_reasons() {
    assert_eq!(sessions_from(Err("e".into())), Err("e".to_string()));
    assert_eq!(sessions_from(Ok(Json::Null)), Err("会话列表结构可能已变化".to_string()));
    let v = doc(r#"{"data":{"items":[{"title":"no id"},{"id":"a","title":" x "},{"id":"b"},7]}}"#);
    assert_eq!(
        sessions_from(Ok(v)),
        Ok(vec![
            ("a".to_string(), " x ".to_string()),
            ("b".to_string(), "未命名会话".to_string()),
        ])
    );
}

#[test]
fn window_title_names_the_active_session() {
    let sessions = vec![
        ("a".to_string(), "一".repeat(61)),
        ("b".to_string(), "B".to_string()),
        ("b".to_string(), "second".to_string()),
    ];
    assert_eq!(window_title_text(Some("b"), &sessions), "B — Kimi Code");
    assert_eq!(
        window_title_text(Some("a"), &sessions),
        format!("{} — Kimi Code", "一".repeat(60))
    );
    assert_eq!(window_title_text(Some("z"), &sessions), "Kimi Code");
    assert_eq!(window_title_text(None, &sessions), "Kimi Code");
}

fn done(step: Snapshot) -> Json {
    match step {
        Snapshot::Done(v) => v,
        _ => panic!("the snapshot is done"),
    }
}

fn state(v: &Json) -> &str {
    v.text_at("state").unwrap_or("?")
}

#[test]
fn snapshot_reports_what_the_daemon_answers() {
    let meta = || Ok(doc(r#"{"data":{"server_version":"0.42.0"}}"#));
    let off = done(daemon_snapshot(false));
    assert_eq!((state(&off), off.text_at("error")), ("down", Some("daemon 尚未就绪")));
    let down = done(snapshot_next(daemon_snapshot(true), Err("e".into())));
    assert_eq!((state(&down), down.text_at("error")), ("down", Some("e")));
    assert!(down.member("version").is_none());

    let down = done(snapshot_next(snapshot_next(daemon_snapshot(true), meta()), Err("f".into())));
    assert_eq!((state(&down), down.text_at("version")), ("down", Some("0.42.0")));
    let broken = snapshot_next(snapshot_next(daemon_snapshot(true), meta()), Ok(Json::Null));
    assert_eq!(state(&done(broken)), "broken");

    let idle = snapshot_next(
        snapshot_next(daemon_snapshot(true), meta()),
        Ok(doc(r#"{"data":{"items":[{"id":"a","archived":true}]}}"#)),
    );
    let idle = done(idle);
    assert_eq!((state(&idle), idle.text_at("version")), ("ok", Some("0.42.0")));
    assert!(matches!(idle.member("session"), Some(Json::Null)));
    assert!(matches!(idle.member("status"), Some(Json::Null)));
}

#[test]
fn snapshot_picks_the_busy_session_first() {
    let items = r#"{"data":{"items":[{"id":"a"},{"id":"b","busy":true,"archived":true},{"id":"c","busy":true}]}}"#;
    let step = snapshot_next(
        snapshot_next(daemon_snapshot(true), Ok(doc(r#"{"data":{}}"#))),
        Ok(doc(items)),
    );
    match &step {
        Snapshot::Status { path, .. } => assert_eq!(path, "/api/v1/sessions/b/status"),
        _ => panic!("a session is picked"),
    }
    let v = done(snapshot_next(step, Ok(doc(r#"{"data":{"x":1}}"#))));
    assert!(matches!(v.member("version"), Some(Json::Null)));
    assert_eq!(v.member("session").unwrap().text_at("id"), Some("b"));
    assert_eq!(v.member("status").unwrap().u64_at("x"), Some(1));

    let calm = r#"{"data":{"items":[{"archived":true},{"archived":false}]}}"#;
    let step = snapshot_next(
        snapshot_next(daemon_snapshot(true), Ok(Json::Null)),
        Ok(doc(calm)),
    );
    match &step {
        Snapshot::Status { path, .. } => assert_eq!(path, "/api/v1/sessions//status"),
        _ => panic!("a session is picked"),
    }
    let v = done(snapshot_next(step, Err("gone".into())));
    assert!(matches!(v.member("status"), Some(Json::Null)));
}

fn sessions(n: usize) -> Vec<(String, String)> {
    (0..n).map(|i| (format!("s{i}"), format!("{}{i}", "t".repeat(45)))).collect()
}

#[test]
fn menu_bar_is_complete() {
    let bar = build_app_menu(&sessions(10));
    let titles: Vec<&str> = bar.iter().map(|m| m.title.as_str()).collect();
    assert_eq!(titles, vec!["Kimi Code", "文件", "编辑", "会话", "窗口", "帮助"]);
    let sizes: Vec<usize> = bar.iter().map(|m| m.items.len()).collect();
    assert_eq!(sizes, vec![9, 3, 7, 8, 4, 2]);
    assert!(matches!(&bar[0].items[8], Item::Native(Native::Quit, l) if l == "退出 Kimi Code"));
    match &bar[1].items[0] {
        Item::Action { id, label, enabled, shortcut } => {
            assert_eq!((id.as_str(), label.as_str()), ("new-session", "新建会话"));
            assert_eq!((*enabled, *shortcut), (true, Some("CmdOrCtrl+N")));
        }
        _ => panic!("new session comes first"),
    }
    match &bar[3].items[7] {
        Item::Action { id, label, enabled, shortcut } => {
            assert_eq!((id.as_str(), label.chars().count()), ("open-session:s7", 40));
            assert_eq!((*enabled, *shortcut), (true, None));
        }
        _ => panic!("sessions are actions"),
    }
    let empty = build_app_menu(&vec![]);
    match &empty[3].items[0] {
        Item::Action { id, label, enabled, .. } => {
            assert_eq!((id.as_str(), label.as_str()), ("sessions-empty", "（暂无会话）"));
            assert!(!enabled);
        }
        _ => panic!("a placeholder is shown"),
    }
}

#[test]
fn menu_is_rebuilt_only_for_other_sessions() {
    let first = refresh_sessions_menu(&sessions(10), &vec![]).unwrap();
    assert_eq!(first, sessions(8));
    assert!(refresh_sessions_menu(&sessions(9), &first).is_none());
    assert!(refresh_sessions_menu(&vec![], &vec![]).is_none());
    assert_eq!(refresh_sessions_menu(&sessions(2), &first), Some(sessions(2)));
    let mut renamed = sessions(8);
    renamed[7].1 = "x".to_string();
    assert_eq!(refresh_sessions_menu(&renamed, &first), Some(renamed.clone()));
}

#[test]
fn menu_items_act() {
    assert!(matches!(handle_menu_event("new-session"), MenuAction::Navigate(p) if p == "/"));
    assert!(matches!(handle_menu_event("zoom"), MenuAction::ToggleZoom));
    assert!(matches!(
        handle_menu_event("docs"),
        MenuAction::Browse("https://www.kimi.com/code/docs/en/")
    ));
    assert!(matches!(handle_menu_event("check-update"), MenuAction::CheckUpdate));
    assert!(
        matches!(handle_menu_event("open-session:a/b"), MenuAction::Navigate(p) if p == "/sessions/a/b")
    );
    assert!(matches!(handle_menu_event("sessions-empty"), MenuAction::Nothing));
}

#[test]
fn navigation_scripts_quote_their_path() {
    assert_eq!(
        navigation_script("/"),
        "try{history.pushState({},'',\"/\")}catch(e){location.assign(\"/\")}"
    );
    assert_eq!(
        navigation_script("/a\"b\\"),
        "try{history.pushState({},'',\"/a\\\"b\\\\\")}catch(e){location.assign(\"/a\\\"b\\\\\")}"
    );
    assert_eq!(
        navigation_script("\u{8}\t\n\u{c}\r\u{1f}\u{0}\u{7f}/é"),
        quoted_navigation("\"\\b\\t\\n\\f\\r\\u001f\\u0000\u{7f}/é\"")
    );
    assert_eq!(quoted_navigation("Q"), "try{history.pushState({},'',Q)}catch(e){location.assign(Q)}");
}

#[test]
fn parses_rc_lock_fields() {
    let lock = parse_rc_lock(
        r#"{"pid":4321,"nonce":"x","local_origin":"http://127.0.0.1:58627",
            "device_id":"d","url":"https://code-rc.kimi.com/devices/d/?rc=1",
            "started_at":1}"#,
    )
    .unwrap();
    assert_eq!(lock.pid, 4321);
    assert_eq!(lock.local_origin, "http://127.0.0.1:58627");
    assert_eq!(lock.url, "https://code-rc.kimi.com/devices/d/?rc=1");
    assert!(parse_rc_lock(r#"{"pid":"not-a-number"}"#).is_none());
    assert!(parse_rc_lock("not json").is_none());
}

fn lock(origin: &str, url: &str) -> RcLock {
    RcLock { pid: 1, local_origin: origin.to_string(), url: url.to_string() }
}

#[test]
fn rc_lock_liveness_probes_recorded_origin() {
    let port = 40101;
    let target = rc_lock_target(&lock(&format!("http://127.0.0.1:{port}"), "")).unwrap();
    assert_eq!((target.host.as_str(), target.port), ("127.0.0.1", port));
    assert!(rc_lock_target(&lock("", "")).is_none());
    assert!(rc_lock_target(&lock("http://127.0.0.1", "")).is_none());
    assert!(rc_lock_target(&lock("http://127.0.0.1:x", "")).is_none());
    // The first colon counts.
    assert!(rc_lock_target(&lock("http://::1:5", "")).is_none());
}

#[test]
fn rc_locks_need_a_pid() {
    let l = rc_lock_in(&doc(r#"{"pid":7}"#)).unwrap();
    assert_eq!((l.pid, l.local_origin.as_str(), l.url.as_str()), (7, "", ""));
    assert!(rc_lock_in(&doc(r#"{"pid":4294967296}"#)).is_none());
    assert!(rc_lock_in(&doc("[]")).is_none());
}

#[test]
fn qr_codes_are_base64() {
    assert_eq!(rc_qrcode_base64(Some(&vec![0x89, b'P', b'N', b'G'])), "iVBORw==");
    assert_eq!(rc_qrcode_base64(Some(&vec![])), "");
    assert_eq!(rc_qrcode_base64(None), "");
    assert_eq!(rc_qrcode_base64(Some(&vec![0xfb, 0xef, 0xff, 0x00, 0x10])), "++//ABA=");
}

#[test]
fn rc_state_follows_lock_and_child() {
    let up = rc_state(true, Some((lock("o", "u"), "qr".to_string())), true, "err");
    assert_eq!((up.running, up.starting), (true, true));
    assert_eq!((up.url.as_str(), up.error.as_str(), up.qr_base64.as_str()), ("u", "", "qr"));
    let log = format!("{}{}the reason\n", "l".repeat(1000), "e".repeat(290));
    let dead = rc_state(true, None, true, &log);
    assert_eq!((dead.running, dead.starting), (false, false));
    assert_eq!(dead.error, format!("`kimi rc` 已退出：{}the reason", "e".repeat(290)));
    let padded = format!("  why{}", "\n".repeat(500));
    assert_eq!(rc_state(true, None, true, &padded).error, "`kimi rc` 已退出：why");
    assert_eq!(rc_state(true, None, true, " \n ").error, "`kimi rc` 已退出：");
    assert_eq!(
        written(&rc_state_doc(&up)),
        "{running:true,starting:true,url:u,error:,qr_base64:qr,}"
    );
    let idle = rc_state(true, None, false, "err");
    assert_eq!((idle.running, idle.starting, idle.error.as_str()), (false, true, ""));
    assert_eq!(stderr_tail(&format!("a{}", "b".repeat(2000))), "b".repeat(2000));
    assert_eq!(stderr_tail("short"), "short");
    let blank_end = format!("why{}", " \n".repeat(3000));
    assert_eq!(stderr_tail(&blank_end), "why");
}

fn status(running: bool, url: &str) -> StartEvent {
    StartEvent::Status(RcState {
        running,
        starting: true,
        url: url.to_string(),
        error: String::new(),
        qr_base64: String::new(),
    })
}

#[test]
fn rc_start_waits_for_a_url() {
    assert!(matches!(
        rc_start_next(StartStep::CheckRunning, status(true, "")),
        StartStep::Ready
    ));
    let mut step = rc_start_next(StartStep::CheckRunning, status(false, ""));
    step = rc_start_next(step, StartEvent::Cli(true));
    step = rc_start_next(step, StartEvent::Spawned(Ok(())));
    let mut looks = 0;
    let failed = loop {
        step = match step {
            StartStep::Pause(_) => rc_start_next(step, StartEvent::Done),
            StartStep::Look(_) => {
                looks += 1;
                rc_start_next(step, status(true, ""))
            }
            StartStep::CheckChild(_) => rc_start_next(step, StartEvent::Exited(None)),
            StartStep::Failed(e) => break e,
            _ => panic!("nothing became ready"),
        };
    };
    assert_eq!(looks, 40);
    assert_eq!(failed, "等待 Remote Control 就绪超时（需要 Kimi 账号登录）");
    let ready = rc_start_next(StartStep::Look(5), status(true, "u"));
    assert!(matches!(ready, StartStep::Notify));
    assert!(matches!(rc_start_next(ready, StartEvent::Done), StartStep::Ready));
}

#[test]
fn rc_start_says_why_it_fails() {
    let failure = |step: StartStep, e: StartEvent| match rc_start_next(step, e) {
        StartStep::Failed(e) => e,
        _ => panic!("the start fails"),
    };
    assert_eq!(failure(StartStep::FindCli, StartEvent::Cli(false)), "找不到 kimi CLI");
    assert_eq!(
        failure(StartStep::Spawn, StartEvent::Spawned(Err("e".into()))),
        "拉起 `kimi rc` 失败：e"
    );
    assert_eq!(
        failure(StartStep::CheckChild(0), StartEvent::Exited(Some(" gone \n".into()))),
        "`kimi rc` 提前退出：gone"
    );
}

#[test]
fn rc_stop_prefers_the_lock() {
    let l = RcLock { pid: 9, local_origin: String::new(), url: String::new() };
    assert_eq!(rc_stop(Some((5, false)), Some(&l)), StopPlan::Terminate(9, true));
    assert_eq!(rc_stop(Some((5, false)), None), StopPlan::Terminate(5, true));
    assert_eq!(rc_stop(Some((5, true)), Some(&l)), StopPlan::Nothing);
    assert_eq!(rc_stop(None, Some(&l)), StopPlan::Terminate(9, false));
    assert_eq!(rc_stop(None, None), StopPlan::Nothing);
    assert_eq!(exit_target(Some(&l), 5), 9);
    assert_eq!(exit_target(None, 5), 5);
    assert_eq!(remote_control("start"), RcAction::Start);
    assert_eq!(remote_control("stop"), RcAction::Stop);
    assert_eq!(remote_control("?"), RcAction::Status);
}

#[test]
fn parses_release_assets_for_auto_update() {
    let raw = r#"{
      "tag_name": "v0.1.17",
      "html_url": "https://github.com/liujunGH/kimi-ui/releases/tag/v0.1.17",
      "body": "- notes",
      "assets": [
        {"name": "kimi-ui-windows-x64.zip", "size": 100,
         "digest": "sha256:1111", "browser_download_url": "https://x/w.zip"},
        {"name": "kimi-ui-macos-arm64.zip", "size": 18168065,
         "digest": "sha256:7960187b",
         "browser_download_url": "https://github.com/liujunGH/kimi-ui/releases/download/v0.1.17/kimi-ui-macos-arm64.zip"}
      ]
    }"#;
    let info = parse_release_json(raw, APP_VERSION, false, true).unwrap();
    assert_eq!(info.latest, "0.1.17");
    assert!(!info.has_update); // 0.1.17 is not newer than the current 0.1.18.
    assert_eq!(info.asset_url.ends_with("kimi-ui-macos-arm64.zip"), true);
    assert_eq!(info.asset_size, 18168065);
    assert_eq!(info.asset_digest, "sha256:7960187b");

    // No macOS asset -> no UpdateInfo at all (auto-update impossible).
    let raw_no_asset = r#"{"tag_name":"v9","html_url":"u","body":"","assets":[]}"#;
    assert!(parse_release_json(raw_no_asset, APP_VERSION, false, true).is_none());
}

#[test]
fn gh_is_asked_first_and_curl_where_it_has_no_release() {
    let release = |tag: &str| {
        let raw = format!(
            r#"{{"tag_name":"{tag}","html_url":"u","assets":[{{"name":"kimi-ui-macos-arm64.zip"}}]}}"#
        );
        parse_release_json(&raw, "0.1.18", false, true)
    };
    match fetch_next(FetchStep::AskGh, release("v1")) {
        FetchStep::Done(Some(i)) => assert_eq!(i.latest, "1"),
        other => panic!("{other:?}"),
    }
    let second = fetch_next(FetchStep::AskGh, None);
    assert!(matches!(second, FetchStep::AskCurl));
    match fetch_next(second, release("v2")) {
        FetchStep::Done(Some(i)) => assert_eq!(i.latest, "2"),
        other => panic!("{other:?}"),
    }
    let run = |gh: &str, curl: &str| {
        let mut asked = Vec::new();
        let mut step = FetchStep::AskGh;
        loop {
            let found = match step {
                FetchStep::AskGh => {
                    asked.push("gh");
                    release(gh)
                }
                FetchStep::AskCurl => {
                    asked.push("curl");
                    release(curl)
                }
                FetchStep::Done(info) => return (asked, info.map(|i| i.latest)),
            };
            step = fetch_next(step, found);
        }
    };
    assert_eq!(run("v1", "v2"), (vec!["gh"], Some("1".to_string())));
    assert_eq!(run("\"", "v2"), (vec!["gh", "curl"], Some("2".to_string())));
    let none = fetch_next(FetchStep::AskCurl, None);
    assert!(matches!(none, FetchStep::Done(None)));
    assert!(matches!(fetch_next(none, release("v3")), FetchStep::Done(None)));
}

#[test]
fn releases_are_compared_with_the_running_version() {
    let raw = r#"{"tag_name":"v0.2.0","html_url":"u","body":" n ","assets":[{"name":"kimi-ui-macos-arm64.zip"}]}"#;
    let info = release_in(&doc(raw), "0.1.18", false, false).unwrap();
    assert!(info.has_update);
    assert!(!info.can_auto_update);
    assert_eq!((info.url.as_str(), info.notes.as_str()), ("u", "n"));
    assert_eq!((info.asset_url.as_str(), info.asset_size), ("", 0));
    assert_eq!(
        written(&update_info(Some(&info))),
        "{latest:0.2.0,url:u,has_update:true,notes:n,asset_url:,asset_size:0,asset_digest:,can_auto_update:false,}"
    );
    assert_eq!(written(&update_info(None)), "null");
    assert!(!release_in(&doc(raw), "0.2.0", false, true).unwrap().has_update);
    assert!(release_in(&doc(raw), "0.2.0", true, true).unwrap().has_update);
    assert!(release_in(&doc(r#"{"tag_name":"v1"}"#), "0", false, true).is_none());
    assert!(parse_release_json("{", "0", false, true).is_none());
    assert!(release_from(Some((true, raw.as_bytes().to_vec())), "0", false, true).is_some());
    assert!(release_from(Some((false, raw.as_bytes().to_vec())), "0", false, true).is_none());
    assert!(release_from(None, "0", false, true).is_none());
}

#[test]
fn release_addresses_are_exact() {
    assert_eq!(release_api_path(None), "repos/liujunGH/kimi-ui/releases/latest");
    assert_eq!(release_api_path(Some("")), "repos/liujunGH/kimi-ui/releases/latest");
    assert_eq!(release_api_path(Some("v1")), "repos/liujunGH/kimi-ui/releases/tags/v1");
    assert_eq!(
        release_api_url(None),
        "https://api.github.com/repos/liujunGH/kimi-ui/releases/latest"
    );
    assert_eq!(update_page(Some("u")), "u");
    assert_eq!(update_page(None), "https://github.com/liujunGH/kimi-ui/releases/latest");
    assert!(update_forced(Some("1")));
    assert!(!update_forced(Some("true")));
    assert!(!update_forced(None));
}

#[test]
fn update_progress_is_exact() {
    let show = |e: UpdateEvent| {
        let p = update_progress(e);
        (p.phase, p.pct, p.message)
    };
    assert_eq!(show(UpdateEvent::Downloading(42)), ("downloading", 42, String::new()));
    assert_eq!(show(UpdateEvent::Verified), ("verifying", 100, "校验中…".to_string()));
    assert_eq!(
        show(UpdateEvent::Installed("1.2".into())),
        ("ready", 100, "v1.2 已就绪".to_string())
    );
    assert_eq!(show(UpdateEvent::Failed("e".into())), ("error", 0, "e".to_string()));
    assert_eq!(
        written(&progress_doc(&update_progress(UpdateEvent::Downloading(7)))),
        "{phase:downloading,pct:7,message:,}"
    );
    assert_eq!(update_error(UpdateStage::Updater, "e"), "更新器不可用：e");
    assert_eq!(update_error(UpdateStage::Check, "e"), "检查更新失败：e");
    assert_eq!(update_error(UpdateStage::Nothing, "e"), "已是最新版本");
    assert_eq!(update_error(UpdateStage::Install, "e"), "安装失败：e");
    assert_eq!(update_error(UpdateStage::Unsupported, "e"), "自动更新目前仅支持桌面平台");
    assert_eq!(auto_update("start"), UpdateAction::Start);
    assert_eq!(auto_update("install"), UpdateAction::Relaunch);
    assert_eq!(auto_update("status"), UpdateAction::Status);
}

/// The name that a download gets where `taken` names are.
fn save(segment: Option<&str>, taken: &dyn Fn(&str) -> bool) -> (u32, String) {
    save_from(
        &WebUrl {
            text: "x:".to_string(),
            host: None,
            port: None,
            last_segment: segment.map(str::to_string),
        },
        taken,
    )
}

fn save_from(url: &WebUrl, taken: &dyn Fn(&str) -> bool) -> (u32, String) {
    let mut looks = 0;
    let mut d = download_destination(url);
    loop {
        d = match d {
            Destination::Check { ref candidate, .. } => {
                looks += 1;
                let t = taken(candidate);
                destination_next(d, t)
            }
            Destination::Take(name) => return (looks, name),
            Destination::NoName => unreachable!(),
        };
    }
}

#[test]
fn downloads_get_a_free_name() {
    assert_eq!(save(Some("a.tar.gz"), &|_| false), (1, "a.tar.gz".to_string()));
    assert_eq!(save(Some("a.tar.gz"), &|n| n == "a.tar.gz"), (2, "a.tar (1).gz".to_string()));
    assert_eq!(save(Some("plain"), &|n| n.len() < 9), (2, "plain (1)".to_string()));
    let full: Vec<String> = (1..=150).map(|n| format!("x ({n})")).collect();
    let held = |n: &str| n == "x" || full.iter().any(|f| f == n);
    assert_eq!(save(Some("x"), &held), (152, "x (151)".to_string()));
    assert_eq!(save(Some(".env"), &|n| n == ".env"), (2, " (1).env".to_string()));
    for odd in [None, Some(""), Some("c:x")] {
        assert_eq!(save(odd, &|_| false).1, "download.bin");
    }
}

#[test]
fn downloads_are_named_after_the_end_of_their_url() {
    let name = |url: &str| save_from(&open_url(url).unwrap(), &|_| false).1;
    assert_eq!(name("https://h/a/b.zip?x=/c.zip#/d"), "b.zip");
    assert_eq!(name("https://h/a/b%2Fc"), "b%2Fc");
    assert_eq!(name("https://h/a/"), "download.bin");
    assert_eq!(name("https://h"), "download.bin");
    assert_eq!(name("https://h/a:b"), "download.bin");
    assert_eq!(name("https://h/a/.."), "download.bin");
    assert_eq!(name("data:text/plain,x"), "download.bin");
}

#[test]
fn a_search_past_the_last_copy_ends_without_a_name() {
    let last = |taken: bool| {
        let d = Destination::Check {
            name: "x".to_string(),
            copy: u64::MAX,
            candidate: "x (18446744073709551615)".to_string(),
        };
        destination_next(d, taken)
    };
    assert!(matches!(last(true), Destination::NoName));
    assert!(matches!(last(false), Destination::Take(n) if n == "x (18446744073709551615)"));
    assert!(matches!(destination_next(Destination::NoName, false), Destination::NoName));
}

#[test]
fn window_parts_have_fixed_heights() {
    assert_eq!((tabbar_height(false), tabbar_height(true)), (36, 420));
    assert_eq!((status_height(false), status_height(true)), (28, 340));
    assert!(!overlay_open("none"));
    assert!(!overlay_open(""));
    for mode in ["usage", "update", "remote", "x"] {
        assert!(overlay_open(mode));
    }
    assert_eq!(badge_label(0), None);
    assert_eq!(badge_label(12), Some("12".to_string()));
}

#[test]
fn documents_are_read_as_they_are_written() {
    let v = doc(r#"{"a":null,"b":[1,-2,1.5,"x",true],"c":{"d":{}},"b2":1e3}"#);
    assert!(matches!(v.member("a"), Some(Json::Null)));
    let items = v.array_at("b").unwrap();
    assert!(matches!(&items[0], Json::Number(Some(1), t) if t == "1"));
    assert!(matches!(&items[1], Json::Number(None, t) if t == "-2"));
    assert!(matches!(&items[2], Json::Number(None, t) if t == "1.5"));
    assert!(matches!(&items[3], Json::Text(t) if t == "x"));
    assert!(matches!(&items[4], Json::Bool(true)));
    assert!(v.member("c").unwrap().member("d").unwrap().is_object());
    assert_eq!(v.number_at("b2"), Some("1000.0"));
    assert!(v.member("z").is_none());
    let copy = v.copied().with("a", Json::text("new")).with("e", Json::Null);
    assert_eq!(copy.text_at("a"), Some("new"));
    assert_eq!(copy.array_at("b").unwrap().len(), 5);
    assert!(v.text_at("a").is_none());
    assert!(Json::Null.with("a", Json::Null).member("a").is_none());
    assert!(parse_json("[1,]").is_err());
}

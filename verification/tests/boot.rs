use kimi_ui::attach::{wait_after_check, wait_after_connect, wait_attach, WaitStep};
use kimi_ui::boot::{boot_error_doc, boot_next, BootError, BootEvent, BootStep};
use kimi_ui::json::Json;
use kimi_ui::cli::{
    browser_command, kimi_exe, kimi_spots, restart_args, spawn_args, terminate_command, tool_spots,
    Spot,
};
use kimi_ui::net::DaemonAddr;
use kimi_ui::restart::{
    restart_daemon_at, restart_next, restart_target, restart_with, Event, Step,
};
use kimi_ui::terminate::{self, terminate_child, terminate_next};
use kimi_ui::web::{launch_at_addr, Launch, Platform};

fn addr() -> DaemonAddr {
    DaemonAddr { host: "127.0.0.1".into(), port: 58627 }
}

fn launch(token: &str) -> Launch {
    launch_at_addr(token, &addr(), Platform::Other).unwrap()
}

fn boot(events: Vec<BootEvent>) -> (Vec<&'static str>, BootStep) {
    let mut names = Vec::new();
    let mut step = BootStep::FindCli;
    for e in events {
        names.push(name(&step));
        step = boot_next(step, e);
    }
    names.push(name(&step));
    (names, step)
}

fn name(step: &BootStep) -> &'static str {
    match step {
        BootStep::FindCli => "find",
        BootStep::ReadVersion => "version",
        BootStep::Attach { .. } => "attach",
        BootStep::Spawn { .. } => "spawn",
        BootStep::Wait { .. } => "wait",
        BootStep::Keep { .. } => "keep",
        BootStep::Sweep { .. } => "sweep",
        BootStep::Discard { .. } => "discard",
        BootStep::Ready { .. } => "ready",
        BootStep::Failed { .. } => "failed",
    }
}

#[test]
fn boot_without_cli_fails() {
    let (names, step) = boot(vec![BootEvent::Cli(false)]);
    assert_eq!(names, vec!["find", "failed"]);
    assert!(matches!(step, BootStep::Failed { error: BootError::KimiMissing }));
}

#[test]
fn boot_refuses_an_outdated_cli() {
    let (names, step) = boot(vec![
        BootEvent::Cli(true),
        BootEvent::Version(Some("0.39.0".into())),
    ]);
    assert_eq!(names, vec!["find", "version", "failed"]);
    match step {
        BootStep::Failed { error: BootError::KimiTooOld { version, min } } => {
            assert_eq!((version.as_str(), min.as_str()), ("0.39.0", "0.39.1"));
        }
        _ => panic!("the CLI is too old"),
    }
}

#[test]
fn boot_attaches_and_then_sweeps() {
    let (names, step) = boot(vec![
        BootEvent::Cli(true),
        BootEvent::Version(None),
        BootEvent::Attached(Some(launch("t"))),
        BootEvent::Done,
    ]);
    assert_eq!(names, vec!["find", "version", "attach", "sweep", "ready"]);
    match step {
        BootStep::Ready { launch } => assert_eq!(launch.token, "t"),
        _ => panic!("the boot is done"),
    }
}

#[test]
fn boot_keeps_the_server_it_started() {
    let (names, _) = boot(vec![
        BootEvent::Cli(true),
        BootEvent::Version(Some("0.40.0".into())),
        BootEvent::Attached(None),
        BootEvent::Spawned(Ok(())),
        BootEvent::Waited(Ok(launch("t"))),
        BootEvent::Done,
        BootEvent::Done,
    ]);
    assert_eq!(
        names,
        vec!["find", "version", "attach", "spawn", "wait", "keep", "sweep", "ready"]
    );
}

#[test]
fn boot_kills_the_server_that_does_not_come_up() {
    let (names, step) = boot(vec![
        BootEvent::Cli(true),
        BootEvent::Version(Some("0.40.0".into())),
        BootEvent::Attached(None),
        BootEvent::Spawned(Ok(())),
        BootEvent::Waited(Err("why".into())),
        BootEvent::Done,
    ]);
    assert_eq!(names, vec!["find", "version", "attach", "spawn", "wait", "discard", "failed"]);
    match step {
        BootStep::Failed { error: BootError::DaemonUnreachable { detail, version } } => {
            assert_eq!((detail.as_str(), version.as_deref()), ("why", Some("0.40.0")));
        }
        _ => panic!("no server came up"),
    }
}

#[test]
fn boot_reports_a_failed_start() {
    let (names, step) = boot(vec![
        BootEvent::Cli(true),
        BootEvent::Version(None),
        BootEvent::Attached(None),
        BootEvent::Spawned(Err("e".into())),
    ]);
    assert_eq!(names, vec!["find", "version", "attach", "spawn", "failed"]);
    match step {
        BootStep::Failed { error: BootError::DaemonUnreachable { detail, version } } => {
            assert_eq!(detail, "拉起 `kimi web --no-open` 失败：e");
            assert_eq!(version, None);
        }
        _ => panic!("nothing was started"),
    }
}

#[test]
fn boot_failures_are_tagged() {
    let v = boot_error_doc(&BootError::KimiMissing);
    assert_eq!(v.text_at("kind"), Some("kimi_missing"));
    let v = boot_error_doc(&BootError::KimiTooOld { version: "1".into(), min: "2".into() });
    assert_eq!(v.text_at("kind"), Some("kimi_too_old"));
    assert_eq!((v.text_at("version"), v.text_at("min")), (Some("1"), Some("2")));
    let v = boot_error_doc(&BootError::DaemonUnreachable { detail: "d".into(), version: None });
    assert_eq!(v.text_at("kind"), Some("daemon_unreachable"));
    assert_eq!(v.text_at("detail"), Some("d"));
    assert!(matches!(v.member("version"), Some(Json::Null)));
}

#[test]
fn boot_ignores_what_does_not_answer_the_step() {
    assert_eq!(name(&boot_next(BootStep::FindCli, BootEvent::Done)), "find");
    assert_eq!(name(&boot_next(BootStep::ReadVersion, BootEvent::Cli(false))), "version");
}

/// Runs a wait of `attempts` rounds; `open` and `exits` are the rounds in which
/// the port is open and in which the child has exited.
fn wait(attempts: u32, open: Option<u32>, exits: Option<u32>) -> (u32, Result<Launch, String>) {
    let mut pauses = 0;
    let mut step = wait_attach(7, attempts);
    loop {
        step = match step {
            WaitStep::Connect(w) => {
                let up = open == Some(w.attempt);
                let got = if up { Some(Ok(launch("t"))) } else { None };
                wait_after_connect(w, got)
            }
            WaitStep::CheckChild(w) => {
                let gone = exits == Some(w.attempt);
                let log = format!("{}{}", "x".repeat(1000), " end\n");
                wait_after_check(w, if gone { Some(("exit 1".into(), log)) } else { None })
            }
            WaitStep::Pause(w) => {
                pauses += 1;
                WaitStep::Connect(w)
            }
            WaitStep::Ready(l) => return (pauses, Ok(l)),
            WaitStep::Failed(e) => return (pauses, Err(e)),
        };
    }
}

#[test]
fn wait_ends_when_the_server_is_up() {
    let (pauses, got) = wait(50, Some(3), None);
    assert_eq!(pauses, 3);
    assert_eq!(got.unwrap().token, "t");
    // In one round, a server that is up comes before a child that has exited.
    assert!(wait(50, Some(2), Some(2)).1.is_ok());
}

#[test]
fn wait_ends_when_the_child_exits() {
    let (pauses, got) = wait(50, Some(3), Some(2));
    assert_eq!(pauses, 2);
    let err = got.unwrap_err();
    assert_eq!(err, format!("`kimi web` 提前退出（exit 1）：{} end", "x".repeat(595)));
}

#[test]
fn wait_ends_after_its_last_round() {
    let (pauses, got) = wait(50, None, None);
    assert_eq!(pauses, 49);
    assert_eq!(got.unwrap_err(), "等待服务就绪超时：等待 127.0.0.1:7 接受连接");
    assert_eq!(wait(0, None, None).1.unwrap_err(), "等待服务就绪超时：");
    match wait_attach(7, 1) {
        WaitStep::Connect(w) => match wait_after_connect(w, Some(Err("no token".into()))) {
            WaitStep::CheckChild(w) => match wait_after_check(w, None) {
                WaitStep::Failed(e) => assert_eq!(e, "等待服务就绪超时：no token"),
                _ => panic!("one round is over"),
            },
            _ => panic!("the launch failed"),
        },
        _ => panic!("there is a round"),
    }
}

fn restart(events: Vec<Event>) -> Step {
    let mut step = restart_daemon_at("http://127.0.0.1:58627", "t", &addr(), Some(1), Platform::Other);
    for e in events {
        step = restart_next(step, e);
    }
    step
}

#[test]
fn restart_waits_for_another_pid() {
    let step = restart(vec![
        Event::Done,
        Event::Port(true),
        Event::Done,
        Event::Port(false),
        Event::Port(false),
        Event::Cli(true),
        Event::Started,
        Event::Running(None),
        Event::Done,
        Event::Running(Some(1)),
        Event::Done,
        Event::Running(Some(2)),
        Event::Healthy(false),
        Event::Done,
        Event::Running(Some(2)),
        Event::Healthy(true),
    ]);
    assert!(matches!(step, Step::Keep(_)));
    match restart_next(step, Event::Done) {
        Step::Ready(l) => {
            assert_eq!(l.base, "http://127.0.0.1:58627");
            assert_eq!(l.token, "t");
        }
        _ => panic!("the restart is done"),
    }
}

fn failure(step: Step) -> String {
    match step {
        Step::Failed(e) => e,
        _ => panic!("the restart fails"),
    }
}

#[test]
fn restart_starts_no_second_instance() {
    let step = restart(vec![Event::Done, Event::Expired, Event::Port(true)]);
    assert_eq!(failure(step), "daemon 未在 8 秒内退出；未启动第二个实例");
}

#[test]
fn restart_needs_a_cli_and_a_child() {
    let closed = || vec![Event::Done, Event::Expired, Event::Port(false)];
    let with = |more: Vec<Event>| {
        let mut events = closed();
        events.extend(more);
        restart(events)
    };
    assert_eq!(
        failure(with(vec![Event::Cli(false)])),
        "找不到 kimi CLI，请先安装或更新 Kimi Code"
    );
    assert_eq!(failure(with(vec![Event::Cli(true), Event::NoLog("l".into())])), "l");
    assert_eq!(
        failure(with(vec![Event::Cli(true), Event::NotStarted("s".into())])),
        "启动新版 daemon 失败：s"
    );
    assert_eq!(
        failure(with(vec![
            Event::Cli(true),
            Event::Started,
            Event::Exited("exit 2".into(), format!("  {}", "y".repeat(400))),
        ])),
        format!("新版 daemon 启动失败（exit 2）：{}", "y".repeat(300))
    );
    let late = with(vec![Event::Cli(true), Event::Started, Event::Expired]);
    assert!(matches!(late, Step::Kill));
    assert_eq!(
        failure(restart_next(late, Event::Done)),
        "新版 daemon 启动超时，已停止未就绪的进程"
    );
}

#[test]
fn restart_is_for_the_local_daemon() {
    assert_eq!(restart_target(Some("http://127.0.0.1:58627")).map(|a| a.port).unwrap_or(0), 58627);
    let err = |base: Option<&str>| match restart_target(base) {
        Ok(_) => panic!("nothing to restart"),
        Err(e) => e,
    };
    assert_eq!(err(None), "daemon 尚未连接");
    assert_eq!(err(Some("x")), "daemon 地址无法解析");
    assert_eq!(err(Some("http://10.0.0.1:1")), "只能重启本地 daemon（当前是远程连接）");
    let broken = DaemonAddr { host: "a b".into(), port: 1 };
    let step = restart_daemon_at("b", "t", &broken, None, Platform::Other);
    assert!(failure(step).starts_with("构造 web UI 地址失败："));
    match restart_with("known as", "tk", Some(5), Ok(launch("other"))) {
        Step::Shutdown(plan) => {
            assert_eq!((plan.launch.base.as_str(), plan.launch.token.as_str()), ("known as", "tk"));
            assert_eq!(plan.old_pid, Some(5));
        }
        _ => panic!("the restart begins"),
    }
    assert_eq!(failure(restart_with("b", "t", None, Err("e".into()))), "e");
}

#[test]
fn children_are_asked_before_they_are_killed() {
    let run = |p: Platform, exits_at: Option<u32>, grace: u32| {
        let mut looks = 0;
        let mut seen = Vec::new();
        let mut step = terminate_child(p);
        while step != terminate::Step::Gone {
            let event = match step {
                terminate::Step::Look if looks == grace => terminate::Event::Expired,
                terminate::Step::Look => {
                    looks += 1;
                    terminate::Event::Exited(exits_at == Some(looks))
                }
                other => {
                    seen.push(other);
                    terminate::Event::Done
                }
            };
            step = terminate_next(step, event);
        }
        seen
    };
    let (ask, pause, kill) = (terminate::Step::Ask, terminate::Step::Pause, terminate::Step::Kill);
    assert_eq!(run(Platform::Other, Some(1), 9), vec![ask]);
    assert_eq!(run(Platform::MacOs, Some(3), 9), vec![ask, pause, pause]);
    assert_eq!(run(Platform::Other, None, 2), vec![ask, pause, pause, kill]);
    assert_eq!(run(Platform::Windows, Some(1), 9), vec![kill]);
}

#[test]
fn command_lines_are_exact() {
    assert_eq!(spawn_args(7), vec!["web", "--port", "7", "--no-open"]);
    assert_eq!(
        restart_args(&addr()),
        vec!["web", "--host", "127.0.0.1", "--port", "58627", "--no-open"]
    );
    assert_eq!(kimi_exe(Platform::Windows), "kimi.exe");
    assert_eq!(kimi_exe(Platform::MacOs), "kimi");
    assert!(matches!(kimi_spots(Platform::Windows)[0], Spot::Home(".kimi-code/bin/kimi.exe")));
    let spots = kimi_spots(Platform::Other);
    assert_eq!(spots.len(), 3);
    assert!(matches!(spots[0], Spot::Home(".kimi-code/bin/kimi")));
    assert!(matches!(spots[1], Spot::Root("/opt/homebrew/bin/kimi")));
    assert!(matches!(spots[2], Spot::Root("/usr/local/bin/kimi")));
    assert_eq!(tool_spots("gh"), vec!["/opt/homebrew/bin/gh", "/usr/local/bin/gh"]);
    let open = browser_command("u", Platform::MacOs);
    assert_eq!((open.program, open.args), ("open", vec!["u".to_string()]));
    assert_eq!(browser_command("u", Platform::Other).program, "xdg-open");
    let win = browser_command("u", Platform::Windows);
    assert_eq!(win.program, "rundll32");
    assert_eq!(win.args, vec!["url.dll,FileProtocolHandler", "u"]);
    let kill = terminate_command(42, Platform::Other);
    assert_eq!((kill.program, kill.args), ("kill", vec!["42".to_string()]));
    let kill = terminate_command(42, Platform::Windows);
    assert_eq!(kill.program, "taskkill");
    assert_eq!(kill.args, vec!["/PID", "42"]);
}

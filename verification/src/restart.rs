//! Restarting the local daemon.
//!
//! Attaching to a port that answers is not enough: a daemon in the middle of
//! shutting down still accepts connections, so a new instance can latch onto a
//! dying server. A restart therefore
//!   1. asks the daemon to exit;
//!   2. waits for its port to stop accepting connections;
//!   3. starts the installed CLI on the same host and port;
//!   4. waits until the registry reports a DIFFERENT pid and the server answers.
//! The work is done outside; each step here says what to do next.
use vstd::prelude::*;

use crate::net::{addr_of, current_addr, is_loopback, is_loopback_host, AddrView, DaemonAddr};
use crate::text::{
    decimal, is_core_of, is_space, owned, prefix, trim, trimmed, trimming_takes_outer_white_space,
    truncate_chars,
};
use crate::version::opt_view;
use crate::web::{launch_at_addr, launch_of, launch_view, Launch, LaunchView, Platform};

verus! {

broadcast use vstd::string::group_string_axioms;

/// How long to wait for the old daemon to release its port, in seconds.
pub const STOP_WAIT_SECS: u64 = 8;

/// How long to wait for the replacement daemon to register, in seconds.
pub const START_WAIT_SECS: u64 = 12;

/// How long is paused between two looks at the old daemon's port, in
/// milliseconds.
pub const STOP_PAUSE_MS: u64 = 150;

/// How long is paused between two looks for the replacement, in milliseconds.
pub const START_PAUSE_MS: u64 = 250;

/// The daemon that a restart is for: the shell's own loopback daemon. Remote
/// daemons are someone else's machine, and a non-loopback bind disables the
/// shutdown route.
pub open spec fn target_of(base: Option<Seq<char>>) -> Result<AddrView, Seq<char>> {
    match base {
        Some(b) => match addr_of(b) {
            Some(a) => if is_loopback(a.host) {
                Ok(a)
            } else {
                Err("只能重启本地 daemon（当前是远程连接）"@)
            },
            None => Err("daemon 地址无法解析"@),
        },
        None => Err("daemon 尚未连接"@),
    }
}

/// The daemon to restart, for the base address of the active one.
pub fn restart_target(base: Option<&str>) -> (r: Result<DaemonAddr, String>)
    ensures
        match r {
            Ok(a) => target_of(opt_view(base)) == Ok::<AddrView, Seq<char>>(a@),
            Err(e) => target_of(opt_view(base)) == Err::<AddrView, Seq<char>>(e@),
        },
{
    match base {
        Some(b) => match current_addr(b) {
            Some(a) => if is_loopback_host(a.host.as_str()) {
                Ok(a)
            } else {
                Err(owned("只能重启本地 daemon（当前是远程连接）"))
            },
            None => Err(owned("daemon 地址无法解析")),
        },
        None => Err(owned("daemon 尚未连接")),
    }
}

/// Only a daemon on this machine is ever restarted.
pub proof fn only_local_daemons_are_restarted(base: Option<Seq<char>>)
    ensures
        target_of(base) matches Ok(a) ==> is_loopback(a.host) && base is Some && addr_of(base->0)
            == Some(a),
{
}

/// What a restart is to end with, and the process that it replaces.
pub struct Plan {
    pub launch: Launch,
    pub old_pid: Option<u32>,
}

/// What a plan says.
#[verifier::ext_equal]
pub struct PlanView {
    pub launch: LaunchView,
    pub old_pid: Option<u32>,
}

impl Plan {
    pub open spec fn view(self) -> PlanView {
        PlanView { launch: self.launch@, old_pid: self.old_pid }
    }
}

/// What a restart does next.
pub enum Step {
    /// Ask the daemon to exit.
    Shutdown(Plan),
    /// Look whether the port is closed, or the time for that is over.
    AwaitClose(Plan),
    /// Wait a moment, then look again.
    PauseClose(Plan),
    /// Look once more whether the port is closed.
    CheckClosed(Plan),
    /// Look for the CLI.
    FindCli(Plan),
    /// Start the CLI at the address.
    Spawn(Plan),
    /// Look whether the child has exited, what the registry says, or whether
    /// the time for that is over.
    AwaitStart(Plan),
    /// Wait a moment, then look again.
    PauseStart(Plan),
    /// Ask the server for an authenticated answer; the registry gives this pid.
    CheckHealth(Plan, u32),
    /// Keep the child until the app exits.
    Keep(Plan),
    /// Kill the child.
    Kill,
    Ready(Launch),
    Failed(String),
}

/// What a step says.
#[verifier::ext_equal]
pub enum StepView {
    Shutdown(PlanView),
    AwaitClose(PlanView),
    PauseClose(PlanView),
    CheckClosed(PlanView),
    FindCli(PlanView),
    Spawn(PlanView),
    AwaitStart(PlanView),
    PauseStart(PlanView),
    CheckHealth(PlanView, u32),
    Keep(PlanView),
    Kill,
    Ready(LaunchView),
    Failed(Seq<char>),
}

impl Step {
    pub open spec fn view(self) -> StepView {
        match self {
            Step::Shutdown(p) => StepView::Shutdown(p@),
            Step::AwaitClose(p) => StepView::AwaitClose(p@),
            Step::PauseClose(p) => StepView::PauseClose(p@),
            Step::CheckClosed(p) => StepView::CheckClosed(p@),
            Step::FindCli(p) => StepView::FindCli(p@),
            Step::Spawn(p) => StepView::Spawn(p@),
            Step::AwaitStart(p) => StepView::AwaitStart(p@),
            Step::PauseStart(p) => StepView::PauseStart(p@),
            Step::CheckHealth(p, pid) => StepView::CheckHealth(p@, pid),
            Step::Keep(p) => StepView::Keep(p@),
            Step::Kill => StepView::Kill,
            Step::Ready(l) => StepView::Ready(l@),
            Step::Failed(e) => StepView::Failed(e@),
        }
    }
}

/// What came of a step.
pub enum Event {
    /// It is done.
    Done,
    /// The time for the step is over.
    Expired,
    /// Whether the port accepts connections.
    Port(bool),
    /// Whether there is a CLI.
    Cli(bool),
    /// The child was started.
    Started,
    /// The child's log could not be created.
    NoLog(String),
    /// The child could not be started.
    NotStarted(String),
    /// The child has exited, with this status and log.
    Exited(String, String),
    /// The child runs, and the registry gives this pid for the address.
    Running(Option<u32>),
    /// Whether the server answers.
    Healthy(bool),
}

/// What an event says.
#[verifier::ext_equal]
pub enum EventView {
    Done,
    Expired,
    Port(bool),
    Cli(bool),
    Started,
    NoLog(Seq<char>),
    NotStarted(Seq<char>),
    Exited(Seq<char>, Seq<char>),
    Running(Option<u32>),
    Healthy(bool),
}

impl Event {
    pub open spec fn view(self) -> EventView {
        match self {
            Event::Done => EventView::Done,
            Event::Expired => EventView::Expired,
            Event::Port(open) => EventView::Port(open),
            Event::Cli(found) => EventView::Cli(found),
            Event::Started => EventView::Started,
            Event::NoLog(e) => EventView::NoLog(e@),
            Event::NotStarted(e) => EventView::NotStarted(e@),
            Event::Exited(status, log) => EventView::Exited(status@, log@),
            Event::Running(pid) => EventView::Running(pid),
            Event::Healthy(ok) => EventView::Healthy(ok),
        }
    }
}

/// The begin of a restart, for what the launch at its end came to.
pub open spec fn restart_begun(
    base: Seq<char>,
    token: Seq<char>,
    old_pid: Option<u32>,
    launch: Result<LaunchView, Seq<char>>,
) -> StepView {
    match launch {
        Ok(l) => StepView::Shutdown(
            PlanView { launch: LaunchView { base, token, url: l.url }, old_pid },
        ),
        Err(e) => StepView::Failed(e),
    }
}

/// Begins a restart that is to end with the page of `launch`.
pub fn restart_with(
    base: &str,
    token: &str,
    old_pid: Option<u32>,
    launch: Result<Launch, String>,
) -> (r: Step)
    ensures
        r@ == restart_begun(base@, token@, old_pid, launch_view(launch)),
{
    match launch {
        Ok(l) => Step::Shutdown(
            Plan { launch: Launch { base: owned(base), token: owned(token), url: l.url }, old_pid },
        ),
        Err(e) => Step::Failed(e),
    }
}

/// The begin of a restart of the daemon at `addr`, which is known as `base`.
pub open spec fn restart_start(
    base: Seq<char>,
    token: Seq<char>,
    addr: AddrView,
    old_pid: Option<u32>,
    p: Platform,
) -> StepView {
    restart_begun(base, token, old_pid, launch_of(token, addr, p))
}

/// Begins a restart of the exact daemon that the shell is attached to. Other
/// instances are deliberately untouched.
pub fn restart_daemon_at(
    base: &str,
    token: &str,
    addr: &DaemonAddr,
    old_pid: Option<u32>,
    p: Platform,
) -> (r: Step)
    ensures
        r@ == restart_start(base@, token@, addr@, old_pid, p),
{
    restart_with(base, token, old_pid, launch_at_addr(token, addr, p))
}

/// The message of a replacement that exited early, with the begin of its log.
pub open spec fn start_failure(status: Seq<char>, log: Seq<char>) -> Seq<char> {
    "新版 daemon 启动失败（"@ + status + "）："@ + prefix(trimmed(log), 300)
}

/// The step after `step`, for what came of it. An event that does not answer
/// the step changes nothing.
pub open spec fn step_after(step: StepView, event: EventView) -> StepView {
    match (step, event) {
        (StepView::Shutdown(p), EventView::Done) => StepView::AwaitClose(p),
        (StepView::AwaitClose(p), EventView::Port(true)) => StepView::PauseClose(p),
        (StepView::AwaitClose(p), EventView::Port(false)) => StepView::CheckClosed(p),
        (StepView::AwaitClose(p), EventView::Expired) => StepView::CheckClosed(p),
        (StepView::PauseClose(p), EventView::Done) => StepView::AwaitClose(p),
        (StepView::CheckClosed(p), EventView::Port(open)) => if open {
            StepView::Failed("daemon 未在 8 秒内退出；未启动第二个实例"@)
        } else {
            StepView::FindCli(p)
        },
        (StepView::FindCli(p), EventView::Cli(found)) => if found {
            StepView::Spawn(p)
        } else {
            StepView::Failed("找不到 kimi CLI，请先安装或更新 Kimi Code"@)
        },
        (StepView::Spawn(p), EventView::Started) => StepView::AwaitStart(p),
        (StepView::Spawn(_), EventView::NoLog(e)) => StepView::Failed(e),
        (StepView::Spawn(_), EventView::NotStarted(e)) => StepView::Failed(
            "启动新版 daemon 失败："@ + e,
        ),
        (StepView::AwaitStart(_), EventView::Expired) => StepView::Kill,
        (StepView::AwaitStart(_), EventView::Exited(status, log)) => StepView::Failed(
            start_failure(status, log),
        ),
        (StepView::AwaitStart(p), EventView::Running(pid)) => match pid {
            Some(n) => if p.old_pid == Some(n) {
                StepView::PauseStart(p)
            } else {
                StepView::CheckHealth(p, n)
            },
            None => StepView::PauseStart(p),
        },
        (StepView::PauseStart(p), EventView::Done) => StepView::AwaitStart(p),
        (StepView::CheckHealth(p, _), EventView::Healthy(ok)) => if ok {
            StepView::Keep(p)
        } else {
            StepView::PauseStart(p)
        },
        (StepView::Keep(p), EventView::Done) => StepView::Ready(p.launch),
        (StepView::Kill, EventView::Done) => StepView::Failed(
            "新版 daemon 启动超时，已停止未就绪的进程"@,
        ),
        _ => step,
    }
}

/// Takes the next step of a restart.
pub fn restart_next(step: Step, event: Event) -> (r: Step)
    ensures
        r@ == step_after(step@, event@),
{
    match (step, event) {
        (Step::Shutdown(p), Event::Done) => Step::AwaitClose(p),
        (Step::AwaitClose(p), Event::Port(open)) => if open {
            Step::PauseClose(p)
        } else {
            Step::CheckClosed(p)
        },
        (Step::AwaitClose(p), Event::Expired) => Step::CheckClosed(p),
        (Step::PauseClose(p), Event::Done) => Step::AwaitClose(p),
        (Step::CheckClosed(p), Event::Port(open)) => if open {
            Step::Failed(owned("daemon 未在 8 秒内退出；未启动第二个实例"))
        } else {
            Step::FindCli(p)
        },
        (Step::FindCli(p), Event::Cli(found)) => if found {
            Step::Spawn(p)
        } else {
            Step::Failed(owned("找不到 kimi CLI，请先安装或更新 Kimi Code"))
        },
        (Step::Spawn(p), Event::Started) => Step::AwaitStart(p),
        (Step::Spawn(_), Event::NoLog(e)) => Step::Failed(e),
        (Step::Spawn(_), Event::NotStarted(e)) => {
            let mut message = owned("启动新版 daemon 失败：");
            message.append(e.as_str());
            Step::Failed(message)
        },
        (Step::AwaitStart(_), Event::Expired) => Step::Kill,
        (Step::AwaitStart(_), Event::Exited(status, log)) => {
            let mut message = owned("新版 daemon 启动失败（");
            message.append(status.as_str());
            message.append("）：");
            message.append(truncate_chars(trim(log.as_str()).as_str(), 300).as_str());
            Step::Failed(message)
        },
        (Step::AwaitStart(p), Event::Running(pid)) => match pid {
            Some(n) => {
                let same_process = match p.old_pid {
                    Some(o) => o == n,
                    None => false,
                };
                if same_process {
                    Step::PauseStart(p)
                } else {
                    Step::CheckHealth(p, n)
                }
            },
            None => Step::PauseStart(p),
        },
        (Step::PauseStart(p), Event::Done) => Step::AwaitStart(p),
        (Step::CheckHealth(p, _), Event::Healthy(ok)) => if ok {
            Step::Keep(p)
        } else {
            Step::PauseStart(p)
        },
        (Step::Keep(p), Event::Done) => Step::Ready(p.launch),
        (Step::Kill, Event::Done) => Step::Failed(
            owned("新版 daemon 启动超时，已停止未就绪的进程"),
        ),
        (step, _) => step,
    }
}

/// The step that a restart reaches with a list of events.
pub open spec fn reached(start: StepView, events: Seq<EventView>) -> StepView
    decreases events.len(),
{
    if events.len() == 0 {
        start
    } else {
        step_after(reached(start, events.drop_last()), events.last())
    }
}

/// The child was started and neither kept nor killed nor seen to exit yet.
pub open spec fn child_pending(step: StepView) -> bool {
    step is AwaitStart || step is PauseStart || step is CheckHealth || step is Keep || step is Kill
}

/// The restart has not yet come to start the child.
pub open spec fn before_spawn(step: StepView) -> bool {
    step is Shutdown || step is AwaitClose || step is PauseClose || step is CheckClosed
}

proof fn lemma_take_last(events: Seq<EventView>, start: StepView, m: int)
    requires
        0 <= m < events.len(),
    ensures
        reached(start, events.drop_last().take(m)) == reached(start, events.take(m)),
        events.drop_last().take(m) == events.take(m),
{
    assert(events.drop_last().take(m) =~= events.take(m));
}

/// No second instance: whatever happens, the CLI is looked for and started only
/// after the port was seen closed in the last look at it.
pub proof fn second_instance_is_never_started(start: StepView, events: Seq<EventView>)
    requires
        start is Shutdown,
        !before_spawn(reached(start, events)),
        !(reached(start, events) is Failed),
    ensures
        exists|m: int|
            0 <= m < events.len() && events[m] == EventView::Port(false) && #[trigger] reached(
                start,
                events.take(m),
            ) is CheckClosed,
    decreases events.len(),
{
    if events.len() > 0 {
        let before = reached(start, events.drop_last());
        let n = events.len() - 1;
        assert(events.take(n) =~= events.drop_last());
        if before is CheckClosed {
            assert(events[n] == EventView::Port(false));
            assert(reached(start, events.take(n)) is CheckClosed);
        } else {
            second_instance_is_never_started(start, events.drop_last());
            let m = choose|m: int|
                0 <= m < events.drop_last().len() && events.drop_last()[m] == EventView::Port(false)
                    && #[trigger] reached(start, events.drop_last().take(m)) is CheckClosed;
            lemma_take_last(events, start, m);
            assert(events[m] == EventView::Port(false));
        }
    }
}

/// A restart succeeds only with a server that is registered under another pid
/// than the replaced one and that answered.
pub proof fn success_needs_a_new_healthy_process(start: StepView, events: Seq<EventView>)
    requires
        start is Shutdown,
        reached(start, events) is Ready || reached(start, events) is Keep,
    ensures
        exists|m: int|
            0 <= m < events.len() && events[m] == EventView::Healthy(true) && (#[trigger] reached(
                start,
                events.take(m),
            ) matches StepView::CheckHealth(p, pid) && p == start->Shutdown_0 && p.old_pid != Some(
                pid,
            )),
    decreases events.len(),
{
    if events.len() > 0 {
        let before = reached(start, events.drop_last());
        let n = events.len() - 1;
        assert(events.take(n) =~= events.drop_last());
        if before is CheckHealth {
            lemma_plan_is_kept(start, events.drop_last());
            assert(events[n] == EventView::Healthy(true));
            assert(reached(start, events.take(n)) is CheckHealth);
        } else {
            success_needs_a_new_healthy_process(start, events.drop_last());
            let m = choose|m: int|
                0 <= m < events.drop_last().len() && events.drop_last()[m] == EventView::Healthy(
                    true,
                ) && (#[trigger] reached(start, events.drop_last().take(m)) matches StepView::CheckHealth(
                    p,
                    pid,
                ) && p == start->Shutdown_0 && p.old_pid != Some(pid));
            lemma_take_last(events, start, m);
            assert(events[m] == EventView::Healthy(true));
        }
    }
}

/// The plan of a step that has one.
pub open spec fn plan_of(step: StepView) -> Option<PlanView> {
    match step {
        StepView::Shutdown(p) => Some(p),
        StepView::AwaitClose(p) => Some(p),
        StepView::PauseClose(p) => Some(p),
        StepView::CheckClosed(p) => Some(p),
        StepView::FindCli(p) => Some(p),
        StepView::Spawn(p) => Some(p),
        StepView::AwaitStart(p) => Some(p),
        StepView::PauseStart(p) => Some(p),
        StepView::CheckHealth(p, _) => Some(p),
        StepView::Keep(p) => Some(p),
        _ => None,
    }
}

proof fn lemma_plan_is_kept(start: StepView, events: Seq<EventView>)
    requires
        start is Shutdown,
    ensures
        plan_of(reached(start, events)) matches Some(p) ==> p == start->Shutdown_0,
        reached(start, events) matches StepView::Ready(l) ==> l == start->Shutdown_0.launch,
        reached(start, events) matches StepView::CheckHealth(p, pid) ==> p.old_pid != Some(pid),
    decreases events.len(),
{
    if events.len() > 0 {
        lemma_plan_is_kept(start, events.drop_last());
    }
}

/// A restart that succeeds gives the address and token that it was begun with.
pub proof fn success_keeps_the_address(start: StepView, events: Seq<EventView>)
    requires
        start is Shutdown,
        reached(start, events) is Ready,
    ensures
        reached(start, events) == StepView::Ready(start->Shutdown_0.launch),
{
    lemma_plan_is_kept(start, events);
}

/// A started child is never forgotten: from every step with one, the restart
/// goes to another such step, or it has kept the child, killed it, or seen it
/// exit.
pub proof fn started_child_is_accounted_for(step: StepView, event: EventView)
    requires
        child_pending(step),
    ensures
        child_pending(step_after(step, event)) || (step is Keep && step_after(step, event) is Ready)
            || (step is Kill && step_after(step, event) is Failed) || (step is AwaitStart && event
            is Exited && step_after(step, event) is Failed),
{
}

/// The daemon that a restart is for is the one that the active base names, where
/// that is on this machine; it is refused, with the reason, without a base, for
/// one that cannot be read, and for another machine.
pub proof fn restarts_are_for_the_active_daemon(addr: AddrView, base: Seq<char>)
    requires
        !"http://"@.is_prefix_of(addr.host),
    ensures
        addr.host == "127.0.0.1"@ || addr.host == "localhost"@ || addr.host == "::1"@ || addr.host
            == "[::1]"@ ==> target_of(Some("http://"@ + addr.host + ":"@ + decimal(addr.port as nat)))
            == Ok::<AddrView, Seq<char>>(addr),
        addr.host != "127.0.0.1"@ && addr.host != "localhost"@ && addr.host != "::1"@ && addr.host
            != "[::1]"@ ==> target_of(Some("http://"@ + addr.host + ":"@ + decimal(addr.port as nat)))
            == Err::<AddrView, Seq<char>>("只能重启本地 daemon（当前是远程连接）"@),
        addr_of(base) is None ==> target_of(Some(base)) == Err::<AddrView, Seq<char>>(
            "daemon 地址无法解析"@,
        ),
        target_of(None) == Err::<AddrView, Seq<char>>("daemon 尚未连接"@),
{
    crate::net::addresses_are_written_in_full(addr);
    crate::net::base_url_reads_back(addr);
}

/// A restart is begun with the base and the token that are in use, the page that
/// was built for the daemon, and the process that it replaces; without a page it
/// is not begun.
pub proof fn restarts_begin_with_what_is_in_use(
    base: Seq<char>,
    token: Seq<char>,
    addr: AddrView,
    old_pid: Option<u32>,
    p: Platform,
)
    ensures
        match launch_of(token, addr, p) {
            Ok(l) => match restart_start(base, token, addr, old_pid, p) {
                StepView::Shutdown(plan) => plan.launch.base == base && plan.launch.token == token
                    && plan.launch.url == l.url && plan.old_pid == old_pid,
                _ => false,
            },
            Err(e) => restart_start(base, token, addr, old_pid, p) == StepView::Failed(e),
        },
{
}

/// A restart whose port closes, whose CLI starts and whose server registers under
/// another process and answers ends with the page that it was begun with.
pub proof fn restarts_run_through(p: PlanView, pid: u32)
    requires
        p.old_pid != Some(pid),
    ensures
        reached(
            StepView::Shutdown(p),
            seq![
                EventView::Done,
                EventView::Port(false),
                EventView::Port(false),
                EventView::Cli(true),
                EventView::Started,
                EventView::Running(Some(pid)),
                EventView::Healthy(true),
                EventView::Done,
            ],
        ) == StepView::Ready(p.launch),
{
    let e = seq![
        EventView::Done,
        EventView::Port(false),
        EventView::Port(false),
        EventView::Cli(true),
        EventView::Started,
        EventView::Running(Some(pid)),
        EventView::Healthy(true),
        EventView::Done,
    ];
    let s = StepView::Shutdown(p);
    assert(reached(s, e.take(0)) == s);
    lemma_reached_next(s, e, 0);
    lemma_reached_next(s, e, 1);
    lemma_reached_next(s, e, 2);
    lemma_reached_next(s, e, 3);
    lemma_reached_next(s, e, 4);
    lemma_reached_next(s, e, 5);
    lemma_reached_next(s, e, 6);
    lemma_reached_next(s, e, 7);
    assert(e.take(8) =~= e);
}

proof fn lemma_reached_next(start: StepView, events: Seq<EventView>, n: int)
    requires
        0 <= n < events.len(),
    ensures
        reached(start, events.take(n + 1)) == step_after(reached(start, events.take(n)), events[n]),
{
    assert(events.take(n + 1).drop_last() =~= events.take(n));
}

/// A restart waits while it has to: while the port is open, and while the child
/// runs but the registry knows none, or still the replaced process, or the server
/// does not answer. Each time it looks again after a pause.
pub proof fn restarts_wait_and_look_again(p: PlanView, pid: u32)
    ensures
        step_after(step_after(StepView::AwaitClose(p), EventView::Port(true)), EventView::Done)
            == StepView::AwaitClose(p),
        step_after(step_after(StepView::AwaitStart(p), EventView::Running(None)), EventView::Done)
            == StepView::AwaitStart(p),
        p.old_pid == Some(pid) ==> step_after(
            step_after(StepView::AwaitStart(p), EventView::Running(Some(pid))),
            EventView::Done,
        ) == StepView::AwaitStart(p),
        p.old_pid != Some(pid) ==> step_after(
            step_after(
                step_after(StepView::AwaitStart(p), EventView::Running(Some(pid))),
                EventView::Healthy(false),
            ),
            EventView::Done,
        ) == StepView::AwaitStart(p),
        step_after(StepView::AwaitClose(p), EventView::Port(true)) is PauseClose,
        step_after(StepView::AwaitStart(p), EventView::Running(None)) is PauseStart,
{
}

/// A restart fails for one of six reasons and says which; a replacement that did
/// not come up in time is killed first.
pub proof fn failed_restarts_say_why(step: StepView, event: EventView, message: Seq<char>)
    requires
        !(step is Failed),
        step_after(step, event) == StepView::Failed(message),
    ensures
        match event {
            EventView::Port(open) => step is CheckClosed && open && message
                == "daemon 未在 8 秒内退出；未启动第二个实例"@,
            EventView::Cli(found) => step is FindCli && !found && message
                == "找不到 kimi CLI，请先安装或更新 Kimi Code"@,
            EventView::NoLog(e) => step is Spawn && message == e,
            EventView::NotStarted(e) => step is Spawn && message == "启动新版 daemon 失败："@ + e,
            EventView::Exited(status, log) => step is AwaitStart && message == start_failure(
                status,
                log,
            ),
            EventView::Done => step is Kill && message == "新版 daemon 启动超时，已停止未就绪的进程"@,
            _ => false,
        },
{
}

/// What has to fail a restart does: a port that stays open, a missing CLI, a child
/// that cannot be started or has exited; one that is late is killed.
pub proof fn broken_restarts_fail(p: PlanView, status: Seq<char>, log: Seq<char>)
    ensures
        step_after(StepView::CheckClosed(p), EventView::Port(true)) is Failed,
        step_after(StepView::FindCli(p), EventView::Cli(false)) is Failed,
        step_after(StepView::Spawn(p), EventView::NoLog(log)) is Failed,
        step_after(StepView::Spawn(p), EventView::NotStarted(log)) is Failed,
        step_after(StepView::AwaitStart(p), EventView::Exited(status, log)) is Failed,
        step_after(StepView::AwaitStart(p), EventView::Expired) is Kill,
        step_after(StepView::AwaitClose(p), EventView::Expired) is CheckClosed,
        step_after(StepView::Kill, EventView::Done) is Failed,
{
}

/// A replacement that exited is reported with its status and the begin of its log,
/// of three hundred characters at most and without white space in front.
pub proof fn exited_replacements_show_their_log(status: Seq<char>, log: Seq<char>)
    ensures
        exists|core: Seq<char>|
            #[trigger] is_core_of(core, log) && (core.len() > 0 ==> !is_space(core[0]) && !is_space(
                core.last(),
            )) && start_failure(status, log) == "新版 daemon 启动失败（"@ + status + "）："@ + if core.len()
                <= 300 {
                core
            } else {
                core.take(300)
            },
{
    trimming_takes_outer_white_space(log);
    assert(is_core_of(trimmed(log), log));
}

/// The old daemon has eight seconds to close and the new one twelve to register,
/// with looks several times a second.
pub proof fn restart_times()
    ensures
        STOP_WAIT_SECS == 8,
        START_WAIT_SECS == 12,
        STOP_PAUSE_MS == 150,
        START_PAUSE_MS == 250,
{
}

} // verus!

//! Remote Control, the official experimental `kimi rc`.
//!
//! `kimi rc` runs its own foreground server plus a reverse-tunnel client; its
//! single-instance lock at `server/rc.json` carries `{pid, local_origin, url}`.
//! The shell starts and stops that child, and takes its status from the lock.
use vstd::arithmetic::div_mod::lemma_fundamental_div_mod_converse;
use vstd::prelude::*;

use base64::Engine;

use crate::json::{json_text, no_members, parse_json, Json, JsonView};
use crate::net::{AddrView, DaemonAddr};
use crate::text::{
    cut_at_first, decimal, decimal_reads_back, is_space, lemma_decimal_value, lemma_find_char,
    lemma_trim_end_keeps_ends, lemma_trim_end_stops, lemma_trim_start_is_end, owned, parse_number,
    parsed, same, split_once, strip_leading_str, suffix, tail_chars, trim, trim_end, trim_start,
    trim_start_str, trimmed,
};

verus! {

broadcast use vstd::string::group_string_axioms;

/// Parsed rc.json: the fields the shell cares about.
#[derive(Debug)]
pub struct RcLock {
    pub pid: u32,
    pub local_origin: String,
    pub url: String,
}

/// What a lock says.
#[verifier::ext_equal]
pub struct LockView {
    pub pid: u32,
    pub local_origin: Seq<char>,
    pub url: Seq<char>,
}

impl RcLock {
    pub open spec fn view(self) -> LockView {
        LockView { pid: self.pid, local_origin: self.local_origin@, url: self.url@ }
    }
}

/// A text, or the empty one.
pub open spec fn or_empty(s: Option<Seq<char>>) -> Seq<char> {
    match s {
        Some(s) => s,
        None => seq![],
    }
}

fn owned_or_empty(s: Option<&str>) -> (r: String)
    ensures
        r@ == or_empty(crate::version::opt_view(s)),
{
    match s {
        Some(s) => owned(s),
        None => String::new(),
    }
}

/// The lock that a document describes: one with a pid.
pub open spec fn lock_of(v: JsonView) -> Option<LockView> {
    match v.u64_at("pid"@) {
        Some(p) => if p <= u32::MAX {
            Some(
                LockView {
                    pid: p as u32,
                    local_origin: or_empty(v.text_at("local_origin"@)),
                    url: or_empty(v.text_at("url"@)),
                },
            )
        } else {
            None
        },
        None => None,
    }
}

/// Takes the lock out of a document.
pub fn rc_lock_in(v: &Json) -> (r: Option<RcLock>)
    ensures
        match r {
            Some(l) => lock_of(v@) == Some(l@),
            None => lock_of(v@) is None,
        },
{
    match v.u64_at("pid") {
        Some(p) => if p <= u32::MAX as u64 {
            Some(
                RcLock {
                    pid: p as u32,
                    local_origin: owned_or_empty(v.text_at("local_origin")),
                    url: owned_or_empty(v.text_at("url")),
                },
            )
        } else {
            None
        },
        None => None,
    }
}

/// The lock that the text of rc.json describes.
pub open spec fn lock_text(raw: Seq<char>) -> Option<LockView> {
    match json_text(raw) {
        Ok(v) => lock_of(v),
        Err(_) => None,
    }
}

/// Fields the shell cares about from rc.json.
pub fn parse_rc_lock(raw: &str) -> (r: Option<RcLock>)
    ensures
        match r {
            Some(l) => lock_text(raw@) == Some(l@),
            None => lock_text(raw@) is None,
        },
{
    match parse_json(raw) {
        Ok(v) => rc_lock_in(&v),
        Err(_) => None,
    }
}

/// The address of the lock's local server.
pub open spec fn lock_addr(lock: LockView) -> Option<AddrView> {
    match split_once(trim_start_str(lock.local_origin, "http://"@), ':') {
        Some((host, port)) => match parsed(port, u16::MAX as nat) {
            Some(n) => Some(AddrView { host, port: n as u16 }),
            None => None,
        },
        None => None,
    }
}

/// The lock counts as live when this local server still accepts connections;
/// one that names none is dead.
pub fn rc_lock_target(lock: &RcLock) -> (r: Option<DaemonAddr>)
    ensures
        match r {
            Some(a) => lock_addr(lock@) == Some(a@),
            None => lock_addr(lock@) is None,
        },
{
    let origin = strip_leading_str(lock.local_origin.as_str(), "http://");
    match cut_at_first(origin.as_str(), ':') {
        Some((host, port)) => match parse_number(port.as_str(), u16::MAX as u32) {
            Some(n) => Some(DaemonAddr { host, port: n as u16 }),
            None => None,
        },
        None => None,
    }
}

/// The digit of base64's standard alphabet for six bits.
pub open spec fn base64_char(n: nat) -> char {
    if n < 26 {
        ('A' as int + n) as char
    } else if n < 52 {
        ('a' as int + n - 26) as char
    } else if n < 62 {
        ('0' as int + n - 52) as char
    } else if n == 62 {
        '+'
    } else {
        '/'
    }
}

/// Bytes in base64: four digits for every three bytes, the last of them padded
/// where bytes are missing.
pub open spec fn base64_text(bytes: Seq<u8>) -> Seq<char>
    decreases bytes.len(),
{
    let a = bytes[0] as nat;
    let b = if bytes.len() > 1 {
        bytes[1] as nat
    } else {
        0
    };
    let c = if bytes.len() > 2 {
        bytes[2] as nat
    } else {
        0
    };
    let group = seq![
        base64_char(a / 4),
        base64_char(a % 4 * 16 + b / 16),
        if bytes.len() > 1 {
            base64_char(b % 16 * 4 + c / 64)
        } else {
            '='
        },
        if bytes.len() > 2 {
            base64_char(c % 64)
        } else {
            '='
        },
    ];
    if bytes.len() == 0 {
        seq![]
    } else if bytes.len() <= 3 {
        group
    } else {
        group + base64_text(bytes.skip(3))
    }
}

/// `base64::engine::general_purpose::STANDARD.encode`: the bytes in base64, with
/// the standard alphabet and padding. It panics where the text, a third longer
/// than the bytes, would not fit in memory.
#[verifier::external_body]
fn encode_base64(bytes: &[u8]) -> (r: String)
    requires
        bytes@.len() <= usize::MAX / 4,
    ensures
        r@ == base64_text(bytes@),
{
    base64::engine::general_purpose::STANDARD.encode(bytes)
}

/// The QR code's file as the body of a data URL.
pub open spec fn qr_text(file: Option<Seq<u8>>) -> Seq<char> {
    match file {
        Some(bytes) => base64_text(bytes),
        None => seq![],
    }
}

/// rc-qrcode.png as a data-URL body; empty when the file is not there.
pub fn rc_qrcode_base64(file: Option<&Vec<u8>>) -> (r: String)
    requires
        file matches Some(f) ==> f@.len() <= usize::MAX / 4,
    ensures
        r@ == qr_text(
            match file {
                Some(f) => Some(f@),
                None => None,
            },
        ),
{
    match file {
        Some(bytes) => encode_base64(bytes.as_slice()),
        None => String::new(),
    }
}

/// Status payload for the status page's remote card.
pub struct RcState {
    pub running: bool,
    pub starting: bool,
    pub url: String,
    pub error: String,
    /// rc-qrcode.png as a data-URL body (empty when unavailable).
    pub qr_base64: String,
}

/// What a status says.
#[verifier::ext_equal]
pub struct StateView {
    pub running: bool,
    pub starting: bool,
    pub url: Seq<char>,
    pub error: Seq<char>,
    pub qr_base64: Seq<char>,
}

impl RcState {
    pub open spec fn view(self) -> StateView {
        StateView {
            running: self.running,
            starting: self.starting,
            url: self.url@,
            error: self.error@,
            qr_base64: self.qr_base64@,
        }
    }
}

/// What the page is told of a status.
pub open spec fn state_page(s: StateView) -> JsonView {
    no_members().with("running"@, JsonView::Bool(s.running)).with(
        "starting"@,
        JsonView::Bool(s.starting),
    ).with("url"@, JsonView::Text(s.url)).with("error"@, JsonView::Text(s.error)).with(
        "qr_base64"@,
        JsonView::Text(s.qr_base64),
    )
}

/// What the page is told of a status.
pub fn rc_state_doc(s: &RcState) -> (r: Json)
    ensures
        r@ == state_page(s@),
{
    Json::object().with("running", Json::Bool(s.running)).with(
        "starting",
        Json::Bool(s.starting),
    ).with("url", Json::text(s.url.as_str())).with("error", Json::text(s.error.as_str())).with(
        "qr_base64",
        Json::text(s.qr_base64.as_str()),
    )
}

/// The status where a lock's server is alive.
pub open spec fn running_state(starting: bool, lock: LockView, qr: Seq<char>) -> StateView {
    StateView { running: true, starting, url: lock.url, error: seq![], qr_base64: qr }
}

/// The end of what a child wrote to stderr, as a failure shows it: there the
/// reason for an exit stands, while the start may be mere logging.
pub open spec fn shown_tail(stderr: Seq<char>) -> Seq<char> {
    trimmed(suffix(trimmed(stderr), 300))
}

fn shown_text(stderr: &str) -> (r: String)
    ensures
        r@ == shown_tail(stderr@),
{
    trim(tail_chars(trim(stderr).as_str(), 300).as_str())
}

/// The status where the shell's child died without a live lock.
pub open spec fn dead_state(stderr: Seq<char>) -> StateView {
    StateView {
        running: false,
        starting: false,
        url: seq![],
        error: "`kimi rc` 已退出："@ + shown_tail(stderr),
        qr_base64: seq![],
    }
}

/// The status where nothing runs.
pub open spec fn idle_state(starting: bool) -> StateView {
    StateView { running: false, starting, url: seq![], error: seq![], qr_base64: seq![] }
}

/// The status, for a live lock with the QR code, and else for whether the
/// shell's child has exited.
pub open spec fn state_of(
    starting: bool,
    live: Option<(LockView, Seq<char>)>,
    child_exited: bool,
    stderr: Seq<char>,
) -> StateView {
    match live {
        Some((lock, qr)) => running_state(starting, lock, qr),
        None => if child_exited {
            dead_state(stderr)
        } else {
            idle_state(starting)
        },
    }
}

/// The view of a live lock.
pub open spec fn live_view(live: Option<(RcLock, String)>) -> Option<(LockView, Seq<char>)> {
    match live {
        Some((lock, qr)) => Some((lock@, qr@)),
        None => None,
    }
}

/// The remote card's status.
pub fn rc_state(
    starting: bool,
    live: Option<(RcLock, String)>,
    child_exited: bool,
    stderr: &str,
) -> (r: RcState)
    ensures
        r@ == state_of(starting, live_view(live), child_exited, stderr@),
{
    match live {
        Some((lock, qr)) => RcState {
            running: true,
            starting,
            url: lock.url,
            error: String::new(),
            qr_base64: qr,
        },
        None => if child_exited {
            let mut error = owned("`kimi rc` 已退出：");
            error.append(shown_text(stderr).as_str());
            RcState {
                running: false,
                starting: false,
                url: String::new(),
                error,
                qr_base64: String::new(),
            }
        } else {
            RcState {
                running: false,
                starting,
                url: String::new(),
                error: String::new(),
                qr_base64: String::new(),
            }
        },
    }
}

/// The tail of the child's stderr that is kept for failure reporting.
pub open spec fn kept_tail(total: Seq<char>) -> Seq<char> {
    suffix(trimmed(total), 2000)
}

/// Keeps the tail of the child's stderr for failure reporting. White space around
/// it counts for nothing, so that blank lines push no message out.
pub fn stderr_tail(total: &str) -> (r: String)
    ensures
        r@ == kept_tail(total@),
{
    tail_chars(trim(total).as_str(), 2000)
}

/// How often a start looks for the lock before it gives up.
pub const START_ROUNDS: u32 = 40;

/// How long is paused before each look, in milliseconds.
pub const START_PAUSE_MS: u64 = 300;

/// What a start does next.
pub enum StartStep {
    /// Look whether it runs already.
    CheckRunning,
    /// Look for the CLI.
    FindCli,
    /// Start `kimi rc`.
    Spawn,
    /// Wait a moment; this many rounds are over.
    Pause(u32),
    /// Look at the status.
    Look(u32),
    /// Look whether the child has exited.
    CheckChild(u32),
    /// Tell the user that it is ready.
    Notify,
    Ready,
    Failed(String),
}

/// What a start step says.
#[verifier::ext_equal]
pub enum StartView {
    CheckRunning,
    FindCli,
    Spawn,
    Pause(u32),
    Look(u32),
    CheckChild(u32),
    Notify,
    Ready,
    Failed(Seq<char>),
}

impl StartStep {
    pub open spec fn view(self) -> StartView {
        match self {
            StartStep::CheckRunning => StartView::CheckRunning,
            StartStep::FindCli => StartView::FindCli,
            StartStep::Spawn => StartView::Spawn,
            StartStep::Pause(n) => StartView::Pause(n),
            StartStep::Look(n) => StartView::Look(n),
            StartStep::CheckChild(n) => StartView::CheckChild(n),
            StartStep::Notify => StartView::Notify,
            StartStep::Ready => StartView::Ready,
            StartStep::Failed(e) => StartView::Failed(e@),
        }
    }
}

/// What came of a start step.
pub enum StartEvent {
    /// It is done.
    Done,
    /// The status that was found.
    Status(RcState),
    /// Whether there is a CLI.
    Cli(bool),
    /// The start of the child, or why it failed.
    Spawned(Result<(), String>),
    /// What the child wrote to stderr, where it has exited.
    Exited(Option<String>),
}

/// What a start event says.
#[verifier::ext_equal]
pub enum StartEventView {
    Done,
    Status(StateView),
    Cli(bool),
    Spawned(Result<(), Seq<char>>),
    Exited(Option<Seq<char>>),
}

impl StartEvent {
    pub open spec fn view(self) -> StartEventView {
        match self {
            StartEvent::Done => StartEventView::Done,
            StartEvent::Status(s) => StartEventView::Status(s@),
            StartEvent::Cli(found) => StartEventView::Cli(found),
            StartEvent::Spawned(Ok(_)) => StartEventView::Spawned(Ok(())),
            StartEvent::Spawned(Err(e)) => StartEventView::Spawned(Err(e@)),
            StartEvent::Exited(s) => StartEventView::Exited(crate::web::opt_text(s)),
        }
    }
}

/// The step after `step`, for what came of it. An event that does not answer
/// the step changes nothing.
pub open spec fn start_after(step: StartView, event: StartEventView) -> StartView {
    match (step, event) {
        (StartView::CheckRunning, StartEventView::Status(s)) => if s.running {
            StartView::Ready
        } else {
            StartView::FindCli
        },
        (StartView::FindCli, StartEventView::Cli(found)) => if found {
            StartView::Spawn
        } else {
            StartView::Failed("找不到 kimi CLI"@)
        },
        (StartView::Spawn, StartEventView::Spawned(r)) => match r {
            Ok(_) => StartView::Pause(0),
            Err(e) => StartView::Failed("拉起 `kimi rc` 失败："@ + e),
        },
        (StartView::Pause(n), StartEventView::Done) => StartView::Look(n),
        (StartView::Look(n), StartEventView::Status(s)) => if s.running && s.url.len() > 0 {
            StartView::Notify
        } else {
            StartView::CheckChild(n)
        },
        (StartView::CheckChild(n), StartEventView::Exited(x)) => match x {
            Some(stderr) => StartView::Failed("`kimi rc` 提前退出："@ + shown_tail(stderr)),
            None => if n + 1 < START_ROUNDS {
                StartView::Pause((n + 1) as u32)
            } else {
                StartView::Failed("等待 Remote Control 就绪超时（需要 Kimi 账号登录）"@)
            },
        },
        (StartView::Notify, StartEventView::Done) => StartView::Ready,
        _ => step,
    }
}

/// Takes the next step of a start: the lock (and its URL) is waited for, or an
/// early exit, since the CLI needs to boot its server and register with the
/// relay first.
pub fn rc_start_next(step: StartStep, event: StartEvent) -> (r: StartStep)
    ensures
        r@ == start_after(step@, event@),
{
    match (step, event) {
        (StartStep::CheckRunning, StartEvent::Status(s)) => if s.running {
            StartStep::Ready
        } else {
            StartStep::FindCli
        },
        (StartStep::FindCli, StartEvent::Cli(found)) => if found {
            StartStep::Spawn
        } else {
            StartStep::Failed(owned("找不到 kimi CLI"))
        },
        (StartStep::Spawn, StartEvent::Spawned(r)) => match r {
            Ok(_) => StartStep::Pause(0),
            Err(e) => {
                let mut message = owned("拉起 `kimi rc` 失败：");
                message.append(e.as_str());
                StartStep::Failed(message)
            },
        },
        (StartStep::Pause(n), StartEvent::Done) => StartStep::Look(n),
        (StartStep::Look(n), StartEvent::Status(s)) => if s.running && !s.url.as_str().is_empty() {
            StartStep::Notify
        } else {
            StartStep::CheckChild(n)
        },
        (StartStep::CheckChild(n), StartEvent::Exited(x)) => match x {
            Some(stderr) => {
                let mut message = owned("`kimi rc` 提前退出：");
                message.append(shown_text(stderr.as_str()).as_str());
                StartStep::Failed(message)
            },
            None => if n < START_ROUNDS - 1 {
                StartStep::Pause(n + 1)
            } else {
                StartStep::Failed(owned("等待 Remote Control 就绪超时（需要 Kimi 账号登录）"))
            },
        },
        (StartStep::Notify, StartEvent::Done) => StartStep::Ready,
        (step, _) => step,
    }
}

/// What a stop does.
#[derive(Clone, Copy, PartialEq, Eq, Structural, Debug)]
pub enum StopPlan {
    Nothing,
    /// Terminate this process, and wait for the shell's child where it has one.
    Terminate(u32, bool),
}

/// The process to terminate: the one that the lock names, or else the child.
pub fn exit_target(lock: Option<&RcLock>, child_pid: u32) -> (r: u32)
    ensures
        r == match lock {
            Some(l) => l@.pid,
            None => child_pid,
        },
{
    match lock {
        Some(l) => l.pid,
        None => child_pid,
    }
}

/// What to do to stop: `child` is the shell's own child, its pid and whether it
/// has exited already.
pub fn rc_stop(child: Option<(u32, bool)>, lock: Option<&RcLock>) -> (r: StopPlan)
    ensures
        r == match child {
            Some((pid, exited)) => if exited {
                StopPlan::Nothing
            } else {
                StopPlan::Terminate(
                    match lock {
                        Some(l) => l@.pid,
                        None => pid,
                    },
                    true,
                )
            },
            None => match lock {
                Some(l) => StopPlan::Terminate(l@.pid, false),
                None => StopPlan::Nothing,
            },
        },
{
    match child {
        Some((pid, exited)) => if exited {
            StopPlan::Nothing
        } else {
            StopPlan::Terminate(exit_target(lock, pid), true)
        },
        None => match lock {
            Some(l) => StopPlan::Terminate(l.pid, false),
            None => StopPlan::Nothing,
        },
    }
}

/// What the status bar can ask for.
#[derive(Clone, Copy, PartialEq, Eq, Structural, Debug)]
pub enum RcAction {
    Start,
    Stop,
    Status,
}

/// The action that a word names; every other word asks for the status.
pub open spec fn action_of(word: Seq<char>) -> RcAction {
    if word == "start"@ {
        RcAction::Start
    } else if word == "stop"@ {
        RcAction::Stop
    } else {
        RcAction::Status
    }
}

/// Status-bar entry point: "start" | "stop" | "status".
pub fn remote_control(word: &str) -> (r: RcAction)
    ensures
        r == action_of(word@),
{
    if same(word, "start") {
        RcAction::Start
    } else if same(word, "stop") {
        RcAction::Stop
    } else {
        RcAction::Status
    }
}

/// The step that a start reaches with a list of events.
pub open spec fn start_reached(events: Seq<StartEventView>) -> StartView
    decreases events.len(),
{
    if events.len() == 0 {
        StartView::CheckRunning
    } else {
        start_after(start_reached(events.drop_last()), events.last())
    }
}

/// The rounds that are over in a step.
pub open spec fn rounds_over(step: StartView) -> int {
    match step {
        StartView::Pause(n) => n as int,
        StartView::Look(n) => n as int,
        StartView::CheckChild(n) => n as int,
        _ => 0,
    }
}

/// A start looks for the lock at most forty times.
pub proof fn start_gives_up_in_time(events: Seq<StartEventView>)
    ensures
        0 <= rounds_over(start_reached(events)) < START_ROUNDS,
    decreases events.len(),
{
    if events.len() > 0 {
        start_gives_up_in_time(events.drop_last());
    }
}

/// The user is told that it is ready only once a live lock names a URL.
pub proof fn ready_is_told_with_a_url(events: Seq<StartEventView>)
    requires
        events.len() > 0,
        start_reached(events) is Notify,
        !(start_reached(events.drop_last()) is Notify),
    ensures
        events.last() matches StartEventView::Status(s) && s.running && s.url.len() > 0,
        start_reached(events.drop_last()) is Look,
{
}

/// Where a status was found running, nothing is started.
pub proof fn running_is_not_started_again(s: StateView)
    requires
        s.running,
    ensures
        start_after(StartView::CheckRunning, StartEventView::Status(s)) == StartView::Ready,
{
}

/// A status shows an address only while it runs, and an error only while it
/// does not.
pub proof fn status_is_consistent(
    starting: bool,
    live: Option<(LockView, Seq<char>)>,
    child_exited: bool,
    stderr: Seq<char>,
)
    ensures
        state_of(starting, live, child_exited, stderr).running <==> live is Some,
        !state_of(starting, live, child_exited, stderr).running ==> state_of(
            starting,
            live,
            child_exited,
            stderr,
        ).url.len() == 0 && state_of(starting, live, child_exited, stderr).qr_base64.len() == 0,
        state_of(starting, live, child_exited, stderr).running ==> state_of(
            starting,
            live,
            child_exited,
            stderr,
        ).error.len() == 0,
{
}

/// A failure shows the end of what the child wrote: an end of its stderr without
/// the trailing white space, of at most 300 characters, and something of it
/// wherever it wrote more than white space.
pub proof fn shown_tail_is_the_end(stderr: Seq<char>)
    ensures
        shown_tail(stderr).is_suffix_of(trim_end(stderr)),
        shown_tail(stderr).len() <= 300,
        shown_tail(stderr).len() == 0 <==> trimmed(stderr).len() == 0,
        trimmed(stderr).len() > 0 ==> shown_tail(stderr).last() == trim_end(stderr).last(),
{
    let whole = trimmed(stderr);
    let kept = suffix(whole, 300);
    lemma_trim_start_is_end(stderr);
    lemma_trim_end_keeps_ends(trim_start(stderr), stderr);
    lemma_trim_end_stops(trim_start(stderr));
    lemma_trim_start_is_end(kept);
    assert(trim_end(trim_start(kept)) == trim_start(kept));
    assert(shown_tail(stderr) == trim_end(stderr).subrange(
        trim_end(stderr).len() - shown_tail(stderr).len(),
        trim_end(stderr).len() as int,
    ));
}

/// Leading white space that a longer end of a text has makes no difference.
proof fn lemma_trim_start_of_end(y: Seq<char>, k: Seq<char>)
    requires
        y.is_suffix_of(k),
        y.len() >= trim_start(k).len(),
    ensures
        trim_start(y) == trim_start(k),
    decreases k.len(),
{
    if k.len() > 0 && is_space(k[0]) {
        if y.len() < k.len() {
            assert(y == k.skip(1).subrange(k.skip(1).len() - y.len(), k.skip(1).len() as int));
            lemma_trim_start_of_end(y, k.skip(1));
        } else {
            assert(y == k);
        }
    } else {
        assert(y == k);
    }
}

/// Only the tail of what the child wrote is kept, and still a failure shows what
/// it would show of the whole: an end of it, and something of it wherever there
/// is more than white space.
pub proof fn keeping_the_tail_loses_nothing(total: Seq<char>)
    ensures
        shown_tail(kept_tail(total)) == shown_tail(total),
        shown_tail(kept_tail(total)).is_suffix_of(trim_end(total)),
        shown_tail(kept_tail(total)).len() == 0 <==> trimmed(total).len() == 0,
{
    let whole = trimmed(total);
    let kept = kept_tail(total);
    shown_tail_is_the_end(total);
    lemma_trim_end_stops(trim_start(total));
    lemma_trim_start_is_end(kept);
    let left = trim_start(kept);
    assert(trimmed(kept) == left);
    let shown = suffix(whole, 300);
    if left.len() >= 300 {
        assert(suffix(left, 300) == shown);
    } else {
        assert(suffix(left, 300) == left);
        if whole.len() > 300 {
            assert(shown.is_suffix_of(kept));
            lemma_trim_start_of_end(shown, kept);
        } else {
            assert(shown == kept);
        }
        lemma_trim_start_is_end(left);
        assert(trim_start(left) == left) by {
            crate::text::lemma_trim_start_len(kept);
        }
    }
}

/// A lock is read where its document holds a process id as a number that can be
/// one, and then holds that id, its origin and its address as the document has
/// them.
pub proof fn locks_are_read_from_their_members(v: JsonView)
    ensures
        match v.member("pid"@) {
            Some(JsonView::Number(Some(p), _)) => if p <= u32::MAX {
                match lock_of(v) {
                    Some(l) => {
                        &&& l.pid == p
                        &&& match v.member("local_origin"@) {
                            Some(JsonView::Text(s)) => l.local_origin == s,
                            _ => l.local_origin.len() == 0,
                        }
                        &&& match v.member("url"@) {
                            Some(JsonView::Text(s)) => l.url == s,
                            _ => l.url.len() == 0,
                        }
                    },
                    None => false,
                }
            } else {
                lock_of(v) is None
            },
            _ => lock_of(v) is None,
        },
{
}

/// The lock's local server is looked for at the host and port that its origin
/// names.
pub proof fn lock_names_its_server(lock: LockView, host: Seq<char>, port: u16)
    requires
        lock.local_origin == "http://"@ + host + ":"@ + decimal(port as nat),
        !host.contains(':'),
        !host.contains('/'),
    ensures
        lock_addr(lock) == Some(AddrView { host, port }),
{
    reveal_strlit("http://");
    reveal_strlit(":");
    let http = "http://"@;
    let digits = decimal(port as nat);
    let rest = host + ":"@ + digits;
    let origin = lock.local_origin;
    lemma_decimal_value(port as nat);
    decimal_reads_back(port as nat, u16::MAX as nat);
    assert(origin =~= http + rest);
    assert(http =~= origin.subrange(0, 7));
    assert(origin.skip(7) =~= rest);
    assert(!http.is_prefix_of(rest)) by {
        if http.is_prefix_of(rest) {
            assert(rest[5] == http[5]);
            if host.len() > 5 {
                assert(host.contains(host[5]));
            } else if host.len() < 5 {
                assert(crate::text::is_digit(digits[5 - host.len() - 1]));
            }
        }
    }
    assert(trim_start_str(rest, http) == rest);
    assert(trim_start_str(origin, http) == rest);
    assert forall|j: int| 0 <= j < host.len() implies rest[j] != ':' by {
        assert(host.contains(host[j]));
    }
    lemma_find_char(rest, ':', host.len() as int);
    assert(rest.take(host.len() as int) =~= host);
    assert(rest.skip(host.len() as int + 1) =~= digits);
}

/// While a live lock is there, its address and the QR code are shown; a dead child
/// is shown as not running, with an end of what it wrote; and else nothing is.
pub proof fn status_shows_what_is_there(
    starting: bool,
    lock: LockView,
    qr: Seq<char>,
    child_exited: bool,
    stderr: Seq<char>,
)
    ensures
        ({
            let s = state_of(starting, Some((lock, qr)), child_exited, stderr);
            s.running && s.starting == starting && s.url == lock.url && s.qr_base64 == qr
                && s.error.len() == 0
        }),
        child_exited ==> ({
            let s = state_of(starting, None, child_exited, stderr);
            !s.running && !s.starting && s.error == "`kimi rc` 已退出："@ + shown_tail(stderr)
        }),
        !child_exited ==> ({
            let s = state_of(starting, None, child_exited, stderr);
            !s.running && s.starting == starting && s.error.len() == 0
        }),
{
}

/// As much of the end is shown as fits: all of a short text, and three hundred
/// characters of a longer one unless white space stands where it is cut.
pub proof fn shown_tail_is_as_long_as_it_may(stderr: Seq<char>)
    ensures
        trimmed(stderr).len() <= 300 ==> shown_tail(stderr) == trimmed(stderr),
        trimmed(stderr).len() > 300 && !is_space(trimmed(stderr)[trimmed(stderr).len() - 300])
            ==> shown_tail(stderr).len() == 300,
{
    let whole = trimmed(stderr);
    let kept = suffix(whole, 300);
    lemma_trim_end_stops(trim_start(stderr));
    crate::text::trimming_takes_outer_white_space(stderr);
    if whole.len() > 0 {
        assert(kept.last() == whole.last());
        assert(!is_space(kept.last()));
    }
    if whole.len() <= 300 {
        assert(trim_start(whole) == whole);
        assert(trim_end(whole) == whole);
    } else if !is_space(whole[whole.len() - 300]) {
        assert(kept[0] == whole[whole.len() - 300]);
        assert(trim_start(kept) == kept);
        assert(trim_end(kept) == kept);
    }
}

/// The page is told the status exactly, each part under its own name.
pub proof fn page_is_told_the_status(s: StateView)
    ensures
        state_page(s).member("running"@) == Some(JsonView::Bool(s.running)),
        state_page(s).member("starting"@) == Some(JsonView::Bool(s.starting)),
        state_page(s).member("url"@) == Some(JsonView::Text(s.url)),
        state_page(s).member("error"@) == Some(JsonView::Text(s.error)),
        state_page(s).member("qr_base64"@) == Some(JsonView::Text(s.qr_base64)),
{
    reveal_strlit("running");
    reveal_strlit("starting");
    reveal_strlit("url");
    reveal_strlit("error");
    reveal_strlit("qr_base64");
    assert("running"@.len() == 7);
    assert("starting"@.len() == 8);
    assert("url"@.len() == 3);
    assert("error"@.len() == 5);
    assert("qr_base64"@.len() == 9);
}

/// Only the word "start" starts Remote Control and only "stop" stops it.
pub proof fn only_two_words_act(word: Seq<char>)
    ensures
        action_of(word) == RcAction::Start <==> word == "start"@,
        action_of(word) == RcAction::Stop <==> word == "stop"@,
{
    reveal_strlit("start");
    reveal_strlit("stop");
    assert("start"@.len() == 5);
    assert("stop"@.len() == 4);
}

/// A start that finds nothing running looks for the CLI, starts it, and is ready
/// once a look finds a live lock that names an address, however many looks found
/// none before; until then it goes on while the child runs.
pub proof fn starts_end_once_the_address_is_there(idle: StateView, up: StateView, n: u32)
    requires
        !idle.running || idle.url.len() == 0,
        up.running,
        up.url.len() > 0,
        n < 40,
    ensures
        !idle.running ==> start_after(StartView::CheckRunning, StartEventView::Status(idle))
            == StartView::FindCli,
        start_after(StartView::FindCli, StartEventView::Cli(true)) == StartView::Spawn,
        start_after(StartView::Spawn, StartEventView::Spawned(Ok(()))) == StartView::Pause(0),
        start_after(StartView::Pause(n), StartEventView::Done) == StartView::Look(n),
        start_after(StartView::Look(n), StartEventView::Status(up)) == StartView::Notify,
        start_after(StartView::Notify, StartEventView::Done) == StartView::Ready,
        start_after(
            start_after(StartView::Look(n), StartEventView::Status(idle)),
            StartEventView::Exited(None),
        ) == if n < 39 {
            StartView::Pause((n + 1) as u32)
        } else {
            StartView::Failed("等待 Remote Control 就绪超时（需要 Kimi 账号登录）"@)
        },
{
}

/// A start fails for one of four reasons and says which: no CLI, a child that could
/// not be started, one that exited, or no address in time.
pub proof fn failed_starts_say_why(step: StartView, event: StartEventView, message: Seq<char>)
    requires
        !(step is Failed),
        start_after(step, event) == StartView::Failed(message),
    ensures
        match event {
            StartEventView::Cli(found) => step is FindCli && !found && message == "找不到 kimi CLI"@,
            StartEventView::Spawned(Err(e)) => step is Spawn && message == "拉起 `kimi rc` 失败："@ + e,
            StartEventView::Exited(Some(stderr)) => step is CheckChild && message
                == "`kimi rc` 提前退出："@ + shown_tail(stderr),
            StartEventView::Exited(None) => step is CheckChild && step->CheckChild_0 >= 39 && message
                == "等待 Remote Control 就绪超时（需要 Kimi 账号登录）"@,
            _ => false,
        },
{
}

/// A start without a CLI, with a child that cannot be started, or whose child has
/// exited fails.
pub proof fn broken_starts_fail(e: Seq<char>, n: u32)
    ensures
        start_after(StartView::FindCli, StartEventView::Cli(false)) is Failed,
        start_after(StartView::Spawn, StartEventView::Spawned(Err(e))) is Failed,
        start_after(StartView::CheckChild(n), StartEventView::Exited(Some(e))) is Failed,
{
}

/// A start waits twelve seconds at most, all pauses taken together.
pub proof fn start_waits_twelve_seconds()
    ensures
        START_ROUNDS * START_PAUSE_MS == 12000,
        START_ROUNDS == 40,
{
}

/// A lock is read from a text where the parser makes a document of it, and not
/// otherwise; the QR code is the file in base64, and empty without a file.
pub proof fn locks_are_read_from_documents(raw: Seq<char>, bytes: Seq<u8>)
    ensures
        match json_text(raw) {
            Ok(v) => lock_text(raw) == lock_of(v),
            Err(_) => lock_text(raw) is None,
        },
        qr_text(Some(bytes)) == base64_text(bytes),
        qr_text(None).len() == 0,
{
}

proof fn lemma_six_bits(a: nat, b: nat)
    requires
        a < 256,
        b < 256,
    ensures
        (a * 256 + b) / 16 % 64 == a % 4 * 16 + b / 16,
        (a * 256 + b) / 64 % 64 == a % 16 * 4 + b / 64,
{
    let n = (a * 256 + b) as int;
    let x = a as int;
    let y = b as int;
    assert(n == 16 * (16 * x + y / 16) + y % 16);
    lemma_fundamental_div_mod_converse(n, 16, 16 * x + y / 16, y % 16);
    assert(16 * x + y / 16 == 64 * (x / 4) + (x % 4 * 16 + y / 16));
    lemma_fundamental_div_mod_converse(16 * x + y / 16, 64, x / 4, x % 4 * 16 + y / 16);
    assert(n == 64 * (4 * x + y / 64) + y % 64);
    lemma_fundamental_div_mod_converse(n, 64, 4 * x + y / 64, y % 64);
    assert(4 * x + y / 64 == 64 * (x / 16) + (x % 16 * 4 + y / 64));
    lemma_fundamental_div_mod_converse(4 * x + y / 64, 64, x / 16, x % 16 * 4 + y / 64);
}

/// A group of three bytes gives four digits: the six-bit parts of its number from
/// the highest to the lowest.
pub proof fn base64_groups_give_six_bits_each(a: u8, b: u8, c: u8)
    ensures
        base64_text(seq![a, b, c]) == seq![
            base64_char(a as nat / 4),
            base64_char((a as nat * 256 + b as nat) / 16 % 64),
            base64_char((b as nat * 256 + c as nat) / 64 % 64),
            base64_char(c as nat % 64),
        ],
{
    lemma_six_bits(a as nat, b as nat);
    lemma_six_bits(b as nat, c as nat);
}

/// The groups of three bytes follow each other, and a last one that is short is
/// that with zeros, with a padding sign for each byte that is missing.
pub proof fn base64_goes_by_groups(a: u8, b: u8, c: u8, rest: Seq<u8>)
    ensures
        base64_text(seq![a, b, c] + rest) == base64_text(seq![a, b, c]) + base64_text(rest),
        base64_text(seq![a, b]) == base64_text(seq![a, b, 0]).update(3, '='),
        base64_text(seq![a]) == base64_text(seq![a, 0, 0]).update(2, '=').update(3, '='),
        base64_text(seq![]).len() == 0,
{
    let s = seq![a, b, c] + rest;
    assert(s.skip(3) =~= rest);
    if rest.len() == 0 {
        assert(s =~= seq![a, b, c]);
        assert(base64_text(rest) =~= Seq::<char>::empty());
        assert(base64_text(s) + Seq::<char>::empty() =~= base64_text(s));
    }
}

/// The digits of base64 are those of its standard alphabet, in order.
pub proof fn base64_has_its_alphabet(n: nat)
    requires
        n < 64,
    ensures
        base64_char(n)
            == "ABCDEFGHIJKLMNOPQRSTUVWXYZabcdefghijklmnopqrstuvwxyz0123456789+/"@[n as int],
{
    reveal_strlit("ABCDEFGHIJKLMNOPQRSTUVWXYZabcdefghijklmnopqrstuvwxyz0123456789+/");
}

} // verus!

//! Attaching to a daemon: which candidate is taken, and how long a started
//! server is waited for.
use vstd::prelude::*;

use crate::net::{addr_views, host_port, host_port_text, AddrView, DaemonAddr};
use crate::text::{
    decimal, is_core_of, is_space, lemma_trim_end_keeps_ends, lemma_trim_start_is_end, owned, suffix, tail_chars,
    trim, trim_end, trim_start, trimmed, trimming_takes_outer_white_space,
};
use crate::web::{launch_view, Launch, LaunchView};

verus! {

broadcast use vstd::string::group_string_axioms;

/// How many rounds a started server is waited for.
pub const WAIT_ROUNDS: u32 = 50;

/// How long is paused between two rounds, in milliseconds.
pub const WAIT_PAUSE_MS: u64 = 300;

/// The bearer token in the text of `server.token`, where that could be read.
pub fn server_token(text: Option<&str>) -> (r: Result<String, String>)
    ensures
        match r {
            Ok(t) => text is Some && t@ == trimmed(text->0@),
            Err(e) => text is None && e@ == "读取 server.token 失败"@,
        },
{
    match text {
        Some(t) => Ok(trim(t)),
        None => Err(owned("读取 server.token 失败")),
    }
}

/// What a candidate answered.
pub enum Probe {
    /// It accepts no connection.
    Closed,
    /// It accepts connections, but did not answer the authenticated request.
    Refused(String),
    Answered,
}

/// What a probe says.
#[verifier::ext_equal]
pub enum ProbeView {
    Closed,
    Refused(Seq<char>),
    Answered,
}

impl Probe {
    pub open spec fn view(self) -> ProbeView {
        match self {
            Probe::Closed => ProbeView::Closed,
            Probe::Refused(e) => ProbeView::Refused(e@),
            Probe::Answered => ProbeView::Answered,
        }
    }
}

/// A search through the candidates: those before `at` did not answer.
pub struct Search {
    pub candidates: Vec<DaemonAddr>,
    pub at: usize,
    /// Why the search fails if it ends here.
    pub last: String,
}

/// What a search says.
#[verifier::ext_equal]
pub struct SearchView {
    pub candidates: Seq<AddrView>,
    pub at: int,
    pub last: Seq<char>,
}

impl Search {
    pub open spec fn view(self) -> SearchView {
        SearchView { candidates: addr_views(self.candidates@), at: self.at as int, last: self.last@ }
    }
}

/// Where a search goes.
pub enum Found {
    /// To the candidate at the search's position.
    Probe(Search),
    /// This candidate answered.
    Daemon(DaemonAddr),
    /// No candidate did.
    Nothing(String),
}

/// What `Found` says.
#[verifier::ext_equal]
pub enum FoundView {
    Probe(SearchView),
    Daemon(AddrView),
    Nothing(Seq<char>),
}

impl Found {
    pub open spec fn view(self) -> FoundView {
        match self {
            Found::Probe(s) => FoundView::Probe(s@),
            Found::Daemon(a) => FoundView::Daemon(a@),
            Found::Nothing(e) => FoundView::Nothing(e@),
        }
    }
}

/// The message of a search that met no daemon at all.
pub open spec fn nothing_found() -> Seq<char> {
    "没有发现可达的 kimi daemon（server/instances 与 server/lock 均无效）"@
}

/// The message of a daemon that did not answer.
pub open spec fn refusal(addr: AddrView, e: Seq<char>) -> Seq<char> {
    "daemon "@ + host_port(addr) + " 无响应："@ + e
}

/// A search at its position: there may be no candidate left.
pub open spec fn search_at(s: SearchView) -> FoundView {
    if s.at < s.candidates.len() {
        FoundView::Probe(s)
    } else {
        FoundView::Nothing(s.last)
    }
}

/// The begin of a search.
pub open spec fn search_start(candidates: Seq<AddrView>) -> FoundView {
    search_at(SearchView { candidates, at: 0, last: nothing_found() })
}

/// Where a search goes once its candidate was probed.
pub open spec fn search_after(s: SearchView, probe: ProbeView) -> FoundView {
    match probe {
        ProbeView::Closed => search_at(SearchView { at: s.at + 1, ..s }),
        ProbeView::Refused(e) => search_at(
            SearchView { at: s.at + 1, last: refusal(s.candidates[s.at], e), ..s },
        ),
        ProbeView::Answered => FoundView::Daemon(s.candidates[s.at]),
    }
}

fn at_position(s: Search) -> (r: Found)
    ensures
        r@ == search_at(s@),
{
    if s.at < s.candidates.len() {
        Found::Probe(s)
    } else {
        Found::Nothing(s.last)
    }
}

/// Begins a search through the candidates, in their order.
pub fn attach(candidates: Vec<DaemonAddr>) -> (r: Found)
    ensures
        r@ == search_start(addr_views(candidates@)),
{
    at_position(
        Search {
            candidates,
            at: 0,
            last: owned("没有发现可达的 kimi daemon（server/instances 与 server/lock 均无效）"),
        },
    )
}

/// Goes on with a search once its candidate was probed.
pub fn attach_next(search: Search, probe: Probe) -> (r: Found)
    requires
        search.at < search.candidates@.len(),
    ensures
        r@ == search_after(search@, probe@),
{
    let i: usize = search.at;
    let n: usize = search.candidates.len();
    proof {
        assert(i < n);
    }
    match probe {
        Probe::Closed => at_position(
            Search { candidates: search.candidates, at: i + 1, last: search.last },
        ),
        Probe::Refused(e) => {
            let mut last = owned("daemon ");
            last.append(host_port_text(&search.candidates[i]).as_str());
            last.append(" 无响应：");
            last.append(e.as_str());
            at_position(Search { candidates: search.candidates, at: i + 1, last })
        },
        Probe::Answered => Found::Daemon(search.candidates[i].copied()),
    }
}

/// Where a search ends, for what the candidates answer.
pub open spec fn search_end(f: FoundView, answers: Seq<ProbeView>) -> FoundView
    decreases
            match f {
                FoundView::Probe(s) => s.candidates.len() - s.at + 1,
                _ => 0,
            },
{
    match f {
        FoundView::Probe(s) => if s.at < s.candidates.len() {
            search_end(search_after(s, answers[s.at]), answers)
        } else {
            f
        },
        _ => f,
    }
}

/// The last candidate before `n` that accepted a connection but did not answer,
/// in words; `nothing_found` where there is none.
pub open spec fn last_refusal(
    candidates: Seq<AddrView>,
    answers: Seq<ProbeView>,
    n: int,
) -> Seq<char>
    decreases n,
{
    if n <= 0 {
        nothing_found()
    } else {
        match answers[n - 1] {
            ProbeView::Refused(e) => refusal(candidates[n - 1], e),
            _ => last_refusal(candidates, answers, n - 1),
        }
    }
}

proof fn lemma_search_from(candidates: Seq<AddrView>, answers: Seq<ProbeView>, at: int, k: int)
    requires
        answers.len() == candidates.len(),
        0 <= at <= k <= candidates.len(),
        forall|i: int| at <= i < k ==> answers[i] != ProbeView::Answered,
        k < candidates.len() ==> answers[k] == ProbeView::Answered,
    ensures
        search_end(
            search_at(
                SearchView { candidates, at, last: last_refusal(candidates, answers, at) },
            ),
            answers,
        ) == if k < candidates.len() {
            FoundView::Daemon(candidates[k])
        } else {
            FoundView::Nothing(last_refusal(candidates, answers, k))
        },
    decreases k - at,
{
    let s = SearchView { candidates, at, last: last_refusal(candidates, answers, at) };
    if at < candidates.len() {
        reveal_with_fuel(search_end, 2);
        if at < k {
            lemma_search_from(candidates, answers, at + 1, k);
            let next = SearchView {
                candidates,
                at: at + 1,
                last: last_refusal(candidates, answers, at + 1),
            };
            assert(search_after(s, answers[at]) == search_at(next));
        }
    }
}

/// The first candidate that answers is the one attached to; those that merely
/// accept connections are passed over.
pub proof fn first_answering_candidate_is_taken(
    candidates: Seq<AddrView>,
    answers: Seq<ProbeView>,
    k: int,
)
    requires
        answers.len() == candidates.len(),
        0 <= k < candidates.len(),
        answers[k] == ProbeView::Answered,
        forall|i: int| 0 <= i < k ==> answers[i] != ProbeView::Answered,
    ensures
        search_end(search_start(candidates), answers) == FoundView::Daemon(candidates[k]),
{
    lemma_search_from(candidates, answers, 0, k);
}

/// Where no candidate answers the search fails, and names the last one that
/// accepted a connection.
pub proof fn unanswered_search_fails(candidates: Seq<AddrView>, answers: Seq<ProbeView>)
    requires
        answers.len() == candidates.len(),
        forall|i: int| 0 <= i < candidates.len() ==> answers[i] != ProbeView::Answered,
    ensures
        search_end(search_start(candidates), answers) == FoundView::Nothing(
            last_refusal(candidates, answers, candidates.len() as int),
        ),
{
    lemma_search_from(candidates, answers, 0, candidates.len() as int);
}

/// Discovery by bare connections: the first candidate that accepts one.
pub fn discover_daemon(candidates: &Vec<DaemonAddr>, alive: &Vec<bool>) -> (r: Result<
    DaemonAddr,
    String,
>)
    requires
        alive@.len() == candidates@.len(),
    ensures
        match r {
            Ok(a) => exists|i: int|
                0 <= i < candidates@.len() && #[trigger] alive@[i] && a@ == candidates@[i]@ && (
                forall|j: int| 0 <= j < i ==> !alive@[j]),
            Err(e) => (forall|i: int| 0 <= i < candidates@.len() ==> !#[trigger] alive@[i]) && e@
                == nothing_found(),
        },
{
    let mut i: usize = 0;
    while i < candidates.len()
        invariant
            alive@.len() == candidates@.len(),
            i <= candidates@.len(),
            forall|j: int| 0 <= j < i ==> !alive@[j],
        decreases candidates@.len() - i,
    {
        if alive[i] {
            return Ok(candidates[i].copied());
        }
        i = i + 1;
    }
    Err(owned("没有发现可达的 kimi daemon（server/instances 与 server/lock 均无效）"))
}

/// Waiting for a started server: the round that begins, and what went wrong in
/// the one before.
pub struct Waiting {
    pub port: u16,
    pub attempts: u32,
    pub attempt: u32,
    pub last: String,
}

/// What a wait says.
#[verifier::ext_equal]
pub struct WaitingView {
    pub port: u16,
    pub attempts: u32,
    pub attempt: int,
    pub last: Seq<char>,
}

impl Waiting {
    pub open spec fn view(self) -> WaitingView {
        WaitingView {
            port: self.port,
            attempts: self.attempts,
            attempt: self.attempt as int,
            last: self.last@,
        }
    }
}

/// Where a wait goes.
pub enum WaitStep {
    /// Look whether the server accepts connections.
    Connect(Waiting),
    /// Look whether the child has exited.
    CheckChild(Waiting),
    /// Wait a moment, then begin the next round.
    Pause(Waiting),
    Ready(Launch),
    Failed(String),
}

/// What a wait step says.
#[verifier::ext_equal]
pub enum WaitStepView {
    Connect(WaitingView),
    CheckChild(WaitingView),
    Pause(WaitingView),
    Ready(LaunchView),
    Failed(Seq<char>),
}

impl WaitStep {
    pub open spec fn view(self) -> WaitStepView {
        match self {
            WaitStep::Connect(w) => WaitStepView::Connect(w@),
            WaitStep::CheckChild(w) => WaitStepView::CheckChild(w@),
            WaitStep::Pause(w) => WaitStepView::Pause(w@),
            WaitStep::Ready(l) => WaitStepView::Ready(l@),
            WaitStep::Failed(e) => WaitStepView::Failed(e@),
        }
    }
}

/// The message of a wait that ran out of rounds.
pub open spec fn wait_timeout(last: Seq<char>) -> Seq<char> {
    "等待服务就绪超时："@ + last
}

/// The begin of a wait.
pub open spec fn wait_start(port: u16, attempts: u32) -> WaitStepView {
    if attempts > 0 {
        WaitStepView::Connect(WaitingView { port, attempts, attempt: 0, last: seq![] })
    } else {
        WaitStepView::Failed(wait_timeout(seq![]))
    }
}

/// Begins a wait of at most `attempts` rounds for the server on `port`.
pub fn wait_attach(port: u16, attempts: u32) -> (r: WaitStep)
    ensures
        r@ == wait_start(port, attempts),
{
    if attempts > 0 {
        WaitStep::Connect(Waiting { port, attempts, attempt: 0, last: String::new() })
    } else {
        proof {
            assert("等待服务就绪超时："@ + Seq::<char>::empty() == "等待服务就绪超时："@);
        }
        WaitStep::Failed(owned("等待服务就绪超时："))
    }
}

/// Where a wait goes once the port was tried: `None` where it accepts no
/// connection, else the launch there.
pub open spec fn wait_connected(
    w: WaitingView,
    launch: Option<Result<LaunchView, Seq<char>>>,
) -> WaitStepView {
    match launch {
        Some(Ok(l)) => WaitStepView::Ready(l),
        Some(Err(e)) => WaitStepView::CheckChild(WaitingView { last: e, ..w }),
        None => WaitStepView::CheckChild(
            WaitingView {
                last: "等待 "@ + host_port(AddrView { host: "127.0.0.1"@, port: w.port })
                    + " 接受连接"@,
                ..w
            },
        ),
    }
}

/// The view of an attempt to connect.
pub open spec fn attempt_view(launch: Option<Result<Launch, String>>) -> Option<
    Result<LaunchView, Seq<char>>,
> {
    match launch {
        Some(r) => Some(launch_view(r)),
        None => None,
    }
}

/// Goes on with a wait once the port was tried.
pub fn wait_after_connect(w: Waiting, launch: Option<Result<Launch, String>>) -> (r: WaitStep)
    ensures
        r@ == wait_connected(w@, attempt_view(launch)),
{
    match launch {
        Some(Ok(l)) => WaitStep::Ready(l),
        Some(Err(e)) => WaitStep::CheckChild(Waiting { last: e, ..w }),
        None => {
            let addr = DaemonAddr { host: owned("127.0.0.1"), port: w.port };
            let mut last = owned("等待 ");
            last.append(host_port_text(&addr).as_str());
            last.append(" 接受连接");
            WaitStep::CheckChild(Waiting { last, ..w })
        },
    }
}

/// The message of a server that exited early, with the end of what it logged.
pub open spec fn early_exit(status: Seq<char>, log: Seq<char>) -> Seq<char> {
    "`kimi web` 提前退出（"@ + status + "）："@ + trimmed(suffix(log, 600))
}

/// Where a wait goes once the child was checked: `exited` is its exit status
/// and log.
pub open spec fn wait_checked(w: WaitingView, exited: Option<(Seq<char>, Seq<char>)>) -> WaitStepView {
    match exited {
        Some((status, log)) => WaitStepView::Failed(early_exit(status, log)),
        None => if w.attempt + 1 < w.attempts {
            WaitStepView::Pause(WaitingView { attempt: w.attempt + 1, ..w })
        } else {
            WaitStepView::Failed(wait_timeout(w.last))
        },
    }
}

/// The view of an exit.
pub open spec fn exit_view(exited: Option<(String, String)>) -> Option<(Seq<char>, Seq<char>)> {
    match exited {
        Some((status, log)) => Some((status@, log@)),
        None => None,
    }
}

/// Goes on with a wait once the child was checked.
pub fn wait_after_check(w: Waiting, exited: Option<(String, String)>) -> (r: WaitStep)
    requires
        w.attempt < w.attempts,
    ensures
        r@ == wait_checked(w@, exit_view(exited)),
{
    match exited {
        Some((status, log)) => {
            let mut e = owned("`kimi web` 提前退出（");
            e.append(status.as_str());
            e.append("）：");
            e.append(trim(tail_chars(log.as_str(), 600).as_str()).as_str());
            WaitStep::Failed(e)
        },
        None => if w.attempt + 1 < w.attempts {
            WaitStep::Pause(Waiting { attempt: w.attempt + 1, ..w })
        } else {
            let mut e = owned("等待服务就绪超时：");
            e.append(w.last.as_str());
            WaitStep::Failed(e)
        },
    }
}

/// What one round of a wait meets.
pub struct Round {
    pub launch: Option<Result<LaunchView, Seq<char>>>,
    pub exited: Option<(Seq<char>, Seq<char>)>,
}

/// Where a wait ends, for what its rounds meet.
pub open spec fn wait_end(step: WaitStepView, rounds: Seq<Round>, fuel: nat) -> WaitStepView
    decreases fuel,
{
    if fuel == 0 {
        step
    } else {
        match step {
            WaitStepView::Connect(w) => wait_end(
                wait_connected(w, rounds[w.attempt].launch),
                rounds,
                (fuel - 1) as nat,
            ),
            WaitStepView::CheckChild(w) => wait_end(
                wait_checked(w, rounds[w.attempt].exited),
                rounds,
                (fuel - 1) as nat,
            ),
            WaitStepView::Pause(w) => wait_end(WaitStepView::Connect(w), rounds, (fuel - 1) as nat),
            _ => step,
        }
    }
}

/// How often a wait pauses, for what its rounds meet.
pub open spec fn wait_pauses(step: WaitStepView, rounds: Seq<Round>, fuel: nat) -> int
    decreases fuel,
{
    if fuel == 0 {
        0
    } else {
        match step {
            WaitStepView::Connect(w) => wait_pauses(
                wait_connected(w, rounds[w.attempt].launch),
                rounds,
                (fuel - 1) as nat,
            ),
            WaitStepView::CheckChild(w) => wait_pauses(
                wait_checked(w, rounds[w.attempt].exited),
                rounds,
                (fuel - 1) as nat,
            ),
            WaitStepView::Pause(w) => 1 + wait_pauses(
                WaitStepView::Connect(w),
                rounds,
                (fuel - 1) as nat,
            ),
            _ => 0,
        }
    }
}

proof fn lemma_wait_pauses(step: WaitStepView, rounds: Seq<Round>, fuel: nat)
    requires
        match step {
            WaitStepView::Connect(w) => w.attempt < w.attempts,
            WaitStepView::CheckChild(w) => w.attempt < w.attempts,
            WaitStepView::Pause(w) => w.attempt < w.attempts,
            _ => true,
        },
    ensures
        wait_pauses(step, rounds, fuel) <= match step {
            WaitStepView::Connect(w) => w.attempts - w.attempt - 1,
            WaitStepView::CheckChild(w) => w.attempts - w.attempt - 1,
            WaitStepView::Pause(w) => w.attempts - w.attempt,
            _ => 0,
        },
    decreases fuel,
{
    if fuel > 0 {
        match step {
            WaitStepView::Connect(w) => {
                lemma_wait_pauses(
                    wait_connected(w, rounds[w.attempt].launch),
                    rounds,
                    (fuel - 1) as nat,
                );
            },
            WaitStepView::CheckChild(w) => {
                lemma_wait_pauses(
                    wait_checked(w, rounds[w.attempt].exited),
                    rounds,
                    (fuel - 1) as nat,
                );
            },
            WaitStepView::Pause(w) => {
                lemma_wait_pauses(WaitStepView::Connect(w), rounds, (fuel - 1) as nat);
            },
            _ => {},
        }
    }
}

/// A wait is bounded: it pauses fewer times than it has rounds, whatever the
/// rounds meet and however long it is run.
pub proof fn wait_is_bounded(port: u16, attempts: u32, rounds: Seq<Round>, fuel: nat)
    ensures
        attempts > 0 ==> wait_pauses(wait_start(port, attempts), rounds, fuel) < attempts,
        attempts == 0 ==> wait_pauses(wait_start(port, attempts), rounds, fuel) == 0,
{
    lemma_wait_pauses(wait_start(port, attempts), rounds, fuel);
}

/// A round in which the wait goes on: the server is not ready, the child runs.
pub open spec fn goes_on(r: Round) -> bool {
    !(r.launch matches Some(Ok(_))) && r.exited is None
}

/// What is remembered of a round in which the wait goes on.
pub open spec fn round_error(port: u16, r: Round) -> Seq<char> {
    match r.launch {
        Some(Err(e)) => e,
        _ => "等待 "@ + host_port(AddrView { host: "127.0.0.1"@, port }) + " 接受连接"@,
    }
}

proof fn lemma_wait_from(w: WaitingView, rounds: Seq<Round>, k: int, fuel: nat)
    requires
        0 <= w.attempt <= k <= w.attempts,
        w.attempt < w.attempts,
        rounds.len() == w.attempts,
        forall|i: int| w.attempt <= i < k ==> goes_on(#[trigger] rounds[i]),
        k < w.attempts ==> !goes_on(rounds[k]),
        fuel >= 3 * (w.attempts - w.attempt),
    ensures
        wait_end(WaitStepView::Connect(w), rounds, fuel) == if k < w.attempts {
            match (rounds[k].launch, rounds[k].exited) {
                (Some(Ok(l)), _) => WaitStepView::Ready(l),
                (_, Some((status, log))) => WaitStepView::Failed(early_exit(status, log)),
                _ => arbitrary(),
            }
        } else {
            WaitStepView::Failed(wait_timeout(round_error(w.port, rounds[k - 1])))
        },
    decreases w.attempts - w.attempt,
{
    reveal_with_fuel(wait_end, 4);
    let r = rounds[w.attempt];
    if w.attempt < k {
        assert(goes_on(rounds[w.attempt]));
        let after = WaitingView { last: round_error(w.port, r), ..w };
        assert(wait_connected(w, r.launch) == WaitStepView::CheckChild(after));
        if w.attempt + 1 < w.attempts {
            let next = WaitingView { attempt: w.attempt + 1, ..after };
            lemma_wait_from(next, rounds, k, (fuel - 3) as nat);
        }
    }
}

/// A wait ends with the first round in which the server is ready or the child
/// has exited, whichever comes first; where neither happens, after its last
/// round, naming what that round met.
pub proof fn wait_ends_with_the_first_decisive_round(
    port: u16,
    attempts: u32,
    rounds: Seq<Round>,
    k: int,
)
    requires
        0 < attempts,
        rounds.len() == attempts,
        0 <= k <= attempts,
        forall|i: int| 0 <= i < k ==> goes_on(#[trigger] rounds[i]),
        k < attempts ==> !goes_on(rounds[k]),
    ensures
        k < attempts ==> (rounds[k].launch matches Some(Ok(l)) ==> wait_end(
            wait_start(port, attempts),
            rounds,
            (3 * attempts) as nat,
        ) == WaitStepView::Ready(l)),
        k < attempts && !(rounds[k].launch matches Some(Ok(_))) ==> (rounds[k].exited matches Some(x)
            ==> wait_end(wait_start(port, attempts), rounds, (3 * attempts) as nat)
            == WaitStepView::Failed(early_exit(x.0, x.1))),
        k == attempts ==> wait_end(wait_start(port, attempts), rounds, (3 * attempts) as nat)
            == WaitStepView::Failed(wait_timeout(round_error(port, rounds[k - 1]))),
{
    lemma_wait_from(
        WaitingView { port, attempts, attempt: 0, last: seq![] },
        rounds,
        k,
        (3 * attempts) as nat,
    );
}

/// Where no candidate answers, the failure names the last one that accepted a
/// connection, by its host and port, with what it said; where none accepted one it
/// says that no daemon was found.
pub proof fn failed_search_names_the_last_refusal(
    candidates: Seq<AddrView>,
    answers: Seq<ProbeView>,
    k: int,
    e: Seq<char>,
)
    requires
        answers.len() == candidates.len(),
        -1 <= k < candidates.len(),
        k >= 0 ==> answers[k] == ProbeView::Refused(e),
        forall|i: int| 0 <= i < candidates.len() ==> answers[i] != ProbeView::Answered,
        forall|i: int| k < i < candidates.len() ==> #[trigger] answers[i] == ProbeView::Closed,
    ensures
        search_end(search_start(candidates), answers) == FoundView::Nothing(
            if k >= 0 {
                "daemon "@ + (candidates[k].host + ":"@ + decimal(candidates[k].port as nat))
                    + " 无响应："@ + e
            } else {
                "没有发现可达的 kimi daemon（server/instances 与 server/lock 均无效）"@
            },
        ),
{
    unanswered_search_fails(candidates, answers);
    lemma_last_refusal(candidates, answers, k, e, candidates.len() as int);
}

proof fn lemma_last_refusal(
    candidates: Seq<AddrView>,
    answers: Seq<ProbeView>,
    k: int,
    e: Seq<char>,
    n: int,
)
    requires
        answers.len() == candidates.len(),
        -1 <= k < n <= candidates.len() || (k == -1 && n == 0),
        k >= 0 ==> answers[k] == ProbeView::Refused(e),
        forall|i: int| k < i < n ==> #[trigger] answers[i] == ProbeView::Closed,
    ensures
        last_refusal(candidates, answers, n) == if k >= 0 {
            refusal(candidates[k], e)
        } else {
            nothing_found()
        },
    decreases n,
{
    if n > k + 1 && n > 0 {
        assert(answers[n - 1] == ProbeView::Closed);
        lemma_last_refusal(candidates, answers, k, e, n - 1);
    }
}

/// An early exit is reported with the child's exit status and an end of its log,
/// of six hundred characters at most and without white space around it.
pub proof fn early_exits_show_the_end_of_the_log(status: Seq<char>, log: Seq<char>)
    ensures
        exists|shown: Seq<char>|
            early_exit(status, log) == #[trigger] ("`kimi web` 提前退出（"@ + status + "）："@ + shown)
                && shown.is_suffix_of(trim_end(log)) && shown.len() <= 600 && (shown.len() > 0
                ==> !is_space(shown[0]) && !is_space(shown.last())) && is_core_of(
                shown,
                if log.len() <= 600 {
                    log
                } else {
                    log.skip(log.len() - 600)
                },
            ),
{
    let kept = suffix(log, 600);
    let shown = trimmed(kept);
    trimming_takes_outer_white_space(kept);
    lemma_trim_start_is_end(kept);
    lemma_trim_end_keeps_ends(trim_start(kept), kept);
    assert(kept == log.subrange(log.len() - kept.len(), log.len() as int));
    lemma_trim_end_keeps_ends(kept, log);
    assert(shown == trim_end(log).subrange(
        trim_end(log).len() - shown.len(),
        trim_end(log).len() as int,
    ));
    assert(is_core_of(shown, kept));
    assert(early_exit(status, log) == "`kimi web` 提前退出（"@ + status + "）："@ + shown);
}

/// A wait that runs out says what its last round met: the launch's own error, or
/// that the port on this machine accepted no connection.
pub proof fn timed_out_waits_say_why(port: u16, r: Round, e: Seq<char>)
    ensures
        wait_timeout(e) == "等待服务就绪超时："@ + e,
        r.launch == Some(Err::<LaunchView, Seq<char>>(e)) ==> round_error(port, r) == e,
        r.launch is None ==> round_error(port, r) == "等待 "@ + ("127.0.0.1"@ + ":"@ + decimal(
            port as nat,
        )) + " 接受连接"@,
{
}

/// A started server is waited for fifteen seconds, all pauses taken together, in
/// rounds of less than half a second.
pub proof fn wait_lasts_fifteen_seconds()
    ensures
        WAIT_ROUNDS * WAIT_PAUSE_MS == 15000,
        WAIT_PAUSE_MS == 300,
{
}

} // verus!

//! Booting: attach to a running server, or start one and wait for it.
//!
//! The work on processes and sockets is done outside. Each decision between two
//! pieces of work is a step here: a value says what to do next, and what came of
//! it gives the next step.
use vstd::prelude::*;

use crate::json::{no_members, Json, JsonView};
use crate::text::{decimal, joined, owned};
use crate::version::{
    differ_first_at, dotted, dotted_versions_are_their_numbers, first_difference_decides, older_than,
    version_key, version_older, MIN_KIMI_VERSION,
};
use crate::web::{opt_text, Launch, LaunchView};

verus! {

broadcast use vstd::string::group_string_axioms;

/// Structured boot failure; the placeholder page renders it as guided steps.
#[allow(inconsistent_fields)]
pub enum BootError {
    /// kimi CLI not found on PATH or in well-known install spots.
    KimiMissing,
    /// kimi found but older than `min`.
    KimiTooOld { version: String, min: String },
    /// No reachable server came up; `detail` says what was tried.
    DaemonUnreachable { detail: String, version: Option<String> },
}

/// What a boot failure says.
#[verifier::ext_equal]
pub enum BootErrorView {
    KimiMissing,
    KimiTooOld(Seq<char>, Seq<char>),
    DaemonUnreachable(Seq<char>, Option<Seq<char>>),
}

impl BootError {
    pub open spec fn view(self) -> BootErrorView {
        match self {
            BootError::KimiMissing => BootErrorView::KimiMissing,
            BootError::KimiTooOld { version, min } => BootErrorView::KimiTooOld(version@, min@),
            BootError::DaemonUnreachable { detail, version } => BootErrorView::DaemonUnreachable(
                detail@,
                opt_text(version),
            ),
        }
    }
}

/// What the placeholder page is told of a boot failure.
pub open spec fn error_page(e: BootErrorView) -> JsonView {
    match e {
        BootErrorView::KimiMissing => no_members().with(
            "kind"@,
            JsonView::Text("kimi_missing"@),
        ),
        BootErrorView::KimiTooOld(version, min) => no_members().with(
            "kind"@,
            JsonView::Text("kimi_too_old"@),
        ).with("version"@, JsonView::Text(version)).with("min"@, JsonView::Text(min)),
        BootErrorView::DaemonUnreachable(detail, version) => no_members().with(
            "kind"@,
            JsonView::Text("daemon_unreachable"@),
        ).with("detail"@, JsonView::Text(detail)).with(
            "version"@,
            match version {
                Some(v) => JsonView::Text(v),
                None => JsonView::Null,
            },
        ),
    }
}

/// What the placeholder page is told of a boot failure.
pub fn boot_error_doc(e: &BootError) -> (r: Json)
    ensures
        r@ == error_page(e@),
{
    match e {
        BootError::KimiMissing => Json::object().with("kind", Json::text("kimi_missing")),
        BootError::KimiTooOld { version, min } => Json::object().with(
            "kind",
            Json::text("kimi_too_old"),
        ).with("version", Json::text(version.as_str())).with("min", Json::text(min.as_str())),
        BootError::DaemonUnreachable { detail, version } => {
            let known = match version {
                Some(v) => Json::text(v.as_str()),
                None => Json::Null,
            };
            Json::object().with("kind", Json::text("daemon_unreachable")).with(
                "detail",
                Json::text(detail.as_str()),
            ).with("version", known)
        },
    }
}

/// What the boot does next.
pub enum BootStep {
    /// Look for the CLI.
    FindCli,
    /// Ask the CLI for its version.
    ReadVersion,
    /// Attach to a running server that is not older than the CLI.
    Attach { version: Option<String> },
    /// Start a server.
    Spawn { version: Option<String> },
    /// Wait for the started server.
    Wait { version: Option<String> },
    /// Keep the started server until the app exits.
    Keep { launch: Launch, version: Option<String> },
    /// Ask the stale daemons to exit, with the launch's token.
    Sweep { launch: Launch, version: Option<String> },
    /// Kill the started server.
    Discard { detail: String, version: Option<String> },
    /// Done: a server is there.
    Ready { launch: Launch },
    /// Done: there is none.
    Failed { error: BootError },
}

/// What a boot step says.
#[verifier::ext_equal]
pub enum StepView {
    FindCli,
    ReadVersion,
    Attach(Option<Seq<char>>),
    Spawn(Option<Seq<char>>),
    Wait(Option<Seq<char>>),
    Keep(LaunchView, Option<Seq<char>>),
    Sweep(LaunchView, Option<Seq<char>>),
    Discard(Seq<char>, Option<Seq<char>>),
    Ready(LaunchView),
    Failed(BootErrorView),
}

impl BootStep {
    pub open spec fn view(self) -> StepView {
        match self {
            BootStep::FindCli => StepView::FindCli,
            BootStep::ReadVersion => StepView::ReadVersion,
            BootStep::Attach { version } => StepView::Attach(opt_text(version)),
            BootStep::Spawn { version } => StepView::Spawn(opt_text(version)),
            BootStep::Wait { version } => StepView::Wait(opt_text(version)),
            BootStep::Keep { launch, version } => StepView::Keep(launch@, opt_text(version)),
            BootStep::Sweep { launch, version } => StepView::Sweep(launch@, opt_text(version)),
            BootStep::Discard { detail, version } => StepView::Discard(detail@, opt_text(version)),
            BootStep::Ready { launch } => StepView::Ready(launch@),
            BootStep::Failed { error } => StepView::Failed(error@),
        }
    }
}

/// What came of a boot step.
pub enum BootEvent {
    /// Whether there is a CLI.
    Cli(bool),
    /// The CLI's version, if it prints one.
    Version(Option<String>),
    /// The server attached to, if there is one.
    Attached(Option<Launch>),
    /// The start of a server, or why it failed.
    Spawned(Result<(), String>),
    /// The started server, or why it did not come up.
    Waited(Result<Launch, String>),
    /// Done.
    Done,
}

/// What a boot event says.
#[verifier::ext_equal]
pub enum EventView {
    Cli(bool),
    Version(Option<Seq<char>>),
    Attached(Option<LaunchView>),
    Spawned(Result<(), Seq<char>>),
    Waited(Result<LaunchView, Seq<char>>),
    Done,
}

impl BootEvent {
    pub open spec fn view(self) -> EventView {
        match self {
            BootEvent::Cli(found) => EventView::Cli(found),
            BootEvent::Version(v) => EventView::Version(opt_text(v)),
            BootEvent::Attached(Some(l)) => EventView::Attached(Some(l@)),
            BootEvent::Attached(None) => EventView::Attached(None),
            BootEvent::Spawned(Ok(_)) => EventView::Spawned(Ok(())),
            BootEvent::Spawned(Err(e)) => EventView::Spawned(Err(e@)),
            BootEvent::Waited(r) => EventView::Waited(crate::web::launch_view(r)),
            BootEvent::Done => EventView::Done,
        }
    }
}

/// The CLI is known to be older than what the bundle is paired with.
pub open spec fn too_old(version: Option<Seq<char>>) -> bool {
    match version {
        Some(v) => older_than(v, MIN_KIMI_VERSION@),
        None => false,
    }
}

/// The step after `step`, for what came of it. An event that does not answer
/// the step changes nothing.
pub open spec fn step_after(step: StepView, event: EventView) -> StepView {
    match (step, event) {
        (StepView::FindCli, EventView::Cli(found)) => if found {
            StepView::ReadVersion
        } else {
            StepView::Failed(BootErrorView::KimiMissing)
        },
        (StepView::ReadVersion, EventView::Version(v)) => if too_old(v) {
            StepView::Failed(BootErrorView::KimiTooOld(v->0, MIN_KIMI_VERSION@))
        } else {
            StepView::Attach(v)
        },
        (StepView::Attach(v), EventView::Attached(l)) => match l {
            Some(launch) => StepView::Sweep(launch, v),
            None => StepView::Spawn(v),
        },
        (StepView::Spawn(v), EventView::Spawned(r)) => match r {
            Ok(_) => StepView::Wait(v),
            Err(e) => StepView::Failed(
                BootErrorView::DaemonUnreachable("拉起 `kimi web --no-open` 失败："@ + e, v),
            ),
        },
        (StepView::Wait(v), EventView::Waited(r)) => match r {
            Ok(launch) => StepView::Keep(launch, v),
            Err(e) => StepView::Discard(e, v),
        },
        (StepView::Keep(launch, v), EventView::Done) => StepView::Sweep(launch, v),
        (StepView::Sweep(launch, _), EventView::Done) => StepView::Ready(launch),
        (StepView::Discard(detail, v), EventView::Done) => StepView::Failed(
            BootErrorView::DaemonUnreachable(detail, v),
        ),
        _ => step,
    }
}

/// Takes the next step of the boot.
pub fn boot_next(step: BootStep, event: BootEvent) -> (r: BootStep)
    ensures
        r@ == step_after(step@, event@),
{
    match (step, event) {
        (BootStep::FindCli, BootEvent::Cli(found)) => if found {
            BootStep::ReadVersion
        } else {
            BootStep::Failed { error: BootError::KimiMissing }
        },
        (BootStep::ReadVersion, BootEvent::Version(v)) => {
            match v {
                Some(version) => if version_older(version.as_str(), MIN_KIMI_VERSION) {
                    BootStep::Failed {
                        error: BootError::KimiTooOld { version, min: owned(MIN_KIMI_VERSION) },
                    }
                } else {
                    BootStep::Attach { version: Some(version) }
                },
                None => BootStep::Attach { version: None },
            }
        },
        (BootStep::Attach { version }, BootEvent::Attached(l)) => match l {
            Some(launch) => BootStep::Sweep { launch, version },
            None => BootStep::Spawn { version },
        },
        (BootStep::Spawn { version }, BootEvent::Spawned(r)) => match r {
            Ok(_) => BootStep::Wait { version },
            Err(e) => {
                let mut detail = owned("拉起 `kimi web --no-open` 失败：");
                detail.append(e.as_str());
                BootStep::Failed { error: BootError::DaemonUnreachable { detail, version } }
            },
        },
        (BootStep::Wait { version }, BootEvent::Waited(r)) => match r {
            Ok(launch) => BootStep::Keep { launch, version },
            Err(detail) => BootStep::Discard { detail, version },
        },
        (BootStep::Keep { launch, version }, BootEvent::Done) => BootStep::Sweep {
            launch,
            version,
        },
        (BootStep::Sweep { launch, version: _ }, BootEvent::Done) => BootStep::Ready { launch },
        (BootStep::Discard { detail, version }, BootEvent::Done) => BootStep::Failed {
            error: BootError::DaemonUnreachable { detail, version },
        },
        (step, _) => step,
    }
}

/// What the machine answers to every step that a boot can take.
pub struct World {
    pub cli: bool,
    pub version: Option<Seq<char>>,
    pub attached: Option<LaunchView>,
    pub spawned: Result<(), Seq<char>>,
    pub waited: Result<LaunchView, Seq<char>>,
}

/// The machine's answer to a step.
pub open spec fn answer_to(step: StepView, w: World) -> EventView {
    match step {
        StepView::FindCli => EventView::Cli(w.cli),
        StepView::ReadVersion => EventView::Version(w.version),
        StepView::Attach(_) => EventView::Attached(w.attached),
        StepView::Spawn(_) => EventView::Spawned(w.spawned),
        StepView::Wait(_) => EventView::Waited(w.waited),
        _ => EventView::Done,
    }
}

/// The steps of a boot from `step` on, the last one included.
pub open spec fn boot_run(step: StepView, w: World, fuel: nat) -> Seq<StepView>
    decreases fuel,
{
    if fuel == 0 || step is Ready || step is Failed {
        seq![step]
    } else {
        seq![step] + boot_run(step_after(step, answer_to(step, w)), w, (fuel - 1) as nat)
    }
}

/// The steps of a whole boot.
pub open spec fn boot_steps(w: World) -> Seq<StepView> {
    boot_run(StepView::FindCli, w, 8)
}

/// How a boot ends.
pub open spec fn boot_result(w: World) -> Result<LaunchView, BootErrorView> {
    if !w.cli {
        Err(BootErrorView::KimiMissing)
    } else if too_old(w.version) {
        Err(BootErrorView::KimiTooOld(w.version->0, MIN_KIMI_VERSION@))
    } else {
        match w.attached {
            Some(launch) => Ok(launch),
            None => match w.spawned {
                Err(e) => Err(
                    BootErrorView::DaemonUnreachable(
                        "拉起 `kimi web --no-open` 失败："@ + e,
                        w.version,
                    ),
                ),
                Ok(_) => match w.waited {
                    Ok(launch) => Ok(launch),
                    Err(e) => Err(BootErrorView::DaemonUnreachable(e, w.version)),
                },
            },
        }
    }
}

proof fn lemma_boot_steps(w: World)
    ensures
        boot_steps(w) == if !w.cli {
            seq![StepView::FindCli, StepView::Failed(BootErrorView::KimiMissing)]
        } else if too_old(w.version) {
            seq![
                StepView::FindCli,
                StepView::ReadVersion,
                StepView::Failed(BootErrorView::KimiTooOld(w.version->0, MIN_KIMI_VERSION@)),
            ]
        } else {
            seq![StepView::FindCli, StepView::ReadVersion, StepView::Attach(w.version)]
                + match w.attached {
                Some(launch) => seq![StepView::Sweep(launch, w.version), StepView::Ready(launch)],
                None => match w.spawned {
                    Err(e) => seq![
                        StepView::Spawn(w.version),
                        StepView::Failed(
                            BootErrorView::DaemonUnreachable(
                                "拉起 `kimi web --no-open` 失败："@ + e,
                                w.version,
                            ),
                        ),
                    ],
                    Ok(_) => seq![StepView::Spawn(w.version), StepView::Wait(w.version)]
                        + match w.waited {
                        Ok(launch) => seq![
                            StepView::Keep(launch, w.version),
                            StepView::Sweep(launch, w.version),
                            StepView::Ready(launch),
                        ],
                        Err(e) => seq![
                            StepView::Discard(e, w.version),
                            StepView::Failed(BootErrorView::DaemonUnreachable(e, w.version)),
                        ],
                    },
                },
            }
        },
{
    reveal_with_fuel(boot_run, 9);
}

/// Every boot ends, and ends as its outcomes say.
pub proof fn boot_ends_with_its_result(w: World)
    ensures
        boot_steps(w).last() == match boot_result(w) {
            Ok(launch) => StepView::Ready(launch),
            Err(e) => StepView::Failed(e),
        },
{
    lemma_boot_steps(w);
}

/// An outdated CLI is neither attached with nor started: the boot ends right
/// after its version is read.
pub proof fn outdated_cli_touches_no_server(w: World, i: int)
    requires
        w.cli,
        too_old(w.version),
        0 <= i < boot_steps(w).len(),
    ensures
        boot_steps(w)[i] is FindCli || boot_steps(w)[i] is ReadVersion || boot_steps(w)[i]
            is Failed,
{
    lemma_boot_steps(w);
}

/// Stale daemons are asked to exit only once a good server is secured, and then
/// they are: right before the boot succeeds, with the secured server's token.
pub proof fn stale_daemons_go_once_a_server_is_secured(w: World, i: int)
    requires
        0 <= i < boot_steps(w).len(),
    ensures
        boot_steps(w)[i] matches StepView::Sweep(launch, v) ==> boot_result(w) == Ok::<
            LaunchView,
            BootErrorView,
        >(launch) && v == w.version && i == boot_steps(w).len() - 2,
        boot_result(w) matches Ok(launch) ==> boot_steps(w)[boot_steps(w).len() - 2]
            == StepView::Sweep(launch, w.version),
{
    lemma_boot_steps(w);
}

/// A server that the boot started is kept where the boot succeeds with it, and
/// killed where it does not; one that was there already is neither.
pub proof fn started_server_is_kept_or_killed(w: World)
    requires
        w.cli,
        !too_old(w.version),
    ensures
        w.attached is None && w.spawned is Ok ==> boot_steps(w).len() >= 6 && match w.waited {
            Ok(launch) => boot_steps(w)[5] == StepView::Keep(launch, w.version),
            Err(e) => boot_steps(w)[5] == StepView::Discard(e, w.version),
        },
        w.attached is Some || w.spawned is Err ==> forall|i: int|
            0 <= i < boot_steps(w).len() ==> !((#[trigger] boot_steps(w)[i]) is Keep)
                && !(boot_steps(w)[i] is Discard),
{
    lemma_boot_steps(w);
}

/// A running server is preferred: none is started where one can be attached to.
pub proof fn attaching_starts_no_server(w: World, i: int)
    requires
        w.attached is Some,
        0 <= i < boot_steps(w).len(),
    ensures
        !(boot_steps(w)[i] is Spawn),
{
    lemma_boot_steps(w);
}

/// A boot ends as what it meets demands: without a CLI, or with one that is too
/// old, it fails before anything is touched; else it is ready with the server that
/// it attached to, or with the one that it started once that came up; and it fails
/// with the reason where neither is to be had.
pub proof fn boots_end_as_met(w: World)
    ensures
        !w.cli ==> boot_steps(w).last() == StepView::Failed(BootErrorView::KimiMissing),
        w.cli && w.version is Some && older_than(w.version->0, "0.39.1"@) ==> boot_steps(w).last()
            == StepView::Failed(BootErrorView::KimiTooOld(w.version->0, "0.39.1"@)),
        w.cli && (w.version is None || !older_than(w.version->0, "0.39.1"@)) ==> match w.attached {
            Some(l) => boot_steps(w).last() == StepView::Ready(l),
            None => match w.spawned {
                Err(e) => boot_steps(w).last() == StepView::Failed(
                    BootErrorView::DaemonUnreachable(
                        "拉起 `kimi web --no-open` 失败："@ + e,
                        w.version,
                    ),
                ),
                Ok(_) => match w.waited {
                    Ok(l) => boot_steps(w).last() == StepView::Ready(l),
                    Err(e) => boot_steps(w).last() == StepView::Failed(
                        BootErrorView::DaemonUnreachable(e, w.version),
                    ),
                },
            },
        },
{
    lemma_boot_steps(w);
}

/// Where none can be attached to, exactly one server is started, right after the
/// attempt to attach, and it is waited for.
pub proof fn one_server_is_started(w: World)
    requires
        w.cli,
        w.version is None || !older_than(w.version->0, "0.39.1"@),
        w.attached is None,
    ensures
        boot_steps(w).len() >= 5,
        boot_steps(w)[2] == StepView::Attach(w.version),
        boot_steps(w)[3] == StepView::Spawn(w.version),
        w.spawned is Ok ==> boot_steps(w)[4] == StepView::Wait(w.version),
        forall|i: int|
            0 <= i < boot_steps(w).len() && i != 3 ==> !((#[trigger] boot_steps(w)[i]) is Spawn),
{
    lemma_boot_steps(w);
}

proof fn lemma_min_version()
    ensures
        version_key(MIN_KIMI_VERSION@) == seq![0nat, 39, 1],
{
    let ns = seq![0nat, 39, 1];
    let parts = ns.map_values(|n: nat| decimal(n));
    dotted_versions_are_their_numbers(ns);
    reveal_strlit("0.39.1");
    reveal_with_fuel(decimal, 3);
    reveal_with_fuel(joined, 4);
    assert(39nat / 10 == 3 && 39nat % 10 == 9);
    assert(parts[0] =~= seq!['0']);
    assert(parts[1] =~= seq!['3', '9']);
    assert(parts[2] =~= seq!['1']);
    assert(parts.skip(1)[0] == parts[1]);
    assert(parts.skip(1).skip(1)[0] == parts[2]);
    assert(dotted(ns) =~= "0.39.1"@);
}

/// A CLI is too old where its version is known and is before 0.39.1 by the first
/// number in which they differ.
pub proof fn clis_before_the_minimum_are_too_old(ns: Seq<nat>)
    requires
        ns.len() > 0,
        forall|i: int| 0 <= i < ns.len() ==> #[trigger] ns[i] <= u32::MAX,
    ensures
        too_old(Some(dotted(ns))) <==> exists|i: int| differ_first_at(ns, seq![0nat, 39, 1], i),
        !too_old(None),
{
    lemma_min_version();
    dotted_versions_are_their_numbers(ns);
    first_difference_decides(ns, seq![0nat, 39, 1]);
}

/// The placeholder page is told the kind of a failure by its word, and with it the
/// versions or the detail that belong to it.
pub proof fn page_is_told_the_failure(
    version: Seq<char>,
    min: Seq<char>,
    detail: Seq<char>,
    known: Option<Seq<char>>,
)
    ensures
        error_page(BootErrorView::KimiMissing).member("kind"@) == Some(
            JsonView::Text("kimi_missing"@),
        ),
        error_page(BootErrorView::KimiTooOld(version, min)).member("kind"@) == Some(
            JsonView::Text("kimi_too_old"@),
        ),
        error_page(BootErrorView::KimiTooOld(version, min)).member("version"@) == Some(
            JsonView::Text(version),
        ),
        error_page(BootErrorView::KimiTooOld(version, min)).member("min"@) == Some(JsonView::Text(min)),
        error_page(BootErrorView::DaemonUnreachable(detail, known)).member("kind"@) == Some(
            JsonView::Text("daemon_unreachable"@),
        ),
        error_page(BootErrorView::DaemonUnreachable(detail, known)).member("detail"@) == Some(
            JsonView::Text(detail),
        ),
        error_page(BootErrorView::DaemonUnreachable(detail, known)).member("version"@) == match known {
            Some(v) => Some(JsonView::Text(v)),
            None => Some(JsonView::Null),
        },
{
    reveal_strlit("kind");
    reveal_strlit("version");
    reveal_strlit("min");
    reveal_strlit("detail");
    assert("kind"@.len() == 4);
    assert("version"@.len() == 7);
    assert("min"@.len() == 3);
    assert("detail"@.len() == 6);
}

} // verus!

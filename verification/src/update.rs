//! Update check: is there a newer release, and what does it say?
use vstd::prelude::*;

use crate::http::{decode_lossy, utf8_lossy};
use crate::json::{json_text, json_views, no_members, number_view, parse_json, Json, JsonView};
use crate::rc::or_empty;
use crate::text::{
    decimal, inside_white, is_digit, is_space, lemma_decimal_value, owned, same, strip_leading, trim, trim_start_char, trimmed,
    trimming_takes_outer_white_space,
};
use crate::version::{
    differ_first_at, dotted, dotted_versions_are_their_numbers, first_difference_decides, older_than,
    opt_view, version_newer,
};

verus! {

broadcast use vstd::string::group_string_axioms;

/// The version of this shell.
pub const APP_VERSION: &'static str = "0.1.18";

/// The macOS release asset that the update card links to.
pub const MACOS_ASSET: &'static str = "kimi-ui-macos-arm64.zip";

/// The page of the latest release.
pub const LATEST_PAGE: &'static str = "https://github.com/liujunGH/kimi-ui/releases/latest";

/// Latest-release info exposed to the status page.
#[derive(Debug)]
pub struct UpdateInfo {
    pub latest: String,
    pub url: String,
    pub has_update: bool,
    /// Release notes (markdown), rendered by the status page's update card.
    pub notes: String,
    /// macOS zip asset, used only for the download link.
    pub asset_url: String,
    pub asset_size: u64,
    /// "sha256:<hex>" from the release API (informational).
    pub asset_digest: String,
    /// Auto-update only exists on macOS.
    pub can_auto_update: bool,
}

/// What a release info says.
#[verifier::ext_equal]
pub struct InfoView {
    pub latest: Seq<char>,
    pub url: Seq<char>,
    pub has_update: bool,
    pub notes: Seq<char>,
    pub asset_url: Seq<char>,
    pub asset_size: u64,
    pub asset_digest: Seq<char>,
    pub can_auto_update: bool,
}

impl UpdateInfo {
    pub open spec fn view(self) -> InfoView {
        InfoView {
            latest: self.latest@,
            url: self.url@,
            has_update: self.has_update,
            notes: self.notes@,
            asset_url: self.asset_url@,
            asset_size: self.asset_size,
            asset_digest: self.asset_digest@,
            can_auto_update: self.can_auto_update,
        }
    }
}

/// What the page is told of a release.
pub open spec fn info_page(i: InfoView) -> JsonView {
    no_members().with("latest"@, JsonView::Text(i.latest)).with("url"@, JsonView::Text(i.url)).with(
        "has_update"@,
        JsonView::Bool(i.has_update),
    ).with("notes"@, JsonView::Text(i.notes)).with("asset_url"@, JsonView::Text(i.asset_url)).with(
        "asset_size"@,
        number_view(i.asset_size),
    ).with("asset_digest"@, JsonView::Text(i.asset_digest)).with(
        "can_auto_update"@,
        JsonView::Bool(i.can_auto_update),
    )
}

/// What the page is told of the latest release, where it is known.
pub fn update_info(info: Option<&UpdateInfo>) -> (r: Json)
    ensures
        r@ == match info {
            Some(i) => info_page(i@),
            None => JsonView::Null,
        },
{
    match info {
        Some(i) => Json::object().with("latest", Json::text(i.latest.as_str())).with(
            "url",
            Json::text(i.url.as_str()),
        ).with("has_update", Json::Bool(i.has_update)).with(
            "notes",
            Json::text(i.notes.as_str()),
        ).with("asset_url", Json::text(i.asset_url.as_str())).with(
            "asset_size",
            Json::number(i.asset_size),
        ).with("asset_digest", Json::text(i.asset_digest.as_str())).with(
            "can_auto_update",
            Json::Bool(i.can_auto_update),
        ),
        None => Json::Null,
    }
}

/// The first asset with the wanted name.
pub open spec fn macos_asset(assets: Seq<JsonView>) -> Option<JsonView>
    decreases assets.len(),
{
    if assets.len() == 0 {
        None
    } else if assets[0].text_at("name"@) == Some(MACOS_ASSET@) {
        Some(assets[0])
    } else {
        macos_asset(assets.skip(1))
    }
}

/// The release that a document describes, seen from the version `current`.
pub open spec fn release_of(
    v: JsonView,
    current: Seq<char>,
    forced: bool,
    macos: bool,
) -> Option<InfoView> {
    match (v.text_at("tag_name"@), v.text_at("html_url"@), v.array_at("assets"@)) {
        (Some(tag), Some(url), Some(assets)) => match macos_asset(assets) {
            Some(a) => Some(
                InfoView {
                    latest: trim_start_char(tag, 'v'),
                    url,
                    has_update: forced || older_than(current, trim_start_char(tag, 'v')),
                    notes: trimmed(or_empty(v.text_at("body"@))),
                    asset_url: or_empty(a.text_at("browser_download_url"@)),
                    asset_size: match a.u64_at("size"@) {
                        Some(n) => n,
                        None => 0,
                    },
                    asset_digest: or_empty(a.text_at("digest"@)),
                    can_auto_update: macos,
                },
            ),
            None => None,
        },
        _ => None,
    }
}

fn text_or_empty(v: &Json, key: &str) -> (r: String)
    ensures
        r@ == or_empty(v@.text_at(key@)),
{
    match v.text_at(key) {
        Some(t) => owned(t),
        None => String::new(),
    }
}

fn find_asset(assets: &Vec<Json>) -> (r: Option<&Json>)
    ensures
        match r {
            Some(a) => macos_asset(json_views(assets@)) == Some(a@),
            None => macos_asset(json_views(assets@)) is None,
        },
{
    let mut i: usize = 0;
    let ghost av = json_views(assets@);
    proof {
        assert(av.skip(0) == av);
    }
    while i < assets.len()
        invariant
            av == json_views(assets@),
            i <= assets@.len(),
            macos_asset(av) == macos_asset(av.skip(i as int)),
        decreases assets@.len() - i,
    {
        proof {
            assert(av.skip(i as int)[0] == assets@[i as int]@);
            assert(av.skip(i as int).skip(1) == av.skip(i + 1));
        }
        match assets[i].text_at("name") {
            Some(n) => if same(n, MACOS_ASSET) {
                return Some(&assets[i]);
            },
            None => {},
        }
        i = i + 1;
    }
    None
}

/// Takes the release out of a document; `None` when the shape drifted.
pub fn release_in(v: &Json, current: &str, forced: bool, macos: bool) -> (r: Option<UpdateInfo>)
    ensures
        match r {
            Some(i) => release_of(v@, current@, forced, macos) == Some(i@),
            None => release_of(v@, current@, forced, macos) is None,
        },
{
    match (v.text_at("tag_name"), v.text_at("html_url"), v.array_at("assets")) {
        (Some(tag), Some(url), Some(assets)) => match find_asset(assets) {
            Some(a) => {
                let latest = strip_leading(tag, 'v');
                let has_update = forced || version_newer(latest.as_str(), current);
                let asset_size: u64 = match a.u64_at("size") {
                    Some(n) => n,
                    None => 0,
                };
                Some(
                    UpdateInfo {
                        latest,
                        url: owned(url),
                        has_update,
                        notes: trim(text_or_empty(v, "body").as_str()),
                        asset_url: text_or_empty(a, "browser_download_url"),
                        asset_size,
                        asset_digest: text_or_empty(a, "digest"),
                        can_auto_update: macos,
                    },
                )
            },
            None => None,
        },
        _ => None,
    }
}

/// The release that the text of a releases API answer describes.
pub open spec fn release_text(raw: Seq<char>, current: Seq<char>, forced: bool, macos: bool) -> Option<
    InfoView,
> {
    match json_text(raw) {
        Ok(v) => release_of(v, current, forced, macos),
        Err(_) => None,
    }
}

/// `UpdateInfo` from a releases API JSON body; `None` when the shape drifted.
pub fn parse_release_json(raw: &str, current: &str, forced: bool, macos: bool) -> (r: Option<
    UpdateInfo,
>)
    ensures
        match r {
            Some(i) => release_text(raw@, current@, forced, macos) == Some(i@),
            None => release_text(raw@, current@, forced, macos) is None,
        },
{
    match parse_json(raw) {
        Ok(v) => release_in(&v, current, forced, macos),
        Err(_) => None,
    }
}

/// The release in the output of a command, where that ran and succeeded.
pub fn release_from(
    output: Option<(bool, Vec<u8>)>,
    current: &str,
    forced: bool,
    macos: bool,
) -> (r: Option<UpdateInfo>)
    ensures
        ({
            let expected = match output {
                Some((success, stdout)) => if success {
                    release_text(utf8_lossy(stdout@), current@, forced, macos)
                } else {
                    None
                },
                None => None,
            };
            match r {
                Some(i) => expected == Some(i@),
                None => expected is None,
            }
        }),
{
    match output {
        Some((success, stdout)) => if success {
            parse_release_json(decode_lossy(stdout.as_slice()).as_str(), current, forced, macos)
        } else {
            None
        },
        None => None,
    }
}

/// A look for the latest release.
#[derive(Debug)]
pub enum FetchStep {
    /// Ask `gh`, which is signed in.
    AskGh,
    /// Ask `curl`, which is anonymous.
    AskCurl,
    /// The release that was found, if any.
    Done(Option<UpdateInfo>),
}

/// What a look for a release says.
#[verifier::ext_equal]
pub enum FetchView {
    AskGh,
    AskCurl,
    Done(Option<InfoView>),
}

/// The view of an optional release.
pub open spec fn opt_info(i: Option<UpdateInfo>) -> Option<InfoView> {
    match i {
        Some(i) => Some(i@),
        None => None,
    }
}

impl FetchStep {
    pub open spec fn view(self) -> FetchView {
        match self {
            FetchStep::AskGh => FetchView::AskGh,
            FetchStep::AskCurl => FetchView::AskCurl,
            FetchStep::Done(i) => FetchView::Done(opt_info(i)),
        }
    }
}

/// The look once a command was asked and `found` is the release in its output.
pub open spec fn fetch_after(step: FetchView, found: Option<InfoView>) -> FetchView {
    match step {
        FetchView::AskGh => match found {
            Some(i) => FetchView::Done(Some(i)),
            None => FetchView::AskCurl,
        },
        FetchView::AskCurl => FetchView::Done(found),
        FetchView::Done(_) => step,
    }
}

/// Goes on with the look once a command was asked.
pub fn fetch_next(step: FetchStep, found: Option<UpdateInfo>) -> (r: FetchStep)
    ensures
        r@ == fetch_after(step@, opt_info(found)),
{
    match step {
        FetchStep::AskGh => match found {
            Some(i) => FetchStep::Done(Some(i)),
            None => FetchStep::AskCurl,
        },
        FetchStep::AskCurl => FetchStep::Done(found),
        FetchStep::Done(i) => FetchStep::Done(i),
    }
}

/// What `gh` finds is what is shown, with `curl` not asked; where it finds no
/// release, whatever `curl` finds is.
pub proof fn gh_comes_first(gh: Option<InfoView>, curl: Option<InfoView>)
    ensures
        gh is Some ==> fetch_after(FetchView::AskGh, gh) == FetchView::Done(gh),
        gh is None ==> fetch_after(FetchView::AskGh, gh) == FetchView::AskCurl,
        fetch_after(fetch_after(FetchView::AskGh, gh), curl) == FetchView::Done(
            if gh is Some {
                gh
            } else {
                curl
            },
        ),
{
}

/// Whether the hook that always reports an update is set: its value is "1".
pub fn update_forced(hook: Option<&str>) -> (r: bool)
    ensures
        r == (opt_view(hook) == Some("1"@)),
{
    match hook {
        Some(v) => same(v, "1"),
        None => false,
    }
}

/// The release to ask for: the tagged one, where a tag is given, else the latest.
pub open spec fn endpoint_of(tag: Option<Seq<char>>) -> Seq<char> {
    match tag {
        Some(t) => if t.len() > 0 {
            "releases/tags/"@ + t
        } else {
            "releases/latest"@
        },
        None => "releases/latest"@,
    }
}

/// The API path of the release to ask for.
pub open spec fn release_api(tag: Option<Seq<char>>) -> Seq<char> {
    "repos/liujunGH/kimi-ui/"@ + endpoint_of(tag)
}

/// Writes the API path of the release to ask for.
pub fn release_api_path(tag: Option<&str>) -> (r: String)
    ensures
        r@ == release_api(opt_view(tag)),
{
    let mut out = owned("repos/liujunGH/kimi-ui/");
    match tag {
        Some(t) => if t.is_empty() {
            out.append("releases/latest");
        } else {
            proof {
                assert(out@ + ("releases/tags/"@ + t@) == out@ + "releases/tags/"@ + t@);
            }
            out.append("releases/tags/");
            out.append(t);
        },
        None => {
            out.append("releases/latest");
        },
    }
    out
}

/// Writes the address of the release to ask for without credentials.
pub fn release_api_url(tag: Option<&str>) -> (r: String)
    ensures
        r@ == "https://api.github.com/"@ + release_api(opt_view(tag)),
{
    let mut out = owned("https://api.github.com/");
    out.append(release_api_path(tag).as_str());
    out
}

/// The page that "check for updates" opens: the found release's, else the latest.
pub fn update_page(found: Option<&str>) -> (r: String)
    ensures
        r@ == match found {
            Some(u) => u@,
            None => LATEST_PAGE@,
        },
{
    match found {
        Some(u) => owned(u),
        None => owned(LATEST_PAGE),
    }
}

/// What happens while an update is installed.
pub enum UpdateEvent {
    /// This many percent are there.
    Downloading(u32),
    /// The payload is verified and about to be installed.
    Verified,
    /// This version is installed.
    Installed(String),
    Failed(String),
}

/// Where an update can fail.
#[derive(Clone, Copy, PartialEq, Eq, Structural, Debug)]
pub enum UpdateStage {
    /// There is no updater.
    Updater,
    /// The check for an update failed.
    Check,
    /// The check found none.
    Nothing,
    /// The installation failed.
    Install,
    /// The platform has no auto-update.
    Unsupported,
}

/// How a failed update is reported.
pub open spec fn update_failure(stage: UpdateStage, e: Seq<char>) -> Seq<char> {
    match stage {
        UpdateStage::Updater => "更新器不可用："@ + e,
        UpdateStage::Check => "检查更新失败："@ + e,
        UpdateStage::Nothing => "已是最新版本"@,
        UpdateStage::Install => "安装失败："@ + e,
        UpdateStage::Unsupported => "自动更新目前仅支持桌面平台"@,
    }
}

/// Reports a failed update.
pub fn update_error(stage: UpdateStage, e: &str) -> (r: String)
    ensures
        r@ == update_failure(stage, e@),
{
    let mut out = match stage {
        UpdateStage::Updater => owned("更新器不可用："),
        UpdateStage::Check => owned("检查更新失败："),
        UpdateStage::Nothing => {
            return owned("已是最新版本");
        },
        UpdateStage::Install => owned("安装失败："),
        UpdateStage::Unsupported => {
            return owned("自动更新目前仅支持桌面平台");
        },
    };
    out.append(e);
    out
}

/// Pipeline state polled by the status page.
pub struct UpdateProgress {
    /// idle | downloading | verifying | ready | error
    pub phase: &'static str,
    /// 0-100 while downloading
    pub pct: u32,
    pub message: String,
}

/// The state that an event leads to: phase, percentage and message.
pub open spec fn progress_of(e: UpdateEvent) -> (Seq<char>, u32, Seq<char>) {
    match e {
        UpdateEvent::Downloading(pct) => ("downloading"@, pct, seq![]),
        UpdateEvent::Verified => ("verifying"@, 100, "校验中…"@),
        UpdateEvent::Installed(version) => ("ready"@, 100, "v"@ + version@ + " 已就绪"@),
        UpdateEvent::Failed(error) => ("error"@, 0, error@),
    }
}

/// The pipeline's state after an event.
pub fn update_progress(e: UpdateEvent) -> (r: UpdateProgress)
    ensures
        (r.phase@, r.pct, r.message@) == progress_of(e),
{
    match e {
        UpdateEvent::Downloading(pct) => UpdateProgress {
            phase: "downloading",
            pct,
            message: String::new(),
        },
        UpdateEvent::Verified => UpdateProgress {
            phase: "verifying",
            pct: 100,
            message: owned("校验中…"),
        },
        UpdateEvent::Installed(version) => {
            let mut message = owned("v");
            message.append(version.as_str());
            message.append(" 已就绪");
            UpdateProgress { phase: "ready", pct: 100, message }
        },
        UpdateEvent::Failed(error) => UpdateProgress { phase: "error", pct: 0, message: error },
    }
}

/// What the page is told of the pipeline.
pub fn progress_doc(p: &UpdateProgress) -> (r: Json)
    ensures
        r@ == no_members().with("phase"@, JsonView::Text(p.phase@)).with(
            "pct"@,
            number_view(p.pct as u64),
        ).with("message"@, JsonView::Text(p.message@)),
{
    Json::object().with("phase", Json::text(p.phase)).with("pct", Json::number(p.pct as u64)).with(
        "message",
        Json::text(p.message.as_str()),
    )
}

/// What the status bar can ask for.
#[derive(Clone, Copy, PartialEq, Eq, Structural, Debug)]
pub enum UpdateAction {
    /// Download, verify and install.
    Start,
    /// Restart into the installed version.
    Relaunch,
    /// Report the pipeline's state.
    Status,
}

/// The action that a word names; every other word asks for the state.
pub open spec fn action_of(word: Seq<char>) -> UpdateAction {
    if word == "start"@ {
        UpdateAction::Start
    } else if word == "install"@ {
        UpdateAction::Relaunch
    } else {
        UpdateAction::Status
    }
}

/// Status-bar entry point: "start" | "install" | "status".
pub fn auto_update(word: &str) -> (r: UpdateAction)
    ensures
        r == action_of(word@),
{
    if same(word, "start") {
        UpdateAction::Start
    } else if same(word, "install") {
        UpdateAction::Relaunch
    } else {
        UpdateAction::Status
    }
}

/// No update is offered for the version that is running, or for an older one,
/// unless the hook forces it.
pub proof fn only_newer_releases_are_updates(v: JsonView, current: Seq<char>, macos: bool)
    ensures
        release_of(v, current, false, macos) matches Some(i) ==> (i.has_update <==> older_than(
            current,
            i.latest,
        )) && (i.latest == current ==> !i.has_update),
        release_of(v, current, true, macos) matches Some(i) ==> i.has_update,
{
    crate::version::equal_is_not_older(current);
}

/// The asset is named like the macOS archive.
pub open spec fn is_macos_archive(asset: JsonView) -> bool {
    asset.member("name"@) == Some(JsonView::Text("kimi-ui-macos-arm64.zip"@))
}

proof fn lemma_first_asset(assets: Seq<JsonView>, k: int)
    requires
        0 <= k <= assets.len(),
        k < assets.len() ==> is_macos_archive(assets[k]),
        forall|j: int| 0 <= j < k ==> !is_macos_archive(#[trigger] assets[j]),
    ensures
        macos_asset(assets) == if k < assets.len() {
            Some(assets[k])
        } else {
            None
        },
    decreases assets.len(),
{
    if assets.len() > 0 {
        if k > 0 {
            assert(!is_macos_archive(assets[0]));
            let rest = assets.skip(1);
            assert forall|j: int| 0 <= j < k - 1 implies !is_macos_archive(#[trigger] rest[j]) by {
                assert(rest[j] == assets[j + 1]);
            }
            lemma_first_asset(rest, k - 1);
        }
    }
}

/// The text that a member holds, or nothing where it holds none.
pub open spec fn is_text_of(t: Seq<char>, member: Option<JsonView>) -> bool {
    match member {
        Some(JsonView::Text(s)) => t == s,
        _ => t.len() == 0,
    }
}

/// A release is shown as the document has it: its page, its tag without the
/// leading letters v, and the address, size and digest of the first asset that is
/// the macOS archive.
pub proof fn release_is_read_from_its_members(
    v: JsonView,
    current: Seq<char>,
    forced: bool,
    macos: bool,
    tag: Seq<char>,
    url: Seq<char>,
    assets: Seq<JsonView>,
    k: int,
)
    requires
        v.member("tag_name"@) == Some(JsonView::Text(tag)),
        v.member("html_url"@) == Some(JsonView::Text(url)),
        v.member("assets"@) == Some(JsonView::Array(assets)),
        0 <= k < assets.len(),
        is_macos_archive(assets[k]),
        forall|j: int| 0 <= j < k ==> !is_macos_archive(#[trigger] assets[j]),
    ensures
        match release_of(v, current, forced, macos) {
            Some(i) => {
                &&& i.url == url
                &&& i.latest.is_suffix_of(tag)
                &&& forall|j: int| 0 <= j < tag.len() - i.latest.len() ==> #[trigger] tag[j] == 'v'
                &&& i.latest.len() > 0 ==> i.latest[0] != 'v'
                &&& is_text_of(i.asset_url, assets[k].member("browser_download_url"@))
                &&& is_text_of(i.asset_digest, assets[k].member("digest"@))
                &&& match assets[k].member("size"@) {
                    Some(JsonView::Number(Some(n), _)) => i.asset_size == n,
                    _ => i.asset_size == 0,
                }
                &&& i.can_auto_update == macos
            },
            None => false,
        },
{
    lemma_first_asset(assets, k);
    crate::text::leading_run_is_cut(tag, 'v');
}

/// The release notes are the release's whole body, up to the white space around
/// it; without a body there are none.
pub proof fn notes_are_the_whole_body(v: JsonView, current: Seq<char>, forced: bool, macos: bool)
    ensures
        match release_of(v, current, forced, macos) {
            Some(i) => match v.member("body"@) {
                Some(JsonView::Text(body)) => {
                    &&& exists|a: int, b: int| inside_white(i.notes, body, a, b)
                    &&& i.notes.len() > 0 ==> !is_space(i.notes[0]) && !is_space(i.notes.last())
                },
                _ => i.notes.len() == 0,
            },
            None => true,
        },
{
    trimming_takes_outer_white_space(or_empty(v.text_at("body"@)));
    let none = Seq::<char>::empty();
    assert(trimmed(none) == none);
}

/// There is no release where the tag, the page or the list of assets is missing,
/// or no asset is the macOS archive.
pub proof fn drifted_releases_are_none(v: JsonView, current: Seq<char>, forced: bool, macos: bool)
    ensures
        release_of(v, current, forced, macos) is Some <==> {
            &&& v.member("tag_name"@) matches Some(JsonView::Text(_))
            &&& v.member("html_url"@) matches Some(JsonView::Text(_))
            &&& match v.member("assets"@) {
                Some(JsonView::Array(assets)) => exists|k: int|
                    0 <= k < assets.len() && is_macos_archive(#[trigger] assets[k]),
                _ => false,
            }
        },
{
    if let Some(JsonView::Array(assets)) = v.member("assets"@) {
        if exists|k: int| 0 <= k < assets.len() && is_macos_archive(#[trigger] assets[k]) {
            lemma_some_asset(assets);
        } else {
            lemma_first_asset(assets, assets.len() as int);
        }
    }
}

proof fn lemma_some_asset(assets: Seq<JsonView>)
    requires
        exists|k: int| 0 <= k < assets.len() && is_macos_archive(#[trigger] assets[k]),
    ensures
        macos_asset(assets) is Some,
    decreases assets.len(),
{
    let k = choose|k: int| 0 <= k < assets.len() && is_macos_archive(#[trigger] assets[k]);
    if !is_macos_archive(assets[0]) {
        assert(assets.skip(1)[k - 1] == assets[k]);
        lemma_some_asset(assets.skip(1));
    }
}

/// The page is told of a release exactly what is known of it, each thing under its
/// own name.
pub proof fn page_is_told_the_release(i: InfoView)
    ensures
        info_page(i).member("latest"@) == Some(JsonView::Text(i.latest)),
        info_page(i).member("url"@) == Some(JsonView::Text(i.url)),
        info_page(i).member("has_update"@) == Some(JsonView::Bool(i.has_update)),
        info_page(i).member("notes"@) == Some(JsonView::Text(i.notes)),
        info_page(i).member("asset_url"@) == Some(JsonView::Text(i.asset_url)),
        info_page(i).u64_at("asset_size"@) == Some(i.asset_size),
        info_page(i).member("asset_digest"@) == Some(JsonView::Text(i.asset_digest)),
        info_page(i).member("can_auto_update"@) == Some(JsonView::Bool(i.can_auto_update)),
{
    reveal_strlit("latest");
    reveal_strlit("url");
    reveal_strlit("has_update");
    reveal_strlit("notes");
    reveal_strlit("asset_url");
    reveal_strlit("asset_size");
    reveal_strlit("asset_digest");
    reveal_strlit("can_auto_update");
    assert("latest"@.len() == 6);
    assert("url"@.len() == 3);
    assert("has_update"@.len() == 10);
    assert("notes"@.len() == 5);
    assert("asset_url"@.len() == 9);
    assert("asset_size"@.len() == 10);
    assert("asset_digest"@.len() == 12);
    assert("can_auto_update"@.len() == 15);
    assert("has_update"@[0] != "asset_size"@[0]);
}

/// A tag is asked for by its name, and without one the latest release is.
pub proof fn tagged_release_is_asked_for(tag: Seq<char>)
    ensures
        tag.len() > 0 ==> release_api(Some(tag)) == "repos/liujunGH/kimi-ui/releases/tags/"@ + tag,
        tag.len() == 0 ==> release_api(Some(tag)) == release_api(None),
        release_api(None) == "repos/liujunGH/kimi-ui/releases/latest"@,
{
    reveal_strlit("repos/liujunGH/kimi-ui/releases/tags/");
    reveal_strlit("repos/liujunGH/kimi-ui/releases/latest");
    reveal_strlit("repos/liujunGH/kimi-ui/");
    reveal_strlit("releases/tags/");
    reveal_strlit("releases/latest");
    assert(release_api(Some(tag)) =~= if tag.len() > 0 {
        "repos/liujunGH/kimi-ui/releases/tags/"@ + tag
    } else {
        "repos/liujunGH/kimi-ui/releases/latest"@
    });
    assert(release_api(None) =~= "repos/liujunGH/kimi-ui/releases/latest"@);
}

/// A failure is reported with the updater's own words, and progress with the
/// percentage, the version or the error that it carries.
pub proof fn reports_carry_their_cause(e: UpdateEvent, stage: UpdateStage, words: Seq<char>)
    ensures
        stage == UpdateStage::Updater || stage == UpdateStage::Check || stage == UpdateStage::Install
            ==> words.is_suffix_of(update_failure(stage, words)),
        stage == UpdateStage::Nothing || stage == UpdateStage::Unsupported ==> update_failure(
            stage,
            words,
        ) == update_failure(stage, seq![]),
        match e {
            UpdateEvent::Downloading(pct) => progress_of(e).0 == "downloading"@ && progress_of(e).1
                == pct && progress_of(e).2.len() == 0,
            UpdateEvent::Verified => progress_of(e).0 == "verifying"@ && progress_of(e).1 == 100,
            UpdateEvent::Installed(version) => progress_of(e).0 == "ready"@ && progress_of(e).1 == 100
                && progress_of(e).2 == "v"@ + version@ + " 已就绪"@,
            UpdateEvent::Failed(error) => progress_of(e).0 == "error"@ && progress_of(e).1 == 0
                && progress_of(e).2 == error@,
        },
{
    let f = update_failure(stage, words);
    assert(stage == UpdateStage::Updater || stage == UpdateStage::Check || stage
        == UpdateStage::Install ==> words =~= f.subrange(f.len() - words.len(), f.len() as int));
}

/// Only the word "start" starts an update and only "install" restarts the shell.
pub proof fn only_two_words_act(word: Seq<char>)
    ensures
        action_of(word) == UpdateAction::Start <==> word == "start"@,
        action_of(word) == UpdateAction::Relaunch <==> word == "install"@,
{
    reveal_strlit("start");
    reveal_strlit("install");
    assert("start"@.len() == 5);
    assert("install"@.len() == 7);
}

/// A release is read from a text where the parser makes a document of it, and not
/// otherwise.
pub proof fn releases_are_read_from_documents(raw: Seq<char>, current: Seq<char>, forced: bool, macos: bool)
    ensures
        match json_text(raw) {
            Ok(v) => release_text(raw, current, forced, macos) == release_of(v, current, forced, macos),
            Err(_) => release_text(raw, current, forced, macos) is None,
        },
{
}

/// A release is an update where the numbers of its tag are behind those of the
/// running version at the first difference.
pub proof fn updates_have_greater_numbers(
    v: JsonView,
    macos: bool,
    current: Seq<nat>,
    latest: Seq<nat>,
)
    requires
        current.len() > 0,
        latest.len() > 0,
        forall|i: int| 0 <= i < current.len() ==> #[trigger] current[i] <= u32::MAX,
        forall|i: int| 0 <= i < latest.len() ==> #[trigger] latest[i] <= u32::MAX,
        v.member("tag_name"@) == Some(JsonView::Text(seq!['v'] + dotted(latest))),
    ensures
        match release_of(v, dotted(current), false, macos) {
            Some(i) => i.latest == dotted(latest) && (i.has_update <==> exists|k: int|
                differ_first_at(current, latest, k)),
            None => true,
        },
{
    dotted_versions_are_their_numbers(current);
    dotted_versions_are_their_numbers(latest);
    first_difference_decides(current, latest);
    let d = dotted(latest);
    let tag = seq!['v'] + d;
    assert(tag.skip(1) =~= d);
    let parts = latest.map_values(|n: nat| decimal(n));
    lemma_decimal_value(latest[0]);
    assert(parts[0] == decimal(latest[0]));
    assert(is_digit(decimal(latest[0])[0]));
    assert(d[0] == parts[0][0]);
    assert(trim_start_char(d, 'v') == d);
    assert(trim_start_char(tag, 'v') == d);
}

} // verus!

//! The daemon's sessions: the list behind the window title and the menu, and
//! the snapshot that the status page shows.
use vstd::prelude::*;

use crate::http::answer_view;
use crate::json::{json_views, no_members, Json, JsonView};
use crate::text::{
    is_space, owned, prefix, same, trim, trimmed, trimming_takes_outer_white_space, truncate_chars,
};
use crate::version::opt_view;

verus! {

broadcast use vstd::string::group_string_axioms;

/// The path that lists the recent sessions.
pub const SESSIONS_PATH: &'static str = "/api/v1/sessions?page_size=50";

/// The path of the daemon's own description.
pub const META_PATH: &'static str = "/api/v1/meta";

/// The views of a list of sessions: id and title.
pub open spec fn session_views(v: Seq<(String, String)>) -> Seq<(Seq<char>, Seq<char>)> {
    v.map_values(|s: (String, String)| (s.0@, s.1@))
}

/// The session says that `key` holds.
pub open spec fn says(session: JsonView, key: Seq<char>) -> bool {
    session.bool_at(key) == Some(true)
}

/// The title that a session is shown with.
pub open spec fn shown_title(session: JsonView) -> Seq<char> {
    match session.text_at("title"@) {
        Some(t) => if trimmed(t).len() == 0 {
            "未命名会话"@
        } else {
            t
        },
        None => "未命名会话"@,
    }
}

/// The sessions to offer: those that are not archived and have an id, in order.
pub open spec fn offered(items: Seq<JsonView>) -> Seq<(Seq<char>, Seq<char>)>
    decreases items.len(),
{
    if items.len() == 0 {
        seq![]
    } else {
        let rest = offered(items.drop_last());
        match items.last().text_at("id"@) {
            Some(id) => if says(items.last(), "archived"@) {
                rest
            } else {
                rest.push((id, shown_title(items.last())))
            },
            None => rest,
        }
    }
}

/// The session list in an answer.
pub open spec fn items_of(v: JsonView) -> Option<Seq<JsonView>> {
    v.nested("data"@).array_at("items"@)
}

/// The sessions that an answer offers.
pub open spec fn sessions_of(v: JsonView) -> Option<Seq<(Seq<char>, Seq<char>)>> {
    match items_of(v) {
        Some(items) => Some(offered(items)),
        None => None,
    }
}

fn flag(session: &Json, key: &str) -> (r: bool)
    ensures
        r == says(session@, key@),
{
    match session.bool_at(key) {
        Some(b) => b,
        None => false,
    }
}

fn items_in(v: &Json) -> (r: Option<&Vec<Json>>)
    ensures
        match r {
            Some(items) => items_of(v@) == Some(json_views(items@)),
            None => items_of(v@) is None,
        },
{
    match v.member("data") {
        Some(d) => d.array_at("items"),
        None => None,
    }
}

/// Reads the session list: ordered (id, title) pairs of the sessions that are
/// not archived.
pub fn parse_sessions(v: &Json) -> (r: Option<Vec<(String, String)>>)
    ensures
        match r {
            Some(s) => sessions_of(v@) == Some(session_views(s@)),
            None => sessions_of(v@) is None,
        },
{
    let items = match items_in(v) {
        Some(items) => items,
        None => {
            return None;
        },
    };
    let mut out: Vec<(String, String)> = Vec::new();
    let mut i: usize = 0;
    let ghost iv = json_views(items@);
    while i < items.len()
        invariant
            iv == json_views(items@),
            i <= items@.len(),
            session_views(out@) == offered(iv.take(i as int)),
        decreases items@.len() - i,
    {
        proof {
            assert(iv.take(i + 1).drop_last() == iv.take(i as int));
            assert(iv.take(i + 1).last() == items@[i as int]@);
        }
        if !flag(&items[i], "archived") {
            match items[i].text_at("id") {
                Some(id) => {
                    let title = match items[i].text_at("title") {
                        Some(t) => if trim(t).as_str().is_empty() {
                            owned("未命名会话")
                        } else {
                            owned(t)
                        },
                        None => owned("未命名会话"),
                    };
                    let ghost before = out@;
                    let ghost t = title@;
                    out.push((owned(id), title));
                    proof {
                        assert(session_views(out@) == session_views(before).push((id@, t)));
                    }
                },
                None => {},
            }
        }
        i = i + 1;
    }
    proof {
        assert(iv.take(i as int) == iv);
    }
    Some(out)
}

/// The session list out of the daemon's answer, or why there is none.
pub fn sessions_from(answer: Result<Json, String>) -> (r: Result<Vec<(String, String)>, String>)
    ensures
        match (answer, r) {
            (Ok(v), Ok(s)) => sessions_of(v@) == Some(session_views(s@)),
            (Ok(v), Err(e)) => sessions_of(v@) is None && e@ == "会话列表结构可能已变化"@,
            (Err(e), Err(f)) => e@ == f@,
            (Err(_), Ok(_)) => false,
        },
{
    match answer {
        Ok(v) => match parse_sessions(&v) {
            Some(s) => Ok(s),
            None => Err(owned("会话列表结构可能已变化")),
        },
        Err(e) => Err(e),
    }
}

/// The title of the first session with `id`.
pub open spec fn title_of(sessions: Seq<(Seq<char>, Seq<char>)>, id: Seq<char>) -> Option<Seq<char>>
    decreases sessions.len(),
{
    if sessions.len() == 0 {
        None
    } else if sessions[0].0 == id {
        Some(sessions[0].1)
    } else {
        title_of(sessions.skip(1), id)
    }
}

/// The window's title while the session `active` is on screen.
pub open spec fn window_title(
    active: Option<Seq<char>>,
    sessions: Seq<(Seq<char>, Seq<char>)>,
) -> Seq<char> {
    match active {
        Some(id) => match title_of(sessions, id) {
            Some(t) => prefix(t, 60) + " — Kimi Code"@,
            None => "Kimi Code"@,
        },
        None => "Kimi Code"@,
    }
}

/// The window's title: the active session's, where it is known.
pub fn window_title_text(active: Option<&str>, sessions: &Vec<(String, String)>) -> (r: String)
    ensures
        r@ == window_title(opt_view(active), session_views(sessions@)),
{
    match active {
        Some(id) => {
            let mut i: usize = 0;
            let ghost sv = session_views(sessions@);
            proof {
                assert(sv.skip(0) == sv);
            }
            while i < sessions.len()
                invariant
                    sv == session_views(sessions@),
                    i <= sessions@.len(),
                    opt_view(active) == Some(id@),
                    title_of(sv, id@) == title_of(sv.skip(i as int), id@),
                decreases sessions@.len() - i,
            {
                proof {
                    assert(sv.skip(i as int)[0] == (
                        sessions@[i as int].0@,
                        sessions@[i as int].1@,
                    ));
                    assert(sv.skip(i as int).skip(1) == sv.skip(i + 1));
                }
                if same(sessions[i].0.as_str(), id) {
                    let mut title = truncate_chars(sessions[i].1.as_str(), 60);
                    title.append(" — Kimi Code");
                    return title;
                }
                i = i + 1;
            }
            owned("Kimi Code")
        },
        None => owned("Kimi Code"),
    }
}

/// The position of the session that the status page shows: the first busy one,
/// else the first that is not archived; the length of the list where there is
/// none.
pub open spec fn picked(items: Seq<JsonView>) -> int {
    let busy = first_saying(items, "busy"@, true, 0);
    if busy < items.len() {
        busy
    } else {
        first_saying(items, "archived"@, false, 0)
    }
}

/// The first position from `i` on whose session says `wanted` of `key`.
pub open spec fn first_saying(items: Seq<JsonView>, key: Seq<char>, wanted: bool, i: int) -> int
    decreases items.len() - i,
{
    if i >= items.len() || i < 0 {
        items.len() as int
    } else if says(items[i], key) == wanted {
        i
    } else {
        first_saying(items, key, wanted, i + 1)
    }
}

fn find_saying(items: &Vec<Json>, key: &str, wanted: bool) -> (r: usize)
    ensures
        r == first_saying(json_views(items@), key@, wanted, 0),
        r <= items@.len(),
{
    let mut i: usize = 0;
    let ghost iv = json_views(items@);
    while i < items.len()
        invariant
            iv == json_views(items@),
            i <= items@.len(),
            first_saying(iv, key@, wanted, 0) == first_saying(iv, key@, wanted, i as int),
        decreases items@.len() - i,
    {
        proof {
            assert(iv[i as int] == items@[i as int]@);
        }
        if flag(&items[i], key) == wanted {
            return i;
        }
        i = i + 1;
    }
    i
}

fn pick(items: &Vec<Json>) -> (r: usize)
    ensures
        r == picked(json_views(items@)),
{
    let busy = find_saying(items, "busy", true);
    if busy < items.len() {
        busy
    } else {
        find_saying(items, "archived", false)
    }
}

/// What a snapshot does next: requests to the daemon, in order.
pub enum Snapshot {
    /// Ask for its description.
    Meta,
    /// Ask for its sessions; this is its version.
    Sessions(Json),
    /// Ask at this path for the status of a session.
    Status { path: String, version: Json, session: Json },
    /// This is what the page is told.
    Done(Json),
}

/// What a snapshot step says.
#[verifier::ext_equal]
pub enum SnapshotView {
    Meta,
    Sessions(JsonView),
    Status(Seq<char>, JsonView, JsonView),
    Done(JsonView),
}

impl Snapshot {
    pub open spec fn view(self) -> SnapshotView {
        match self {
            Snapshot::Meta => SnapshotView::Meta,
            Snapshot::Sessions(v) => SnapshotView::Sessions(v@),
            Snapshot::Status { path, version, session } => SnapshotView::Status(
                path@,
                version@,
                session@,
            ),
            Snapshot::Done(v) => SnapshotView::Done(v@),
        }
    }
}

/// The report of a daemon that does not answer.
pub open spec fn down(error: Seq<char>) -> JsonView {
    no_members().with("state"@, JsonView::Text("down"@)).with("error"@, JsonView::Text(error))
}

/// The report of a daemon that answers.
pub open spec fn up(version: JsonView, session: JsonView, status: JsonView) -> JsonView {
    no_members().with("state"@, JsonView::Text("ok"@)).with("version"@, version).with(
        "session"@,
        session,
    ).with("status"@, status)
}

/// The begin of a snapshot, with or without a daemon.
pub open spec fn snapshot_start(connected: bool) -> SnapshotView {
    if connected {
        SnapshotView::Meta
    } else {
        SnapshotView::Done(down("daemon 尚未就绪"@))
    }
}

/// The id of a session, or the empty text.
pub open spec fn session_id(session: JsonView) -> Seq<char> {
    crate::rc::or_empty(session.text_at("id"@))
}

/// The step after `step`, for the daemon's answer to it.
pub open spec fn snapshot_after(
    step: SnapshotView,
    answer: Result<JsonView, Seq<char>>,
) -> SnapshotView {
    match step {
        SnapshotView::Meta => match answer {
            Ok(m) => SnapshotView::Sessions(m.nested("data"@).nested("server_version"@)),
            Err(e) => SnapshotView::Done(down(e)),
        },
        SnapshotView::Sessions(version) => match answer {
            Ok(v) => match items_of(v) {
                Some(items) => if picked(items) < items.len() {
                    SnapshotView::Status(
                        "/api/v1/sessions/"@ + session_id(items[picked(items)]) + "/status"@,
                        version,
                        items[picked(items)],
                    )
                } else {
                    SnapshotView::Done(up(version, JsonView::Null, JsonView::Null))
                },
                None => SnapshotView::Done(
                    no_members().with("state"@, JsonView::Text("broken"@)),
                ),
            },
            Err(e) => SnapshotView::Done(down(e).with("version"@, version)),
        },
        SnapshotView::Status(_, version, session) => SnapshotView::Done(
            up(
                version,
                session,
                match answer {
                    Ok(v) => v.nested("data"@),
                    Err(_) => JsonView::Null,
                },
            ),
        ),
        SnapshotView::Done(v) => SnapshotView::Done(v),
    }
}

fn member_or_null(v: &Json, key: &str) -> (r: Json)
    ensures
        r@ == v@.nested(key@),
{
    match v.member(key) {
        Some(m) => m.copied(),
        None => Json::Null,
    }
}

fn down_doc(error: &str) -> (r: Json)
    ensures
        r@ == down(error@),
{
    Json::object().with("state", Json::text("down")).with("error", Json::text(error))
}

fn up_doc(version: Json, session: Json, status: Json) -> (r: Json)
    ensures
        r@ == up(version@, session@, status@),
{
    Json::object().with("state", Json::text("ok")).with("version", version).with(
        "session",
        session,
    ).with("status", status)
}

/// Begins the status-bar snapshot for the active connection.
pub fn daemon_snapshot(connected: bool) -> (r: Snapshot)
    ensures
        r@ == snapshot_start(connected),
{
    if connected {
        Snapshot::Meta
    } else {
        Snapshot::Done(down_doc("daemon 尚未就绪"))
    }
}

/// Goes on with a snapshot once the daemon has answered.
pub fn snapshot_next(step: Snapshot, answer: Result<Json, String>) -> (r: Snapshot)
    ensures
        r@ == snapshot_after(step@, answer_view(answer)),
{
    match step {
        Snapshot::Meta => match answer {
            Ok(m) => {
                let data = member_or_null(&m, "data");
                Snapshot::Sessions(member_or_null(&data, "server_version"))
            },
            Err(e) => Snapshot::Done(down_doc(e.as_str())),
        },
        Snapshot::Sessions(version) => match answer {
            Ok(v) => match items_in(&v) {
                Some(items) => {
                    let i: usize = pick(items);
                    if i < items.len() {
                        let mut path = owned("/api/v1/sessions/");
                        match items[i].text_at("id") {
                            Some(id) => {
                                path.append(id);
                            },
                            None => {
                                proof {
                                    assert(path@ + Seq::<char>::empty() == path@);
                                }
                            },
                        }
                        path.append("/status");
                        proof {
                            assert(json_views(items@)[i as int] == items@[i as int]@);
                        }
                        Snapshot::Status { path, version, session: items[i].copied() }
                    } else {
                        Snapshot::Done(up_doc(version, Json::Null, Json::Null))
                    }
                },
                None => Snapshot::Done(Json::object().with("state", Json::text("broken"))),
            },
            Err(e) => Snapshot::Done(down_doc(e.as_str()).with("version", version)),
        },
        Snapshot::Status { path: _, version, session } => {
            let status = match answer {
                Ok(v) => member_or_null(&v, "data"),
                Err(_) => Json::Null,
            };
            Snapshot::Done(up_doc(version, session, status))
        },
        Snapshot::Done(v) => Snapshot::Done(v),
    }
}

proof fn lemma_first_saying(items: Seq<JsonView>, key: Seq<char>, wanted: bool, i: int)
    requires
        0 <= i <= items.len(),
    ensures
        i <= first_saying(items, key, wanted, i) <= items.len(),
        first_saying(items, key, wanted, i) < items.len() ==> says(
            items[first_saying(items, key, wanted, i)],
            key,
        ) == wanted,
        forall|k: int|
            i <= k < first_saying(items, key, wanted, i) ==> says(#[trigger] items[k], key) != wanted,
    decreases items.len() - i,
{
    if i < items.len() {
        lemma_first_saying(items, key, wanted, i + 1);
    }
}

/// The status page shows the first busy session; where none is busy, the first
/// that is not archived; and none only where all are archived and none is busy.
pub proof fn busy_session_is_picked_first(items: Seq<JsonView>)
    ensures
        picked(items) < items.len() ==> says(items[picked(items)], "busy"@) || (!says(
            items[picked(items)],
            "archived"@,
        ) && forall|k: int| 0 <= k < items.len() ==> !says(#[trigger] items[k], "busy"@)),
        picked(items) < items.len() && says(items[picked(items)], "busy"@) ==> forall|k: int|
            0 <= k < picked(items) ==> !says(#[trigger] items[k], "busy"@),
        picked(items) >= items.len() <==> forall|k: int|
            0 <= k < items.len() ==> says(#[trigger] items[k], "archived"@) && !says(
                items[k],
                "busy"@,
            ),
{
    lemma_first_saying(items, "busy"@, true, 0);
    lemma_first_saying(items, "archived"@, false, 0);
    if forall|k: int|
        0 <= k < items.len() ==> says(#[trigger] items[k], "archived"@) && !says(
            items[k],
            "busy"@,
        ) {
        let p = picked(items);
        if p < items.len() {
            assert(says(items[p], "archived"@) && !says(items[p], "busy"@));
        }
    }
}

/// A snapshot asks the daemon three times at most, whatever it answers.
pub proof fn snapshot_ends(
    meta: Result<JsonView, Seq<char>>,
    sessions: Result<JsonView, Seq<char>>,
    status: Result<JsonView, Seq<char>>,
)
    ensures
        snapshot_after(
            snapshot_after(snapshot_after(snapshot_start(true), meta), sessions),
            status,
        ) is Done,
{
}

/// No archived session is offered, and every other one with an id is.
pub proof fn archived_sessions_are_not_offered(items: Seq<JsonView>, id: Seq<char>, title: Seq<char>)
    ensures
        offered(items).contains((id, title)) <==> exists|i: int|
            0 <= i < items.len() && !says(#[trigger] items[i], "archived"@) && items[i].text_at(
                "id"@,
            ) == Some(id) && shown_title(items[i]) == title,
    decreases items.len(),
{
    if items.len() > 0 {
        let rest = items.drop_last();
        let n = items.len() - 1;
        archived_sessions_are_not_offered(rest, id, title);
        let o = offered(rest);
        if offered(items).contains((id, title)) {
            let k = choose|k: int|
                0 <= k < offered(items).len() && offered(items)[k] == (id, title);
            if k < o.len() {
                assert(o[k] == (id, title));
                let i = choose|i: int|
                    0 <= i < rest.len() && !says(#[trigger] rest[i], "archived"@) && rest[i].text_at(
                        "id"@,
                    ) == Some(id) && shown_title(rest[i]) == title;
                assert(items[i] == rest[i]);
            } else {
                assert(!says(items[n], "archived"@));
            }
        }
        if exists|i: int|
            0 <= i < items.len() && !says(#[trigger] items[i], "archived"@) && items[i].text_at(
                "id"@,
            ) == Some(id) && shown_title(items[i]) == title {
            let i = choose|i: int|
                0 <= i < items.len() && !says(#[trigger] items[i], "archived"@) && items[i].text_at(
                    "id"@,
                ) == Some(id) && shown_title(items[i]) == title;
            if i < n {
                assert(rest[i] == items[i]);
                let k = choose|k: int| 0 <= k < o.len() && o[k] == (id, title);
                assert(offered(items)[k] == (id, title));
            } else {
                assert(offered(items)[o.len() as int] == (id, title));
            }
        }
    }
}

/// The session says that it is busy.
pub open spec fn is_busy(session: JsonView) -> bool {
    session.member("busy"@) == Some(JsonView::Bool(true))
}

/// The session says that it is archived.
pub open spec fn is_archived(session: JsonView) -> bool {
    session.member("archived"@) == Some(JsonView::Bool(true))
}

/// The list of sessions in an answer: the member items of its member data.
pub open spec fn lists(answer: JsonView, items: Seq<JsonView>) -> bool {
    answer.member("data"@) matches Some(data) && data.member("items"@) == Some(
        JsonView::Array(items),
    )
}

/// Of the sessions listed the first busy one is shown; where none is busy, the
/// first that is not archived, so that all before it are; and none where none is
/// busy and all are archived. Its status is asked for under its id.
pub proof fn first_busy_or_live_session_is_shown(
    version: JsonView,
    answer: JsonView,
    items: Seq<JsonView>,
    p: int,
    id: Seq<char>,
)
    requires
        lists(answer, items),
        0 <= p < items.len(),
        items[p].member("id"@) == Some(JsonView::Text(id)),
        is_busy(items[p]) && (forall|k: int| 0 <= k < p ==> !is_busy(#[trigger] items[k])) || (
        !is_archived(items[p]) && (forall|k: int| 0 <= k < items.len() ==> !is_busy(#[trigger] items[k]))
            && forall|k: int| 0 <= k < p ==> is_archived(#[trigger] items[k])),
    ensures
        snapshot_after(SnapshotView::Sessions(version), Ok(answer)) == SnapshotView::Status(
            "/api/v1/sessions/"@ + id + "/status"@,
            version,
            items[p],
        ),
{
    lemma_first_saying(items, "busy"@, true, 0);
    lemma_first_saying(items, "archived"@, false, 0);
    assert forall|k: int| 0 <= k < items.len() implies says(#[trigger] items[k], "busy"@) == is_busy(
        items[k],
    ) && says(items[k], "archived"@) == is_archived(items[k]) by {}
    let q = picked(items);
    let busy = first_saying(items, "busy"@, true, 0);
    if busy < items.len() {
        assert(is_busy(items[busy]));
    }
    assert(says(items[p], "busy"@) == is_busy(items[p]));
    if q < items.len() {
        assert(says(items[q], "busy"@) == is_busy(items[q]));
        assert(says(items[q], "archived"@) == is_archived(items[q]));
    }
    assert(q == p);
}

/// Where no session is busy and the shown one is in the list, every session before
/// it is archived.
pub proof fn sessions_before_the_shown_are_archived(items: Seq<JsonView>, k: int)
    requires
        0 <= k < picked(items) < items.len(),
        forall|j: int| 0 <= j < items.len() ==> !is_busy(#[trigger] items[j]),
    ensures
        is_archived(items[k]),
        !is_archived(items[picked(items)]),
{
    lemma_first_saying(items, "busy"@, true, 0);
    lemma_first_saying(items, "archived"@, false, 0);
    let busy = first_saying(items, "busy"@, true, 0);
    if busy < items.len() {
        assert(!is_busy(items[busy]));
    }
    assert(says(items[k], "archived"@));
}

/// With every session archived and none busy the page is told that the daemon is
/// up, in which version, and of no session.
pub proof fn archived_sessions_are_not_shown(version: JsonView, answer: JsonView, items: Seq<JsonView>)
    requires
        lists(answer, items),
        forall|k: int| 0 <= k < items.len() ==> is_archived(#[trigger] items[k]) && !is_busy(items[k]),
    ensures
        match snapshot_after(SnapshotView::Sessions(version), Ok(answer)) {
            SnapshotView::Done(doc) => {
                &&& doc.member("state"@) == Some(JsonView::Text("ok"@))
                &&& doc.member("version"@) == Some(version)
                &&& doc.member("session"@) == Some(JsonView::Null)
                &&& doc.member("status"@) == Some(JsonView::Null)
            },
            _ => false,
        },
{
    reveal_strlit("state");
    reveal_strlit("version");
    reveal_strlit("session");
    reveal_strlit("status");
    assert("state"@.len() == 5);
    assert("version"@.len() == 7);
    assert("session"@.len() == 7);
    assert("status"@.len() == 6);
    assert("version"@[0] != "session"@[0]);
    lemma_first_saying(items, "busy"@, true, 0);
    lemma_first_saying(items, "archived"@, false, 0);
    let busy = first_saying(items, "busy"@, true, 0);
    let live = first_saying(items, "archived"@, false, 0);
    if busy < items.len() {
        assert(!is_busy(items[busy]));
    }
    if live < items.len() {
        assert(is_archived(items[live]));
    }
}

/// The page is told what the daemon answered: its version, the session that was
/// picked and that session's status, or null where the status did not come.
pub proof fn snapshot_reports_the_answers(
    meta: JsonView,
    path: Seq<char>,
    version: JsonView,
    session: JsonView,
    status: Result<JsonView, Seq<char>>,
)
    ensures
        snapshot_after(SnapshotView::Meta, Ok(meta)) == SnapshotView::Sessions(
            match meta.member("data"@) {
                Some(data) => match data.member("server_version"@) {
                    Some(v) => v,
                    None => JsonView::Null,
                },
                None => JsonView::Null,
            },
        ),
        match snapshot_after(SnapshotView::Status(path, version, session), status) {
            SnapshotView::Done(doc) => {
                &&& doc.member("state"@) == Some(JsonView::Text("ok"@))
                &&& doc.member("version"@) == Some(version)
                &&& doc.member("session"@) == Some(session)
                &&& match status {
                    Ok(v) => match v.member("data"@) {
                        Some(data) => doc.member("status"@) == Some(data),
                        None => doc.member("status"@) == Some(JsonView::Null),
                    },
                    Err(_) => doc.member("status"@) == Some(JsonView::Null),
                }
            },
            _ => false,
        },
{
    reveal_strlit("state");
    reveal_strlit("version");
    reveal_strlit("session");
    reveal_strlit("status");
    assert("state"@.len() == 5);
    assert("version"@.len() == 7);
    assert("session"@.len() == 7);
    assert("status"@.len() == 6);
    assert("version"@[0] != "session"@[0]);
}

/// A daemon that does not answer is reported as down with its error, and with its
/// version where that is known; one without a list of sessions as broken.
pub proof fn snapshot_reports_failures(version: JsonView, error: Seq<char>, answer: JsonView)
    ensures
        match snapshot_after(SnapshotView::Meta, Err(error)) {
            SnapshotView::Done(doc) => doc.member("state"@) == Some(JsonView::Text("down"@))
                && doc.member("error"@) == Some(JsonView::Text(error)),
            _ => false,
        },
        match snapshot_after(SnapshotView::Sessions(version), Err(error)) {
            SnapshotView::Done(doc) => doc.member("state"@) == Some(JsonView::Text("down"@))
                && doc.member("error"@) == Some(JsonView::Text(error)) && doc.member("version"@) == Some(
                version,
            ),
            _ => false,
        },
        (forall|items: Seq<JsonView>| !lists(answer, items)) ==> match snapshot_after(
            SnapshotView::Sessions(version),
            Ok(answer),
        ) {
            SnapshotView::Done(doc) => doc.member("state"@) == Some(JsonView::Text("broken"@)),
            _ => false,
        },
        match snapshot_start(false) {
            SnapshotView::Done(doc) => doc.member("state"@) == Some(JsonView::Text("down"@))
                && doc.member("error"@) == Some(JsonView::Text("daemon 尚未就绪"@)),
            _ => false,
        },
{
    reveal_strlit("state");
    reveal_strlit("version");
    reveal_strlit("error");
    assert("state"@.len() == 5);
    assert("version"@.len() == 7);
    assert("error"@.len() == 5);
    assert("state"@[0] != "error"@[0]);
    if let Some(items) = items_of(answer) {
        assert(lists(answer, items));
    }
}

/// The title that a session is listed with: its own, unless that is blank or
/// missing.
pub open spec fn is_title_of(title: Seq<char>, session: JsonView) -> bool {
    match session.member("title"@) {
        Some(JsonView::Text(t)) => if exists|i: int| 0 <= i < t.len() && !is_space(#[trigger] t[i]) {
            title == t
        } else {
            title == "未命名会话"@
        },
        _ => title == "未命名会话"@,
    }
}

/// Sessions are offered one by one in the order of the list: each that has an id
/// and is not archived, with its title; no other.
pub proof fn sessions_are_offered_in_order(a: Seq<JsonView>, b: Seq<JsonView>, session: JsonView)
    ensures
        offered(a + b) == offered(a) + offered(b),
        match session.member("id"@) {
            Some(JsonView::Text(id)) => if is_archived(session) {
                offered(seq![session]).len() == 0
            } else {
                offered(seq![session]).len() == 1 && offered(seq![session])[0].0 == id && is_title_of(
                    offered(seq![session])[0].1,
                    session,
                )
            },
            _ => offered(seq![session]).len() == 0,
        },
    decreases b.len(),
{
    if b.len() > 0 {
        assert((a + b).drop_last() == a + b.drop_last());
        sessions_are_offered_in_order(a, b.drop_last(), session);
    } else {
        assert(a + b == a);
    }
    assert(seq![session].drop_last() == Seq::<JsonView>::empty());
    reveal_with_fuel(offered, 2);
    if let Some(t) = session.text_at("title"@) {
        trimming_takes_outer_white_space(t);
    }
}

/// The window carries the title of the first session with the active id, cut to
/// sixty characters, and the plain name where no session has it.
pub proof fn window_carries_the_active_title(
    active: Seq<char>,
    sessions: Seq<(Seq<char>, Seq<char>)>,
    i: int,
)
    requires
        0 <= i <= sessions.len(),
        i < sessions.len() ==> sessions[i].0 == active,
        forall|k: int| 0 <= k < i ==> (#[trigger] sessions[k]).0 != active,
    ensures
        i < sessions.len() && sessions[i].1.len() <= 60 ==> window_title(Some(active), sessions)
            == sessions[i].1 + " — Kimi Code"@,
        i < sessions.len() && sessions[i].1.len() > 60 ==> window_title(Some(active), sessions)
            == sessions[i].1.take(60) + " — Kimi Code"@,
        i == sessions.len() ==> window_title(Some(active), sessions) == "Kimi Code"@,
        window_title(None, sessions) == "Kimi Code"@,
{
    lemma_title_of(sessions, active, i);
}

proof fn lemma_title_of(sessions: Seq<(Seq<char>, Seq<char>)>, id: Seq<char>, i: int)
    requires
        0 <= i <= sessions.len(),
        i < sessions.len() ==> sessions[i].0 == id,
        forall|k: int| 0 <= k < i ==> (#[trigger] sessions[k]).0 != id,
    ensures
        title_of(sessions, id) == if i < sessions.len() {
            Some(sessions[i].1)
        } else {
            None
        },
    decreases sessions.len(),
{
    if sessions.len() > 0 && i > 0 {
        let rest = sessions.skip(1);
        assert(sessions[0].0 != id);
        assert forall|k: int| 0 <= k < i - 1 implies (#[trigger] rest[k]).0 != id by {
            assert(rest[k] == sessions[k + 1]);
        }
        lemma_title_of(rest, id, i - 1);
    }
}

/// Where no session says that it is busy and the shown one is in the list, every
/// session before it says that it is archived, and it itself does not.
pub proof fn first_live_session_is_picked(items: Seq<JsonView>, k: int)
    requires
        picked(items) < items.len(),
        forall|j: int|
            0 <= j < items.len() ==> (#[trigger] items[j]).member("busy"@) != Some(JsonView::Bool(true)),
    ensures
        0 <= picked(items),
        0 <= k < picked(items) ==> items[k].member("archived"@) == Some(JsonView::Bool(true)),
        items[picked(items)].member("archived"@) != Some(JsonView::Bool(true)),
{
    assert forall|j: int| 0 <= j < items.len() implies !is_busy(#[trigger] items[j]) by {}
    lemma_first_saying(items, "busy"@, true, 0);
    lemma_first_saying(items, "archived"@, false, 0);
    let busy = first_saying(items, "busy"@, true, 0);
    if busy < items.len() {
        assert(!is_busy(items[busy]));
    }
    if 0 <= k < picked(items) {
        assert(says(items[k], "archived"@));
    }
}

/// The session list is taken from the member items of the member data of an
/// answer; without it there is none.
pub proof fn session_lists_are_in_the_answer(answer: JsonView, items: Seq<JsonView>)
    ensures
        lists(answer, items) ==> sessions_of(answer) == Some(offered(items)),
        (forall|x: Seq<JsonView>| !lists(answer, x)) ==> sessions_of(answer) is None,
{
    if let Some(x) = items_of(answer) {
        assert(lists(answer, x));
    }
}

/// The daemon is asked at its own routes.
pub proof fn daemon_is_asked_at_its_routes()
    ensures
        SESSIONS_PATH@ == "/api/v1/sessions?page_size=50"@,
        META_PATH@ == "/api/v1/meta"@,
{
}

/// A list of sessions is viewed as the ids and titles that it holds, in order.
pub proof fn session_lists_are_viewed_as_they_are(v: Seq<(String, String)>, i: int)
    requires
        0 <= i < v.len(),
    ensures
        session_views(v).len() == v.len(),
        session_views(v)[i].0 == v[i].0@,
        session_views(v)[i].1 == v[i].1@,
{
}

} // verus!

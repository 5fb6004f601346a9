//! The list of connections behind the tab bar: what is kept on disk, and what
//! the tab commands do to it.
use vstd::prelude::*;

use crate::connections::{conn_views, label_of, view_label, ConnKind, ConnView, Connection};
use crate::http::answer_view;
use crate::json::{no_members, Json, JsonView};
use crate::net::{addr_of, current_addr, AddrView, DaemonAddr};
use crate::text::{owned, replace, replaced, same, strip_trailing, trim, trim_end_char, trimmed};
use crate::version::opt_view;

verus! {

broadcast use vstd::string::group_string_axioms;

/// Daemon connection details shared with the status webview.
pub struct DaemonState {
    pub base: String,
    pub token: String,
}

/// What is kept of a connection: all of a remote one, of the local one its name.
pub open spec fn kept(c: ConnView) -> ConnView {
    match c.kind {
        ConnKind::Remote => c,
        ConnKind::Local => ConnView { base: seq![], token: seq![], ..c },
    }
}

/// What is kept of a list of connections.
pub open spec fn kept_all(s: Seq<ConnView>) -> Seq<ConnView> {
    s.map_values(|c: ConnView| kept(c))
}

/// The remote connections of a list.
pub open spec fn remotes(s: Seq<ConnView>) -> Seq<ConnView>
    decreases s.len(),
{
    if s.len() == 0 {
        seq![]
    } else if s.last().kind == ConnKind::Remote {
        remotes(s.drop_last()).push(s.last())
    } else {
        remotes(s.drop_last())
    }
}

/// The name of the first local connection.
pub open spec fn local_name_in(s: Seq<ConnView>) -> Option<Seq<char>>
    decreases s.len(),
{
    if s.len() == 0 {
        None
    } else if s[0].kind == ConnKind::Local {
        Some(s[0].name)
    } else {
        local_name_in(s.skip(1))
    }
}

/// The position of the first connection with `id`, or the length of the list
/// where there is none.
pub open spec fn id_at(s: Seq<ConnView>, id: Seq<char>) -> int
    decreases s.len(),
{
    if s.len() == 0 {
        0
    } else if s[0].id == id {
        0
    } else {
        1 + id_at(s.skip(1), id)
    }
}

/// The first connection with `id`.
pub open spec fn with_id(s: Seq<ConnView>, id: Seq<char>) -> Option<ConnView> {
    if id_at(s, id) < s.len() {
        Some(s[id_at(s, id)])
    } else {
        None
    }
}

/// The connections without those that have `id`.
pub open spec fn without_id(s: Seq<ConnView>, id: Seq<char>) -> Seq<ConnView>
    decreases s.len(),
{
    if s.len() == 0 {
        seq![]
    } else if s.last().id == id {
        without_id(s.drop_last(), id)
    } else {
        without_id(s.drop_last(), id).push(s.last())
    }
}

/// No two connections share an id.
pub open spec fn ids_distinct(s: Seq<ConnView>) -> bool {
    forall|i: int, j: int| 0 <= i < j < s.len() ==> s[i].id != s[j].id
}

/// What `id_at` finds.
pub proof fn lemma_id_at(s: Seq<ConnView>, id: Seq<char>)
    ensures
        0 <= id_at(s, id) <= s.len(),
        id_at(s, id) < s.len() ==> s[id_at(s, id)].id == id,
        forall|i: int| 0 <= i < id_at(s, id) ==> (#[trigger] s[i]).id != id,
    decreases s.len(),
{
    if s.len() > 0 && s[0].id != id {
        lemma_id_at(s.skip(1), id);
        assert forall|i: int| 0 <= i < id_at(s, id) implies (#[trigger] s[i]).id != id by {
            if i > 0 {
                assert(s.skip(1)[i - 1] == s[i]);
            }
        }
    }
}

/// What is written to disk: remote connections (token included) plus the local
/// tab's name, so that the file never carries a local token it does not need.
pub fn persisted(conns: &Vec<Connection>) -> (r: Vec<Connection>)
    ensures
        conn_views(r@) == kept_all(conn_views(conns@)),
{
    let mut out: Vec<Connection> = Vec::new();
    let mut i: usize = 0;
    while i < conns.len()
        invariant
            i <= conns@.len(),
            conn_views(out@) == kept_all(conn_views(conns@).take(i as int)),
        decreases conns@.len() - i,
    {
        let ghost before = out@;
        let c = match conns[i].kind {
            ConnKind::Remote => conns[i].clone(),
            ConnKind::Local => Connection {
                id: conns[i].id.clone(),
                name: conns[i].name.clone(),
                kind: ConnKind::Local,
                base: String::new(),
                token: String::new(),
            },
        };
        out.push(c);
        proof {
            assert(conn_views(out@) == conn_views(before).push(c@));
            assert(c@ =~= kept(conns@[i as int]@));
            assert(kept_all(conn_views(conns@).take(i + 1)) == kept_all(
                conn_views(conns@).take(i as int),
            ).push(kept(conns@[i as int]@)));
        }
        i = i + 1;
    }
    proof {
        assert(conn_views(conns@).take(i as int) == conn_views(conns@));
    }
    out
}

/// What is taken over from disk at launch: the remote connections. The local
/// one is derived from the live daemon.
pub fn remote_connections(conns: &Vec<Connection>) -> (r: Vec<Connection>)
    ensures
        conn_views(r@) == remotes(conn_views(conns@)),
{
    let mut out: Vec<Connection> = Vec::new();
    let mut i: usize = 0;
    let ghost cv = conn_views(conns@);
    while i < conns.len()
        invariant
            cv == conn_views(conns@),
            i <= conns@.len(),
            conn_views(out@) == remotes(cv.take(i as int)),
        decreases conns@.len() - i,
    {
        proof {
            assert(cv.take(i + 1).drop_last() == cv.take(i as int));
            assert(cv.take(i + 1).last() == conns@[i as int]@);
        }
        if conns[i].kind == ConnKind::Remote {
            let ghost before = out@;
            let c = conns[i].clone();
            out.push(c);
            proof {
                assert(conn_views(out@) == conn_views(before).push(c@));
            }
        }
        i = i + 1;
    }
    proof {
        assert(cv.take(i as int) == cv);
    }
    out
}

/// The persisted local tab name, if there is one.
pub fn local_name(conns: &Vec<Connection>) -> (r: Option<String>)
    ensures
        crate::web::opt_text(r) == local_name_in(conn_views(conns@)),
{
    let mut i: usize = 0;
    let ghost cv = conn_views(conns@);
    proof {
        assert(cv.skip(0) == cv);
    }
    while i < conns.len()
        invariant
            cv == conn_views(conns@),
            i <= conns@.len(),
            local_name_in(cv) == local_name_in(cv.skip(i as int)),
        decreases conns@.len() - i,
    {
        proof {
            assert(cv.skip(i as int)[0] == conns@[i as int]@);
            assert(cv.skip(i as int).skip(1) == cv.skip(i + 1));
        }
        if conns[i].kind == ConnKind::Local {
            return Some(conns[i].name.clone());
        }
        i = i + 1;
    }
    None
}

fn position(conns: &Vec<Connection>, id: &str) -> (r: Option<usize>)
    ensures
        match r {
            Some(i) => i == id_at(conn_views(conns@), id@) && i < conns@.len(),
            None => id_at(conn_views(conns@), id@) == conns@.len(),
        },
{
    let mut i: usize = 0;
    let ghost cv = conn_views(conns@);
    proof {
        assert(cv.skip(0) == cv);
    }
    while i < conns.len()
        invariant
            cv == conn_views(conns@),
            i <= conns@.len(),
            id_at(cv, id@) == i + id_at(cv.skip(i as int), id@),
        decreases conns@.len() - i,
    {
        proof {
            assert(cv.skip(i as int)[0] == conns@[i as int]@);
            assert(cv.skip(i as int).skip(1) == cv.skip(i + 1));
        }
        if same(conns[i].id.as_str(), id) {
            return Some(i);
        }
        i = i + 1;
    }
    None
}

/// The connection with `id`, cloned out of the list.
pub fn find_connection(conns: &Vec<Connection>, id: &str) -> (r: Option<Connection>)
    ensures
        match r {
            Some(c) => with_id(conn_views(conns@), id@) == Some(c@),
            None => with_id(conn_views(conns@), id@) is None,
        },
{
    match position(conns, id) {
        Some(i) => Some(conns[i].clone()),
        None => None,
    }
}

/// Adds a remote connection, unless its address is there already.
pub fn add_connection(conns: &mut Vec<Connection>, conn: Connection) -> (r: Result<(), String>)
    ensures
        match r {
            Ok(_) => with_id(conn_views(old(conns)@), conn@.id) is None && conn_views(final(conns)@)
                == conn_views(old(conns)@).push(conn@),
            Err(e) => with_id(conn_views(old(conns)@), conn@.id) is Some && e@ == "该地址已添加"@
                && final(conns)@ == old(conns)@,
        },
{
    match position(conns, conn.id.as_str()) {
        Some(_) => Err(owned("该地址已添加")),
        None => {
            conns.push(conn);
            proof {
                assert(conn_views(conns@) == conn_views(old(conns)@).push(conn@));
            }
            Ok(())
        },
    }
}

/// The daemon to probe before a remote connection is accepted.
pub fn remote_probe(conn: &Connection) -> (r: Result<DaemonAddr, String>)
    ensures
        match r {
            Ok(a) => addr_of(conn@.base) == Some(a@),
            Err(e) => addr_of(conn@.base) is None && e@ == "地址无效"@,
        },
{
    match current_addr(conn.base.as_str()) {
        Some(a) => Ok(a),
        None => Err(owned("地址无效")),
    }
}

/// The report of a remote daemon that does not answer.
pub open spec fn unreachable_remote(base: Seq<char>, e: Seq<char>) -> Seq<char> {
    "无法连接 "@ + base + "("@ + e + ")"@
}

/// Adds a remote connection once its daemon was probed: a bad address or token
/// fails here with a clear message rather than as a blank tab.
pub fn add_remote_connection(
    conns: &mut Vec<Connection>,
    conn: Connection,
    probe: Result<(), String>,
) -> (r: Result<(), String>)
    ensures
        match probe {
            Err(e) => r matches Err(f) && f@ == unreachable_remote(conn@.base, e@) && final(conns)@
                == old(conns)@,
            Ok(_) => match r {
                Ok(_) => with_id(conn_views(old(conns)@), conn@.id) is None && conn_views(
                    final(conns)@,
                ) == conn_views(old(conns)@).push(conn@),
                Err(e) => with_id(conn_views(old(conns)@), conn@.id) is Some && e@ == "该地址已添加"@
                    && final(conns)@ == old(conns)@,
            },
        },
{
    match probe {
        Err(e) => {
            let mut message = owned("无法连接 ");
            message.append(conn.base.as_str());
            message.append("(");
            message.append(e.as_str());
            message.append(")");
            Err(message)
        },
        Ok(_) => add_connection(conns, conn),
    }
}

/// Removes a connection from the list. The local connection cannot be removed.
pub fn remove_connection(conns: &mut Vec<Connection>, id: &str) -> (r: Result<(), String>)
    ensures
        match r {
            Ok(_) => id@ != "local"@ && conn_views(final(conns)@) == without_id(
                conn_views(old(conns)@),
                id@,
            ),
            Err(e) => id@ == "local"@ && e@ == "本地连接不能删除"@ && final(conns)@ == old(conns)@,
        },
{
    if same(id, "local") {
        return Err(owned("本地连接不能删除"));
    }
    let mut out: Vec<Connection> = Vec::new();
    let mut i: usize = 0;
    let ghost cv = conn_views(conns@);
    while i < conns.len()
        invariant
            cv == conn_views(conns@),
            conns@ == old(conns)@,
            i <= conns@.len(),
            conn_views(out@) == without_id(cv.take(i as int), id@),
        decreases conns@.len() - i,
    {
        proof {
            assert(cv.take(i + 1).drop_last() == cv.take(i as int));
            assert(cv.take(i + 1).last() == conns@[i as int]@);
        }
        if !same(conns[i].id.as_str(), id) {
            let ghost before = out@;
            let c = conns[i].clone();
            out.push(c);
            proof {
                assert(conn_views(out@) == conn_views(before).push(c@));
            }
        }
        i = i + 1;
    }
    proof {
        assert(cv.take(i as int) == cv);
    }
    *conns = out;
    Ok(())
}

/// The tab to activate once `id` is removed: the local one, where the removed
/// one was on screen.
pub fn activate_after_removal(active: Option<&str>, id: &str) -> (r: Option<&'static str>)
    ensures
        r is Some <==> opt_view(active) == Some(id@),
        r matches Some(next) ==> next@ == "local"@,
{
    match active {
        Some(a) => if same(a, id) {
            Some("local")
        } else {
            None
        },
        None => None,
    }
}

/// Renames a connection's tab.
pub fn rename_connection(conns: &mut Vec<Connection>, id: &str, name: &str) -> (r: Result<
    (),
    String,
>)
    ensures
        match r {
            Ok(_) => trimmed(name@).len() > 0 && with_id(conn_views(old(conns)@), id@) is Some
                && conn_views(final(conns)@) == conn_views(old(conns)@).update(
                id_at(conn_views(old(conns)@), id@),
                (ConnView {
                    name: trimmed(name@),
                    ..conn_views(old(conns)@)[id_at(conn_views(old(conns)@), id@)]
                }),
            ),
            Err(e) => final(conns)@ == old(conns)@ && if trimmed(name@).len() == 0 {
                e@ == "名称不能为空"@
            } else {
                with_id(conn_views(old(conns)@), id@) is None && e@ == "连接不存在"@
            },
        },
{
    let given = trim(name);
    if given.as_str().is_empty() {
        return Err(owned("名称不能为空"));
    }
    match position(conns, id) {
        Some(i) => {
            let old_conn = conns[i].clone();
            let c = Connection { name: given, ..old_conn };
            conns.set(i, c);
            proof {
                let n = id_at(conn_views(old(conns)@), id@);
                assert(conn_views(conns@) == conn_views(old(conns)@).update(n, c@));
                assert(c@ =~= (ConnView {
                    name: trimmed(name@),
                    ..conn_views(old(conns)@)[n]
                }));
            }
            Ok(())
        },
        None => Err(owned("连接不存在")),
    }
}

/// Whether the tab can be switched to.
pub fn switch_connection(conns: &Vec<Connection>, id: &str) -> (r: Result<(), String>)
    ensures
        match r {
            Ok(_) => with_id(conn_views(conns@), id@) is Some,
            Err(e) => with_id(conn_views(conns@), id@) is None && e@ == "连接不存在"@,
        },
{
    match position(conns, id) {
        Some(_) => Ok(()),
        None => Err(owned("连接不存在")),
    }
}

/// The list with `conn` registered: in place of the first connection with its
/// id, or at the end.
pub open spec fn registered(s: Seq<ConnView>, conn: ConnView) -> Seq<ConnView> {
    if id_at(s, conn.id) < s.len() {
        s.update(id_at(s, conn.id), conn)
    } else {
        s.push(conn)
    }
}

/// Registers (or refreshes) a connection so that the tab bar and every lookup by
/// id see it. The local entry is re-derived on each launch, so this replaces
/// rather than duplicates it.
pub fn register(conns: &mut Vec<Connection>, conn: &Connection)
    ensures
        conn_views(final(conns)@) == registered(conn_views(old(conns)@), conn@),
{
    let c = conn.clone();
    match position(conns, conn.id.as_str()) {
        Some(i) => {
            conns.set(i, c);
            proof {
                assert(conn_views(conns@) == conn_views(old(conns)@).update(i as int, c@));
            }
        },
        None => {
            conns.push(c);
            proof {
                assert(conn_views(conns@) == conn_views(old(conns)@).push(c@));
            }
        },
    }
}

/// The daemon that becomes the active one with the tab `id`.
pub fn daemon_of(conns: &Vec<Connection>, id: &str) -> (r: Option<DaemonState>)
    ensures
        match r {
            Some(d) => with_id(conn_views(conns@), id@) matches Some(c) && d.base@ == c.base
                && d.token@ == c.token,
            None => with_id(conn_views(conns@), id@) is None,
        },
{
    match position(conns, id) {
        Some(i) => Some(
            DaemonState { base: conns[i].base.clone(), token: conns[i].token.clone() },
        ),
        None => None,
    }
}

/// The daemon's connection details, as the status webview is told.
pub fn daemon_info(state: Option<&DaemonState>) -> (r: Result<Json, String>)
    ensures
        match state {
            Some(d) => r matches Ok(v) && v@ == no_members().with(
                "base"@,
                JsonView::Text(d.base@),
            ).with("token"@, JsonView::Text(d.token@)),
            None => r matches Err(e) && e@ == "daemon 尚未就绪"@,
        },
{
    match state {
        Some(d) => Ok(
            Json::object().with("base", Json::text(d.base.as_str())).with(
                "token",
                Json::text(d.token.as_str()),
            ),
        ),
        None => Err(owned("daemon 尚未就绪")),
    }
}

/// What becomes of one connection's view.
pub struct ViewState {
    pub label: String,
    pub shown: bool,
}

/// The view states of a list of connections: those with the active id are shown.
pub open spec fn view_state_of(c: ConnView, active: Option<Seq<char>>) -> (Seq<char>, bool) {
    (label_of(c.id), active == Some(c.id))
}

/// Which views to show and which to hide.
pub fn view_visibility(conns: &Vec<Connection>, active: Option<&str>) -> (r: Vec<ViewState>)
    ensures
        r@.len() == conns@.len(),
        forall|i: int|
            0 <= i < r@.len() ==> ((#[trigger] r@[i]).label@, r@[i].shown) == view_state_of(
                conns@[i]@,
                opt_view(active),
            ),
{
    let mut out: Vec<ViewState> = Vec::new();
    let mut i: usize = 0;
    while i < conns.len()
        invariant
            i <= conns@.len(),
            out@.len() == i,
            forall|k: int|
                0 <= k < i ==> ((#[trigger] out@[k]).label@, out@[k].shown) == view_state_of(
                    conns@[k]@,
                    opt_view(active),
                ),
        decreases conns@.len() - i,
    {
        let shown = match active {
            Some(a) => same(a, conns[i].id.as_str()),
            None => false,
        };
        out.push(ViewState { label: view_label(conns[i].id.as_str()), shown });
        i = i + 1;
    }
    out
}

/// The word for a kind of connection.
pub open spec fn kind_word(k: ConnKind) -> Seq<char> {
    match k {
        ConnKind::Local => "local"@,
        ConnKind::Remote => "remote"@,
    }
}

fn kind_name(k: ConnKind) -> (r: &'static str)
    ensures
        r@ == kind_word(k),
{
    match k {
        ConnKind::Local => "local",
        ConnKind::Remote => "remote",
    }
}

/// What the tab bar is told of one connection.
pub open spec fn tab_entry(c: ConnView) -> JsonView {
    no_members().with("id"@, JsonView::Text(c.id)).with("name"@, JsonView::Text(c.name)).with(
        "kind"@,
        JsonView::Text(kind_word(c.kind)),
    )
}

/// What the status page is told of one connection: never its token.
pub open spec fn list_entry(c: ConnView) -> JsonView {
    tab_entry(c).with("base"@, JsonView::Text(c.base))
}

/// An optional text as a document.
pub open spec fn text_or_null(s: Option<Seq<char>>) -> JsonView {
    match s {
        Some(s) => JsonView::Text(s),
        None => JsonView::Null,
    }
}

fn json_or_null(s: Option<&str>) -> (r: Json)
    ensures
        r@ == text_or_null(opt_view(s)),
{
    match s {
        Some(s) => Json::text(s),
        None => Json::Null,
    }
}

/// Every connection plus which one is active, as the tab bar is told.
pub open spec fn tabs_view(s: Seq<ConnView>, active: Option<Seq<char>>) -> JsonView {
    no_members().with(
        "connections"@,
        JsonView::Array(s.map_values(|c: ConnView| tab_entry(c))),
    ).with("active"@, text_or_null(active))
}

/// Every connection plus which one is active, as the status page is told.
pub open spec fn list_view(s: Seq<ConnView>, active: Option<Seq<char>>) -> JsonView {
    no_members().with(
        "connections"@,
        JsonView::Array(s.map_values(|c: ConnView| list_entry(c))),
    ).with("active"@, text_or_null(active))
}

fn entry_of(c: &Connection) -> (r: Json)
    ensures
        r@ == tab_entry(c@),
{
    Json::object().with("id", Json::text(c.id.as_str())).with(
        "name",
        Json::text(c.name.as_str()),
    ).with("kind", Json::text(kind_name(c.kind)))
}

/// The tab bar's contents.
pub fn tabs_doc(conns: &Vec<Connection>, active: Option<&str>) -> (r: Json)
    ensures
        r@ == tabs_view(conn_views(conns@), opt_view(active)),
{
    let mut items: Vec<Json> = Vec::new();
    let mut i: usize = 0;
    while i < conns.len()
        invariant
            i <= conns@.len(),
            items@.len() == i,
            forall|k: int| 0 <= k < i ==> (#[trigger] items@[k])@ == tab_entry(conns@[k]@),
        decreases conns@.len() - i,
    {
        items.push(entry_of(&conns[i]));
        i = i + 1;
    }
    proof {
        assert(Json::Array(items)@->Array_0 =~= conn_views(conns@).map_values(
            |c: ConnView| tab_entry(c),
        ));
    }
    Json::object().with("connections", Json::Array(items)).with("active", json_or_null(active))
}

/// Every connection plus which one is active.
pub fn list_connections(conns: &Vec<Connection>, active: Option<&str>) -> (r: Json)
    ensures
        r@ == list_view(conn_views(conns@), opt_view(active)),
{
    let mut items: Vec<Json> = Vec::new();
    let mut i: usize = 0;
    while i < conns.len()
        invariant
            i <= conns@.len(),
            items@.len() == i,
            forall|k: int| 0 <= k < i ==> (#[trigger] items@[k])@ == list_entry(conns@[k]@),
        decreases conns@.len() - i,
    {
        items.push(entry_of(&conns[i]).with("base", Json::text(conns[i].base.as_str())));
        i = i + 1;
    }
    proof {
        assert(Json::Array(items)@->Array_0 =~= conn_views(conns@).map_values(
            |c: ConnView| list_entry(c),
        ));
    }
    Json::object().with("connections", Json::Array(items)).with("active", json_or_null(active))
}

/// A report of failure.
pub open spec fn failure_view(error: Seq<char>) -> JsonView {
    no_members().with("ok"@, JsonView::Bool(false)).with("error"@, JsonView::Text(error))
}

fn failure_doc(error: &str) -> (r: Json)
    ensures
        r@ == failure_view(error@),
{
    Json::object().with("ok", Json::Bool(false)).with("error", Json::text(error))
}

/// The daemon to probe for a connection's status, or the report where there is
/// none to probe.
pub open spec fn probe_target(s: Seq<ConnView>, id: Seq<char>) -> Result<
    (AddrView, Seq<char>),
    JsonView,
> {
    match with_id(s, id) {
        Some(c) => match addr_of(c.base) {
            Some(a) => Ok((a, c.token)),
            None => Err(failure_view("地址无效"@)),
        },
        None => Err(failure_view("连接不存在"@)),
    }
}

/// Whom to ask for a connection's status, with which token.
pub fn status_target(conns: &Vec<Connection>, id: &str) -> (r: Result<(DaemonAddr, String), Json>)
    ensures
        match r {
            Ok((a, t)) => probe_target(conn_views(conns@), id@) == Ok::<
                (AddrView, Seq<char>),
                JsonView,
            >((a@, t@)),
            Err(e) => probe_target(conn_views(conns@), id@) == Err::<
                (AddrView, Seq<char>),
                JsonView,
            >(e@),
        },
{
    match position(conns, id) {
        Some(i) => match current_addr(conns[i].base.as_str()) {
            Some(a) => Ok((a, conns[i].token.clone())),
            None => Err(failure_doc("地址无效")),
        },
        None => Err(failure_doc("连接不存在")),
    }
}

/// A connection's status, for what the daemon answered.
pub open spec fn status_view(meta: Result<JsonView, Seq<char>>) -> JsonView {
    match meta {
        Ok(m) => no_members().with("ok"@, JsonView::Bool(true)).with(
            "version"@,
            JsonView::Text(
                match m.nested("data"@).text_at("server_version"@) {
                    Some(v) => v,
                    None => seq![],
                },
            ),
        ),
        Err(e) => failure_view(e),
    }
}

/// Reachability of a connection's daemon, and the version that it reports.
pub fn connection_status(meta: Result<Json, String>) -> (r: Json)
    ensures
        r@ == status_view(answer_view(meta)),
{
    match meta {
        Ok(m) => {
            let version = match m.member("data") {
                Some(d) => match d.text_at("server_version") {
                    Some(v) => Json::text(v),
                    None => Json::Text(String::new()),
                },
                None => Json::Text(String::new()),
            };
            Json::object().with("ok", Json::Bool(true)).with("version", version)
        },
        Err(e) => failure_doc(e.as_str()),
    }
}

/// What a remote daemon's page is allowed, and under which name.
pub struct Capability {
    pub identifier: String,
    pub origin: String,
    pub permissions: Vec<&'static str>,
}

/// The origin of a base address.
pub open spec fn origin_of(base: Seq<char>) -> Seq<char> {
    trim_end_char(base, '/')
}

/// The name under which an origin is granted its capability.
pub open spec fn capability_name(base: Seq<char>) -> Seq<char> {
    "remote-"@ + replaced(
        replaced(replaced(origin_of(base), ':', "-"@), '/', "-"@),
        '.',
        "-"@,
    )
}

/// The desktop-bridge commands that a remote page may call.
pub open spec fn remote_permissions() -> Seq<Seq<char>> {
    seq![
        "core:window:allow-start-dragging"@,
        "core:window:allow-internal-toggle-maximize"@,
        "notification:default"@,
        "allow-notify"@,
        "allow-focus-window"@,
        "allow-toggle-maximize"@,
        "allow-set-active-session"@,
    ]
}

/// The runtime capability that lets a remote daemon's page call the shell's
/// desktop-bridge commands.
pub fn remote_capability(base: &str) -> (r: Capability)
    ensures
        r.identifier@ == capability_name(base@),
        r.origin@ == origin_of(base@),
        r.permissions@.map_values(|p: &'static str| p@) == remote_permissions(),
{
    let origin = strip_trailing(base, '/');
    let colons = replace(origin.as_str(), ':', "-");
    let slashes = replace(colons.as_str(), '/', "-");
    let dots = replace(slashes.as_str(), '.', "-");
    let mut identifier = owned("remote-");
    identifier.append(dots.as_str());
    let mut permissions: Vec<&'static str> = Vec::new();
    permissions.push("core:window:allow-start-dragging");
    permissions.push("core:window:allow-internal-toggle-maximize");
    permissions.push("notification:default");
    permissions.push("allow-notify");
    permissions.push("allow-focus-window");
    permissions.push("allow-toggle-maximize");
    permissions.push("allow-set-active-session");
    proof {
        assert(permissions@.map_values(|p: &'static str| p@) =~= remote_permissions());
    }
    Capability { identifier, origin, permissions }
}

/// What opening a connection asks for.
pub struct OpenPlan {
    /// The capability to grant first.
    pub grant: Option<Capability>,
    /// Whether there is a page to go to: the local daemon may not be known yet.
    pub navigate: bool,
}

/// What to do to open a connection's view.
pub fn open_plan(conn: &Connection) -> (r: OpenPlan)
    ensures
        r.grant is Some <==> conn@.kind == ConnKind::Remote,
        r.grant matches Some(c) ==> c.identifier@ == capability_name(conn@.base) && c.origin@
            == origin_of(conn@.base) && c.permissions@.map_values(|p: &'static str| p@)
            == remote_permissions(),
        r.navigate <==> conn@.base.len() > 0,
{
    let grant = if conn.kind == ConnKind::Remote {
        Some(remote_capability(conn.base.as_str()))
    } else {
        None
    };
    OpenPlan { grant, navigate: !conn.base.as_str().is_empty() }
}

/// The local tab's name: the one kept, or the default.
pub fn local_tab_name(kept_name: Option<String>) -> (r: String)
    ensures
        r@ == match kept_name {
            Some(n) => n@,
            None => "本地"@,
        },
{
    match kept_name {
        Some(n) => n,
        None => owned("本地"),
    }
}

/// Nothing that is kept of the local connection opens it: its address and its
/// token stay out of the file. Everything of a remote one is kept.
pub proof fn local_credentials_are_not_kept(s: Seq<ConnView>, i: int)
    requires
        0 <= i < s.len(),
    ensures
        kept_all(s).len() == s.len(),
        kept_all(s)[i].id == s[i].id,
        kept_all(s)[i].name == s[i].name,
        kept_all(s)[i].kind == s[i].kind,
        s[i].kind == ConnKind::Local ==> kept_all(s)[i].base.len() == 0 && kept_all(s)[i].token.len()
            == 0,
        s[i].kind == ConnKind::Remote ==> kept_all(s)[i] == s[i],
{
}

/// What is kept gives back the remote connections and the local tab's name.
pub proof fn kept_connections_read_back(s: Seq<ConnView>)
    ensures
        remotes(kept_all(s)) == remotes(s),
        local_name_in(kept_all(s)) == local_name_in(s),
    decreases s.len(),
{
    if s.len() > 0 {
        kept_connections_read_back(s.drop_last());
        assert(kept_all(s).drop_last() == kept_all(s.drop_last()));
        lemma_local_name_kept(s);
    }
}

proof fn lemma_local_name_kept(s: Seq<ConnView>)
    ensures
        local_name_in(kept_all(s)) == local_name_in(s),
    decreases s.len(),
{
    if s.len() > 0 {
        lemma_local_name_kept(s.skip(1));
        assert(kept_all(s).skip(1) == kept_all(s.skip(1)));
    }
}

/// Launching takes over no local entry from disk, and every remote one.
pub proof fn only_remotes_are_taken_over(s: Seq<ConnView>, c: ConnView)
    ensures
        remotes(s).contains(c) <==> s.contains(c) && c.kind == ConnKind::Remote,
    decreases s.len(),
{
    if s.len() > 0 {
        let rest = s.drop_last();
        only_remotes_are_taken_over(rest, c);
        if remotes(s).contains(c) {
            let k = choose|k: int| 0 <= k < remotes(s).len() && remotes(s)[k] == c;
            if k < remotes(rest).len() {
                assert(remotes(rest)[k] == c);
                let j = choose|j: int| 0 <= j < rest.len() && rest[j] == c;
                assert(s[j] == c);
            } else {
                assert(s[s.len() - 1] == c);
            }
        }
        if s.contains(c) && c.kind == ConnKind::Remote {
            let j = choose|j: int| 0 <= j < s.len() && s[j] == c;
            if j < rest.len() {
                assert(rest[j] == c);
                let k = choose|k: int| 0 <= k < remotes(rest).len() && remotes(rest)[k] == c;
                assert(remotes(s)[k] == c);
            } else {
                assert(remotes(s)[remotes(rest).len() as int] == c);
            }
        }
    }
}

proof fn lemma_without_contains(s: Seq<ConnView>, id: Seq<char>, c: ConnView)
    ensures
        without_id(s, id).contains(c) <==> s.contains(c) && c.id != id,
    decreases s.len(),
{
    if s.len() > 0 {
        let rest = s.drop_last();
        lemma_without_contains(rest, id, c);
        if without_id(s, id).contains(c) {
            let k = choose|k: int| 0 <= k < without_id(s, id).len() && without_id(s, id)[k] == c;
            if k < without_id(rest, id).len() {
                assert(without_id(rest, id)[k] == c);
                let j = choose|j: int| 0 <= j < rest.len() && rest[j] == c;
                assert(s[j] == c);
            } else {
                assert(s[s.len() - 1] == c);
            }
        }
        if s.contains(c) && c.id != id {
            let j = choose|j: int| 0 <= j < s.len() && s[j] == c;
            if j < rest.len() {
                assert(rest[j] == c);
                let k = choose|k: int|
                    0 <= k < without_id(rest, id).len() && without_id(rest, id)[k] == c;
                assert(without_id(s, id)[k] == c);
            } else {
                assert(without_id(s, id)[without_id(rest, id).len() as int] == c);
            }
        }
    }
}

proof fn lemma_without_distinct(s: Seq<ConnView>, id: Seq<char>)
    requires
        ids_distinct(s),
    ensures
        ids_distinct(without_id(s, id)),
    decreases s.len(),
{
    if s.len() > 0 {
        let rest = s.drop_last();
        let w = without_id(rest, id);
        lemma_without_distinct(rest, id);
        if s.last().id != id {
            assert forall|i: int, j: int| 0 <= i < j < w.len() + 1 implies w.push(s.last())[i].id
                != w.push(s.last())[j].id by {
                if j == w.len() {
                    assert(w.contains(w[i]));
                    lemma_without_contains(rest, id, w[i]);
                    let k = choose|k: int| 0 <= k < rest.len() && rest[k] == w[i];
                    assert(s[k].id != s[s.len() - 1].id);
                }
            }
        }
    }
}

/// Ids stay distinct whatever is done to the list: an address is added once, and
/// removing, renaming or registering a connection duplicates none.
pub proof fn ids_stay_distinct(s: Seq<ConnView>, c: ConnView, id: Seq<char>, name: Seq<char>)
    requires
        ids_distinct(s),
    ensures
        with_id(s, c.id) is None ==> ids_distinct(s.push(c)),
        ids_distinct(without_id(s, id)),
        ids_distinct(registered(s, c)),
        with_id(s, id) is Some ==> ids_distinct(
            s.update(id_at(s, id), (ConnView { name, ..s[id_at(s, id)] })),
        ),
{
    lemma_id_at(s, c.id);
    lemma_id_at(s, id);
    lemma_without_distinct(s, id);
    if with_id(s, id) is Some {
        let n = id_at(s, id);
        let t = s.update(n, (ConnView { name, ..s[n] }));
        assert forall|i: int, j: int| 0 <= i < j < t.len() implies t[i].id != t[j].id by {
            assert(t[i].id == s[i].id);
            assert(t[j].id == s[j].id);
        }
    }
    let r = registered(s, c);
    assert forall|i: int, j: int| 0 <= i < j < r.len() implies r[i].id != r[j].id by {
        if id_at(s, c.id) < s.len() {
            assert(r[i].id == s[i].id);
            assert(r[j].id == s[j].id);
        }
    }
}

/// Removing a tab removes that one and no other; what it is asked for under its
/// id is then not there.
pub proof fn removed_is_gone_and_others_stay(s: Seq<ConnView>, id: Seq<char>, c: ConnView)
    ensures
        with_id(without_id(s, id), id) is None,
        without_id(s, id).contains(c) <==> s.contains(c) && c.id != id,
{
    lemma_without_contains(s, id, c);
    let w = without_id(s, id);
    lemma_id_at(w, id);
    if id_at(w, id) < w.len() {
        assert(w.contains(w[id_at(w, id)]));
        lemma_without_contains(s, id, w[id_at(w, id)]);
    }
}

/// A registered connection is found under its id as it was registered, and
/// every other id finds what it found before.
pub proof fn registered_is_found(s: Seq<ConnView>, c: ConnView, other: Seq<char>)
    requires
        other != c.id,
    ensures
        with_id(registered(s, c), c.id) == Some(c),
        with_id(registered(s, c), other) == with_id(s, other),
{
    let r = registered(s, c);
    lemma_id_at(s, c.id);
    lemma_id_at(s, other);
    lemma_id_at(r, c.id);
    lemma_id_at(r, other);
    let n = id_at(s, c.id);
    assert(r[n] == c);
    let m = id_at(r, c.id);
    if m > n {
        assert(r[n].id != c.id);
    }
    if m < n {
        assert(r[m] == s[m]);
    }
    let a = id_at(s, other);
    let b = id_at(r, other);
    if b < a {
        if b < s.len() && b != n {
            assert(r[b] == s[b]);
        }
    }
    if a < b && a < s.len() {
        assert(r[a] == s[a]);
    }
}

/// With distinct ids exactly the active connection's view is shown.
pub proof fn one_view_is_shown(s: Seq<ConnView>, active: Seq<char>, i: int)
    requires
        ids_distinct(s),
        with_id(s, active) is Some,
        0 <= i < s.len(),
    ensures
        view_state_of(s[i], Some(active)).1 <==> i == id_at(s, active),
{
    lemma_id_at(s, active);
}

/// The status page and the tab bar are told no token.
pub proof fn pages_are_told_no_token(c: ConnView)
    ensures
        tab_entry(c).member("token"@) is None,
        list_entry(c).member("token"@) is None,
{
    reveal_strlit("token");
    reveal_strlit("id");
    reveal_strlit("name");
    reveal_strlit("kind");
    reveal_strlit("base");
    assert("token"@.len() == 5);
    assert("id"@.len() == 2);
    assert("name"@.len() == 4);
    assert("kind"@.len() == 4);
    assert("base"@.len() == 4);
}

/// The entries of the connections in a document.
pub open spec fn entries_in(doc: JsonView) -> Seq<JsonView> {
    match doc.member("connections"@) {
        Some(JsonView::Array(items)) => items,
        _ => seq![],
    }
}

/// An entry names a connection by its own id, name and kind.
pub open spec fn names_connection(entry: JsonView, c: ConnView) -> bool {
    &&& entry.member("id"@) == Some(JsonView::Text(c.id))
    &&& entry.member("name"@) == Some(JsonView::Text(c.name))
    &&& c.kind == ConnKind::Local ==> entry.member("kind"@) == Some(JsonView::Text("local"@))
    &&& c.kind == ConnKind::Remote ==> entry.member("kind"@) == Some(JsonView::Text("remote"@))
}

/// The tab bar and the status page list every connection in order, each under its
/// own id, name and kind, and the status page with its base.
pub proof fn every_connection_is_listed(s: Seq<ConnView>, active: Option<Seq<char>>, i: int)
    requires
        0 <= i < s.len(),
    ensures
        entries_in(tabs_view(s, active)).len() == s.len(),
        entries_in(list_view(s, active)).len() == s.len(),
        names_connection(entries_in(tabs_view(s, active))[i], s[i]),
        names_connection(entries_in(list_view(s, active))[i], s[i]),
        entries_in(list_view(s, active))[i].member("base"@) == Some(JsonView::Text(s[i].base)),
{
    reveal_strlit("id");
    reveal_strlit("name");
    reveal_strlit("kind");
    reveal_strlit("base");
    reveal_strlit("connections");
    reveal_strlit("active");
    assert("id"@.len() == 2);
    assert("name"@.len() == 4);
    assert("kind"@.len() == 4);
    assert("base"@.len() == 4);
    assert("connections"@.len() == 11);
    assert("active"@.len() == 6);
    assert("name"@[0] != "kind"@[0]);
    assert("name"@[0] != "base"@[0]);
    assert("kind"@[0] != "base"@[0]);
}

/// The id that a listed entry hands back finds a connection of that id, the very
/// one that it stands for where ids are distinct.
pub proof fn listed_ids_find_their_connection(s: Seq<ConnView>, active: Option<Seq<char>>, i: int)
    requires
        0 <= i < s.len(),
    ensures
        match entries_in(tabs_view(s, active))[i].member("id"@) {
            Some(JsonView::Text(id)) => match with_id(s, id) {
                Some(c) => c.id == id && s.contains(c) && (ids_distinct(s) ==> c == s[i]),
                None => false,
            },
            _ => false,
        },
        entries_in(list_view(s, active))[i].member("id"@) == entries_in(tabs_view(s, active))[i].member(
            "id"@,
        ),
{
    every_connection_is_listed(s, active, i);
    lemma_id_at(s, s[i].id);
    let n = id_at(s, s[i].id);
    assert(n <= i);
    assert(s[n].id == s[i].id);
}

/// The documents name the active connection by its id, so that its entry is the
/// one whose id equals it; without one they say null.
pub proof fn active_entry_is_the_active_connection(s: Seq<ConnView>, active: Seq<char>, i: int)
    requires
        0 <= i < s.len(),
    ensures
        tabs_view(s, Some(active)).member("active"@) == Some(JsonView::Text(active)),
        list_view(s, Some(active)).member("active"@) == Some(JsonView::Text(active)),
        tabs_view(s, None).member("active"@) == Some(JsonView::Null),
        list_view(s, None).member("active"@) == Some(JsonView::Null),
        entries_in(tabs_view(s, Some(active)))[i].member("id"@) == tabs_view(s, Some(active)).member(
            "active"@,
        ) <==> s[i].id == active,
{
    reveal_strlit("connections");
    reveal_strlit("active");
    assert("connections"@.len() == 11);
    assert("active"@.len() == 6);
    every_connection_is_listed(s, Some(active), i);
}

proof fn lemma_found(s: Seq<ConnView>, id: Seq<char>, i: int)
    requires
        0 <= i < s.len(),
        s[i].id == id,
        forall|k: int| 0 <= k < i ==> (#[trigger] s[k]).id != id,
    ensures
        id_at(s, id) == i,
{
    lemma_id_at(s, id);
    if id_at(s, id) < i {
        assert(s[id_at(s, id)].id != id);
    }
    if id_at(s, id) > i {
        assert(s[i].id != id);
    }
}

/// A connection is looked up by its id alone: the first that has it is found, and
/// none where none has it.
pub proof fn connections_are_found_by_id(s: Seq<ConnView>, id: Seq<char>)
    ensures
        match with_id(s, id) {
            Some(c) => exists|i: int|
                0 <= i < s.len() && #[trigger] s[i] == c && c.id == id && forall|k: int|
                    0 <= k < i ==> (#[trigger] s[k]).id != id,
            None => forall|k: int| 0 <= k < s.len() ==> (#[trigger] s[k]).id != id,
        },
{
    lemma_id_at(s, id);
    let i = id_at(s, id);
    if i < s.len() {
        assert(s[i] == with_id(s, id)->0);
    }
}

/// Removing and taking over go connection by connection and keep their order.
pub proof fn lists_keep_their_order(a: Seq<ConnView>, b: Seq<ConnView>, c: ConnView, id: Seq<char>)
    ensures
        without_id(a + b, id) == without_id(a, id) + without_id(b, id),
        without_id(seq![c], id) == if c.id == id {
            Seq::<ConnView>::empty()
        } else {
            seq![c]
        },
        remotes(a + b) == remotes(a) + remotes(b),
        remotes(seq![c]) == if c.kind == ConnKind::Remote {
            seq![c]
        } else {
            Seq::<ConnView>::empty()
        },
    decreases b.len(),
{
    if b.len() > 0 {
        assert((a + b).drop_last() == a + b.drop_last());
        lists_keep_their_order(a, b.drop_last(), c, id);
    } else {
        assert(a + b == a);
    }
    assert(seq![c].drop_last() == Seq::<ConnView>::empty());
    reveal_with_fuel(without_id, 2);
    reveal_with_fuel(remotes, 2);
}

/// Registering touches one place: that of the connection with the same id, or a
/// new one at the end.
pub proof fn registering_touches_one_place(s: Seq<ConnView>, c: ConnView, i: int)
    requires
        0 <= i < s.len(),
    ensures
        registered(s, c).len() == if with_id(s, c.id) is Some {
            s.len()
        } else {
            s.len() + 1
        },
        s[i].id != c.id ==> registered(s, c)[i] == s[i],
        with_id(s, c.id) is None ==> registered(s, c).last() == c,
{
    lemma_id_at(s, c.id);
}

/// The kept name of the local tab is that of the first local entry.
pub proof fn first_local_name_is_kept(s: Seq<ConnView>, i: int)
    requires
        0 <= i <= s.len(),
        i < s.len() ==> s[i].kind == ConnKind::Local,
        forall|k: int| 0 <= k < i ==> (#[trigger] s[k]).kind == ConnKind::Remote,
    ensures
        i < s.len() ==> local_name_in(s) == Some(s[i].name),
        i == s.len() ==> local_name_in(s) is None,
    decreases s.len(),
{
    if s.len() > 0 && i > 0 {
        let rest = s.skip(1);
        assert(s[0].kind == ConnKind::Remote);
        assert forall|k: int| 0 <= k < i - 1 implies (#[trigger] rest[k]).kind == ConnKind::Remote by {
            assert(rest[k] == s[k + 1]);
        }
        first_local_name_is_kept(rest, i - 1);
    }
}

/// A connection's status is asked of the daemon that its own base names, with its
/// own token; a failure is reported as such where there is none to ask.
pub proof fn status_is_asked_of_the_connection(s: Seq<ConnView>, i: int, id: Seq<char>)
    requires
        0 <= i < s.len(),
        s[i].id == id,
        forall|k: int| 0 <= k < i ==> (#[trigger] s[k]).id != id,
    ensures
        match probe_target(s, id) {
            Ok((a, t)) => addr_of(s[i].base) == Some(a) && t == s[i].token,
            Err(doc) => addr_of(s[i].base) is None && doc.member("ok"@) == Some(JsonView::Bool(false))
                && doc.member("error"@) == Some(JsonView::Text("地址无效"@)),
        },
{
    reveal_strlit("ok");
    reveal_strlit("error");
    assert("ok"@.len() == 2);
    assert("error"@.len() == 5);
    lemma_found(s, id, i);
}

/// Of a connection that is not there the status says so.
pub proof fn unknown_connections_have_no_status(s: Seq<ConnView>, id: Seq<char>)
    requires
        forall|k: int| 0 <= k < s.len() ==> (#[trigger] s[k]).id != id,
    ensures
        match probe_target(s, id) {
            Ok(_) => false,
            Err(doc) => doc.member("ok"@) == Some(JsonView::Bool(false)) && doc.member("error"@) == Some(
                JsonView::Text("连接不存在"@),
            ),
        },
{
    reveal_strlit("ok");
    reveal_strlit("error");
    assert("ok"@.len() == 2);
    assert("error"@.len() == 5);
    lemma_id_at(s, id);
    if id_at(s, id) < s.len() {
        assert(s[id_at(s, id)].id != id);
    }
}

/// A daemon that answers is reported as reachable with the version that it tells,
/// or an empty one; one that does not, with its error.
pub proof fn status_tells_the_answer(meta: Result<JsonView, Seq<char>>)
    ensures
        match meta {
            Ok(m) => {
                &&& status_view(meta).member("ok"@) == Some(JsonView::Bool(true))
                &&& match m.member("data"@) {
                    Some(data) => match data.member("server_version"@) {
                        Some(JsonView::Text(v)) => status_view(meta).member("version"@) == Some(
                            JsonView::Text(v),
                        ),
                        _ => status_view(meta).text_at("version"@) == Some(Seq::<char>::empty()),
                    },
                    None => status_view(meta).text_at("version"@) == Some(Seq::<char>::empty()),
                }
            },
            Err(e) => status_view(meta).member("ok"@) == Some(JsonView::Bool(false)) && status_view(
                meta,
            ).member("error"@) == Some(JsonView::Text(e)),
        },
{
    reveal_strlit("ok");
    reveal_strlit("error");
    reveal_strlit("version");
    assert("ok"@.len() == 2);
    assert("error"@.len() == 5);
    assert("version"@.len() == 7);
}

/// A remote page is granted its commands for its own origin alone: the base
/// without the slashes at its end.
pub proof fn capability_is_for_the_own_origin(base: Seq<char>)
    ensures
        origin_of(base).is_prefix_of(base),
        origin_of(base).len() > 0 ==> origin_of(base).last() != '/',
        forall|k: int| origin_of(base).len() <= k < base.len() ==> #[trigger] base[k] == '/',
{
    crate::text::trailing_run_is_cut(base, '/');
}

/// A remote page may move and maximize the window, notify, focus it and say which
/// session it shows, and nothing else.
pub proof fn remote_pages_may_do_seven_things(p: Seq<char>)
    ensures
        remote_permissions().contains(p) <==> p == "core:window:allow-start-dragging"@ || p
            == "core:window:allow-internal-toggle-maximize"@ || p == "notification:default"@ || p
            == "allow-notify"@ || p == "allow-focus-window"@ || p == "allow-toggle-maximize"@ || p
            == "allow-set-active-session"@,
{
    let r = remote_permissions();
    assert(r[0] == "core:window:allow-start-dragging"@);
    assert(r[1] == "core:window:allow-internal-toggle-maximize"@);
    assert(r[2] == "notification:default"@);
    assert(r[3] == "allow-notify"@);
    assert(r[4] == "allow-focus-window"@);
    assert(r[5] == "allow-toggle-maximize"@);
    assert(r[6] == "allow-set-active-session"@);
}

proof fn lemma_replaced_by_one(s: Seq<char>, c: char, d: Seq<char>)
    requires
        d.len() == 1,
    ensures
        replaced(s, c, d).len() == s.len(),
        forall|i: int|
            0 <= i < s.len() ==> #[trigger] replaced(s, c, d)[i] == if s[i] == c {
                d[0]
            } else {
                s[i]
            },
    decreases s.len(),
{
    if s.len() > 0 {
        lemma_replaced_by_one(s.drop_last(), c, d);
    }
}

/// The name of a capability is its origin behind a fixed word, with a dash in the
/// place of every colon, slash and dot.
pub proof fn capability_is_named_after_its_origin(base: Seq<char>, i: int)
    requires
        0 <= i < origin_of(base).len(),
    ensures
        "remote-"@.is_prefix_of(capability_name(base)),
        capability_name(base).len() == 7 + origin_of(base).len(),
        capability_name(base)[7 + i] == if origin_of(base)[i] == ':' || origin_of(base)[i] == '/'
            || origin_of(base)[i] == '.' {
            '-'
        } else {
            origin_of(base)[i]
        },
{
    reveal_strlit("remote-");
    reveal_strlit("-");
    let o = origin_of(base);
    let colons = replaced(o, ':', "-"@);
    let slashes = replaced(colons, '/', "-"@);
    lemma_replaced_by_one(o, ':', "-"@);
    lemma_replaced_by_one(colons, '/', "-"@);
    lemma_replaced_by_one(slashes, '.', "-"@);
    assert("remote-"@ =~= capability_name(base).subrange(0, 7));
}

/// A view is shown where its connection is the active one, and goes by that
/// connection's label.
pub proof fn active_view_is_shown(c: ConnView, active: Seq<char>)
    ensures
        view_state_of(c, Some(active)).1 <==> c.id == active,
        !view_state_of(c, None).1,
        view_state_of(c, Some(active)).0 == label_of(c.id),
{
}

/// A remote that does not answer is reported with its base and its error.
pub proof fn unreachable_remotes_are_named(base: Seq<char>, e: Seq<char>)
    ensures
        unreachable_remote(base, e) == "无法连接 "@ + base + "("@ + e + ")"@,
{
}

/// Position by position the documents for the tab bar and for the status page hold
/// an entry whose id is the text of that connection's id.
pub proof fn entries_carry_their_id(s: Seq<ConnView>, active: Option<Seq<char>>, i: int)
    requires
        0 <= i < s.len(),
    ensures
        tabs_view(s, active).array_at("connections"@) matches Some(items) && items.len() == s.len()
            && items[i].text_at("id"@) == Some(s[i].id) && items[i].text_at("name"@) == Some(s[i].name),
        list_view(s, active).array_at("connections"@) matches Some(items) && items.len() == s.len()
            && items[i].text_at("id"@) == Some(s[i].id) && items[i].text_at("name"@) == Some(s[i].name)
            && items[i].text_at("base"@) == Some(s[i].base),
{
    every_connection_is_listed(s, active, i);
    reveal_strlit("connections");
    reveal_strlit("active");
    assert("connections"@.len() == 11);
    assert("active"@.len() == 6);
}

} // verus!

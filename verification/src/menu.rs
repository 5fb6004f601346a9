//! The native menu bar: what it holds, and what its items do.
use vstd::prelude::*;

use crate::json::{json_quoted, quote};
use crate::sessions::session_views;
use crate::text::{after_prefix, owned, prefix, same, strip_prefix, truncate_chars};

verus! {

broadcast use vstd::string::group_string_axioms;

/// How many recent sessions the 会话 menu shows.
pub const MENU_SESSIONS: usize = 8;

/// An item that the system itself acts on.
#[derive(Clone, Copy, PartialEq, Eq, Structural, Debug)]
pub enum Native {
    About,
    Services,
    Hide,
    HideOthers,
    ShowAll,
    Quit,
    CloseWindow,
    Undo,
    Redo,
    Cut,
    Copy,
    Paste,
    SelectAll,
    Minimize,
    BringAllToFront,
}

/// A menu item.
pub enum Item {
    Separator,
    Native(Native, String),
    Action { id: String, label: String, enabled: bool, shortcut: Option<&'static str> },
}

/// What a menu item says.
#[verifier::ext_equal]
pub enum ItemView {
    Separator,
    Native(Native, Seq<char>),
    Action(Seq<char>, Seq<char>, bool, Option<Seq<char>>),
}

impl Item {
    pub open spec fn view(self) -> ItemView {
        match self {
            Item::Separator => ItemView::Separator,
            Item::Native(n, label) => ItemView::Native(n, label@),
            Item::Action { id, label, enabled, shortcut } => ItemView::Action(
                id@,
                label@,
                enabled,
                match shortcut {
                    Some(s) => Some(s@),
                    None => None,
                },
            ),
        }
    }
}

/// The views of a list of items.
pub open spec fn item_views(v: Seq<Item>) -> Seq<ItemView> {
    v.map_values(|i: Item| i@)
}

/// One menu of the bar.
pub struct Menu {
    pub title: String,
    pub items: Vec<Item>,
}

/// What a menu says.
#[verifier::ext_equal]
pub struct MenuView {
    pub title: Seq<char>,
    pub items: Seq<ItemView>,
}

impl Menu {
    pub open spec fn view(self) -> MenuView {
        MenuView { title: self.title@, items: item_views(self.items@) }
    }
}

/// The views of a list of menus.
pub open spec fn menu_views(v: Seq<Menu>) -> Seq<MenuView> {
    v.map_values(|m: Menu| m@)
}

/// An enabled item without a shortcut.
pub open spec fn plain(id: Seq<char>, label: Seq<char>) -> ItemView {
    ItemView::Action(id, label, true, None)
}

/// The menu named after the app.
pub open spec fn app_items() -> Seq<ItemView> {
    seq![
        ItemView::Native(Native::About, "关于 Kimi Code"@),
        ItemView::Separator,
        ItemView::Native(Native::Services, "服务"@),
        ItemView::Separator,
        ItemView::Native(Native::Hide, "隐藏 Kimi Code"@),
        ItemView::Native(Native::HideOthers, "隐藏其他"@),
        ItemView::Native(Native::ShowAll, "显示全部"@),
        ItemView::Separator,
        ItemView::Native(Native::Quit, "退出 Kimi Code"@),
    ]
}

/// The file menu.
pub open spec fn file_items() -> Seq<ItemView> {
    seq![
        ItemView::Action("new-session"@, "新建会话"@, true, Some("CmdOrCtrl+N"@)),
        ItemView::Separator,
        ItemView::Native(Native::CloseWindow, "关闭窗口"@),
    ]
}

/// The edit menu.
pub open spec fn edit_items() -> Seq<ItemView> {
    seq![
        ItemView::Native(Native::Undo, "撤销"@),
        ItemView::Native(Native::Redo, "重做"@),
        ItemView::Separator,
        ItemView::Native(Native::Cut, "剪切"@),
        ItemView::Native(Native::Copy, "复制"@),
        ItemView::Native(Native::Paste, "粘贴"@),
        ItemView::Native(Native::SelectAll, "全选"@),
    ]
}

/// The id of a session's item.
pub open spec fn session_item_id(id: Seq<char>) -> Seq<char> {
    "open-session:"@ + id
}

/// The sessions that the menu shows: the first ones of the list.
pub open spec fn recents(sessions: Seq<(Seq<char>, Seq<char>)>) -> Seq<(Seq<char>, Seq<char>)> {
    if sessions.len() <= MENU_SESSIONS {
        sessions
    } else {
        sessions.take(MENU_SESSIONS as int)
    }
}

/// The item of a session.
pub open spec fn session_item(s: (Seq<char>, Seq<char>)) -> ItemView {
    plain(session_item_id(s.0), prefix(s.1, 40))
}

/// The menu of the recent sessions.
pub open spec fn session_items(sessions: Seq<(Seq<char>, Seq<char>)>) -> Seq<ItemView> {
    if sessions.len() == 0 {
        seq![ItemView::Action("sessions-empty"@, "（暂无会话）"@, false, None)]
    } else {
        recents(sessions).map_values(|s: (Seq<char>, Seq<char>)| session_item(s))
    }
}

/// The window menu.
pub open spec fn window_items() -> Seq<ItemView> {
    seq![
        ItemView::Native(Native::Minimize, "最小化"@),
        plain("zoom"@, "缩放"@),
        ItemView::Separator,
        ItemView::Native(Native::BringAllToFront, "全部置前"@),
    ]
}

/// The help menu.
pub open spec fn help_items() -> Seq<ItemView> {
    seq![plain("docs"@, "官方文档"@), plain("check-update"@, "检查更新"@)]
}

/// The whole menu bar.
pub open spec fn menu_bar(sessions: Seq<(Seq<char>, Seq<char>)>) -> Seq<MenuView> {
    seq![
        MenuView { title: "Kimi Code"@, items: app_items() },
        MenuView { title: "文件"@, items: file_items() },
        MenuView { title: "编辑"@, items: edit_items() },
        MenuView { title: "会话"@, items: session_items(sessions) },
        MenuView { title: "窗口"@, items: window_items() },
        MenuView { title: "帮助"@, items: help_items() },
    ]
}

fn native(n: Native, label: &str) -> (r: Item)
    ensures
        r@ == ItemView::Native(n, label@),
{
    Item::Native(n, owned(label))
}

fn action(id: &str, label: &str) -> (r: Item)
    ensures
        r@ == plain(id@, label@),
{
    Item::Action { id: owned(id), label: owned(label), enabled: true, shortcut: None }
}

fn build_app_items() -> (r: Vec<Item>)
    ensures
        item_views(r@) == app_items(),
{
    let mut items: Vec<Item> = Vec::new();
    items.push(native(Native::About, "关于 Kimi Code"));
    items.push(Item::Separator);
    items.push(native(Native::Services, "服务"));
    items.push(Item::Separator);
    items.push(native(Native::Hide, "隐藏 Kimi Code"));
    items.push(native(Native::HideOthers, "隐藏其他"));
    items.push(native(Native::ShowAll, "显示全部"));
    items.push(Item::Separator);
    items.push(native(Native::Quit, "退出 Kimi Code"));
    proof {
        assert(item_views(items@) =~= app_items());
    }
    items
}

fn build_file_items() -> (r: Vec<Item>)
    ensures
        item_views(r@) == file_items(),
{
    let mut items: Vec<Item> = Vec::new();
    items.push(
        Item::Action {
            id: owned("new-session"),
            label: owned("新建会话"),
            enabled: true,
            shortcut: Some("CmdOrCtrl+N"),
        },
    );
    items.push(Item::Separator);
    items.push(native(Native::CloseWindow, "关闭窗口"));
    proof {
        assert(item_views(items@) =~= file_items());
    }
    items
}

fn build_edit_items() -> (r: Vec<Item>)
    ensures
        item_views(r@) == edit_items(),
{
    let mut items: Vec<Item> = Vec::new();
    items.push(native(Native::Undo, "撤销"));
    items.push(native(Native::Redo, "重做"));
    items.push(Item::Separator);
    items.push(native(Native::Cut, "剪切"));
    items.push(native(Native::Copy, "复制"));
    items.push(native(Native::Paste, "粘贴"));
    items.push(native(Native::SelectAll, "全选"));
    proof {
        assert(item_views(items@) =~= edit_items());
    }
    items
}

fn build_session_items(sessions: &Vec<(String, String)>) -> (r: Vec<Item>)
    ensures
        item_views(r@) == session_items(session_views(sessions@)),
{
    let mut items: Vec<Item> = Vec::new();
    if sessions.len() == 0 {
        items.push(
            Item::Action {
                id: owned("sessions-empty"),
                label: owned("（暂无会话）"),
                enabled: false,
                shortcut: None,
            },
        );
        proof {
            assert(item_views(items@) =~= session_items(session_views(sessions@)));
        }
        return items;
    }
    let mut i: usize = 0;
    while i < sessions.len() && i < MENU_SESSIONS
        invariant
            i <= sessions@.len(),
            i <= MENU_SESSIONS,
            items@.len() == i,
            forall|k: int|
                0 <= k < i ==> (#[trigger] items@[k])@ == session_item(
                    session_views(sessions@)[k],
                ),
        decreases sessions@.len() - i,
    {
        let mut id = owned("open-session:");
        id.append(sessions[i].0.as_str());
        let label = truncate_chars(sessions[i].1.as_str(), 40);
        items.push(Item::Action { id, label, enabled: true, shortcut: None });
        i = i + 1;
    }
    proof {
        assert(item_views(items@) =~= session_items(session_views(sessions@)));
    }
    items
}

fn build_window_items() -> (r: Vec<Item>)
    ensures
        item_views(r@) == window_items(),
{
    let mut items: Vec<Item> = Vec::new();
    items.push(native(Native::Minimize, "最小化"));
    items.push(action("zoom", "缩放"));
    items.push(Item::Separator);
    items.push(native(Native::BringAllToFront, "全部置前"));
    proof {
        assert(item_views(items@) =~= window_items());
    }
    items
}

fn build_help_items() -> (r: Vec<Item>)
    ensures
        item_views(r@) == help_items(),
{
    let mut items: Vec<Item> = Vec::new();
    items.push(action("docs", "官方文档"));
    items.push(action("check-update", "检查更新"));
    proof {
        assert(item_views(items@) =~= help_items());
    }
    items
}

/// The menu bar, with the recent sessions.
pub fn build_app_menu(sessions: &Vec<(String, String)>) -> (r: Vec<Menu>)
    ensures
        menu_views(r@) == menu_bar(session_views(sessions@)),
{
    let mut bar: Vec<Menu> = Vec::new();
    bar.push(Menu { title: owned("Kimi Code"), items: build_app_items() });
    bar.push(Menu { title: owned("文件"), items: build_file_items() });
    bar.push(Menu { title: owned("编辑"), items: build_edit_items() });
    bar.push(Menu { title: owned("会话"), items: build_session_items(sessions) });
    bar.push(Menu { title: owned("窗口"), items: build_window_items() });
    bar.push(Menu { title: owned("帮助"), items: build_help_items() });
    proof {
        assert(menu_views(bar@) =~= menu_bar(session_views(sessions@)));
    }
    bar
}

fn same_sessions(a: &Vec<(String, String)>, b: &Vec<(String, String)>) -> (r: bool)
    ensures
        r == (session_views(a@) == session_views(b@)),
{
    let ghost av = session_views(a@);
    let ghost bv = session_views(b@);
    if a.len() != b.len() {
        proof {
            assert(av.len() != bv.len());
        }
        return false;
    }
    let mut i: usize = 0;
    while i < a.len()
        invariant
            av == session_views(a@),
            bv == session_views(b@),
            a@.len() == b@.len(),
            i <= a@.len(),
            forall|k: int| 0 <= k < i ==> av[k] == bv[k],
        decreases a@.len() - i,
    {
        if !same(a[i].0.as_str(), b[i].0.as_str()) || !same(a[i].1.as_str(), b[i].1.as_str()) {
            proof {
                assert(av[i as int] != bv[i as int]);
            }
            return false;
        }
        i = i + 1;
    }
    proof {
        assert(av =~= bv);
    }
    true
}

/// The sessions to rebuild the menu with; none where it was built from the same.
pub fn refresh_sessions_menu(sessions: &Vec<(String, String)>, built: &Vec<(String, String)>) -> (r:
    Option<Vec<(String, String)>>)
    ensures
        match r {
            Some(s) => session_views(s@) == recents(session_views(sessions@)) && session_views(s@)
                != session_views(built@),
            None => recents(session_views(sessions@)) == session_views(built@),
        },
{
    let mut first: Vec<(String, String)> = Vec::new();
    let mut i: usize = 0;
    while i < sessions.len() && i < MENU_SESSIONS
        invariant
            i <= sessions@.len(),
            i <= MENU_SESSIONS,
            session_views(first@) == session_views(sessions@).take(i as int),
        decreases sessions@.len() - i,
    {
        let ghost before = first@;
        first.push((sessions[i].0.clone(), sessions[i].1.clone()));
        proof {
            let item = session_views(sessions@)[i as int];
            assert(session_views(first@) == session_views(before).push(item));
            assert(session_views(sessions@).take(i + 1) == session_views(sessions@).take(
                i as int,
            ).push(item));
        }
        i = i + 1;
    }
    proof {
        assert(session_views(first@) == recents(session_views(sessions@)));
    }
    if same_sessions(&first, built) {
        None
    } else {
        Some(first)
    }
}

/// What a menu item does.
pub enum MenuAction {
    /// Raise the window and go to this path of the official UI.
    Navigate(String),
    /// Maximize the window, or restore it.
    ToggleZoom,
    /// Open this page in the system browser.
    Browse(&'static str),
    /// Open the page of the found release in the system browser.
    CheckUpdate,
    Nothing,
}

/// What a menu action says.
#[verifier::ext_equal]
pub enum ActionView {
    Navigate(Seq<char>),
    ToggleZoom,
    Browse(Seq<char>),
    CheckUpdate,
    Nothing,
}

impl MenuAction {
    pub open spec fn view(self) -> ActionView {
        match self {
            MenuAction::Navigate(path) => ActionView::Navigate(path@),
            MenuAction::ToggleZoom => ActionView::ToggleZoom,
            MenuAction::Browse(url) => ActionView::Browse(url@),
            MenuAction::CheckUpdate => ActionView::CheckUpdate,
            MenuAction::Nothing => ActionView::Nothing,
        }
    }
}

/// What the item `id` does.
pub open spec fn action_of(id: Seq<char>) -> ActionView {
    if id == "new-session"@ {
        ActionView::Navigate("/"@)
    } else if id == "zoom"@ {
        ActionView::ToggleZoom
    } else if id == "docs"@ {
        ActionView::Browse("https://www.kimi.com/code/docs/en/"@)
    } else if id == "check-update"@ {
        ActionView::CheckUpdate
    } else {
        match after_prefix(id, "open-session:"@) {
            Some(session) => ActionView::Navigate("/sessions/"@ + session),
            None => ActionView::Nothing,
        }
    }
}

/// What to do when a menu item is chosen.
pub fn handle_menu_event(id: &str) -> (r: MenuAction)
    ensures
        r@ == action_of(id@),
{
    if same(id, "new-session") {
        MenuAction::Navigate(owned("/"))
    } else if same(id, "zoom") {
        MenuAction::ToggleZoom
    } else if same(id, "docs") {
        MenuAction::Browse("https://www.kimi.com/code/docs/en/")
    } else if same(id, "check-update") {
        MenuAction::CheckUpdate
    } else {
        match strip_prefix(id, "open-session:") {
            Some(session) => {
                let mut path = owned("/sessions/");
                path.append(session.as_str());
                MenuAction::Navigate(path)
            },
            None => MenuAction::Nothing,
        }
    }
}

/// The script that takes the official UI to `path`.
pub open spec fn navigation(path: Seq<char>) -> Seq<char> {
    navigation_to(json_quoted(path))
}

/// The script that takes the official UI to a quoted path.
pub open spec fn navigation_to(quoted: Seq<char>) -> Seq<char> {
    "try{history.pushState({},'',"@ + quoted + ")}catch(e){location.assign("@ + quoted + ")}"@
}

/// Writes the script for a path that is quoted already.
pub fn quoted_navigation(quoted: &str) -> (r: String)
    ensures
        r@ == navigation_to(quoted@),
{
    let mut out = owned("try{history.pushState({},'',");
    out.append(quoted);
    out.append(")}catch(e){location.assign(");
    out.append(quoted);
    out.append(")}");
    out
}

/// Writes the script that takes the official UI to `path`.
pub fn navigation_script(path: &str) -> (r: String)
    ensures
        r@ == navigation(path@),
{
    quoted_navigation(quote(path).as_str())
}

/// The item of a session opens that session.
pub proof fn session_items_open_their_session(session: Seq<char>)
    ensures
        action_of(session_item_id(session)) == ActionView::Navigate("/sessions/"@ + session),
{
    let id = session_item_id(session);
    reveal_strlit("open-session:");
    reveal_strlit("new-session");
    reveal_strlit("zoom");
    reveal_strlit("docs");
    reveal_strlit("check-update");
    assert("open-session:"@.len() == 13);
    assert(id[0] == 'o');
    assert("new-session"@[0] == 'n');
    assert("zoom"@[0] == 'z');
    assert("docs"@[0] == 'd');
    assert("check-update"@[0] == 'c');
    assert("open-session:"@ =~= id.subrange(0, 13));
    assert("open-session:"@.is_prefix_of(id));
    assert(id.skip(13) =~= session);
}

/// Every item that the user can choose does something.
pub proof fn enabled_items_act(sessions: Seq<(Seq<char>, Seq<char>)>, m: int, i: int)
    requires
        0 <= m < menu_bar(sessions).len(),
        0 <= i < menu_bar(sessions)[m].items.len(),
    ensures
        menu_bar(sessions)[m].items[i] matches ItemView::Action(id, _, true, _) ==> !(action_of(id)
            is Nothing),
{
    let item = menu_bar(sessions)[m].items[i];
    if m == 3 && sessions.len() > 0 {
        session_items_open_their_session(recents(sessions)[i].0);
        assert(item == session_item(recents(sessions)[i]));
    }
}

/// The sessions menu shows at most eight sessions, with short labels, and is
/// never empty.
pub proof fn sessions_menu_is_bounded(sessions: Seq<(Seq<char>, Seq<char>)>, i: int)
    requires
        0 <= i < session_items(sessions).len(),
    ensures
        1 <= session_items(sessions).len() <= MENU_SESSIONS,
        sessions.len() > 0 ==> (session_items(sessions)[i] matches ItemView::Action(_, label, _, _)
            ==> label.len() <= 40),
{
}

/// A menu that was just rebuilt is not rebuilt again for the same sessions.
pub proof fn rebuilding_settles(sessions: Seq<(Seq<char>, Seq<char>)>)
    ensures
        recents(recents(sessions)) == recents(sessions),
        session_items(recents(sessions)) == session_items(sessions),
{
}

/// The sessions menu offers the first eight sessions in their order, each under
/// its own id and with its title, cut to forty characters; without sessions it
/// holds one item that cannot be chosen.
pub proof fn recent_sessions_are_offered(sessions: Seq<(Seq<char>, Seq<char>)>, i: int)
    ensures
        0 < sessions.len() <= 8 ==> session_items(sessions).len() == sessions.len(),
        sessions.len() > 8 ==> session_items(sessions).len() == 8,
        0 <= i < session_items(sessions).len() && sessions.len() > 0 ==> session_items(sessions)[i]
            == ItemView::Action(
            "open-session:"@ + sessions[i].0,
            if sessions[i].1.len() <= 40 {
                sessions[i].1
            } else {
                sessions[i].1.take(40)
            },
            true,
            None,
        ),
        sessions.len() == 0 ==> session_items(sessions).len() == 1 && (session_items(sessions)[0]
            matches ItemView::Action(_, _, false, None)),
{
}

/// The bar holds six menus in their order, the sessions menu among them.
pub proof fn bar_holds_six_menus(sessions: Seq<(Seq<char>, Seq<char>)>)
    ensures
        menu_bar(sessions).len() == 6,
        menu_bar(sessions)[0].title == "Kimi Code"@,
        menu_bar(sessions)[1].title == "文件"@,
        menu_bar(sessions)[2].title == "编辑"@,
        menu_bar(sessions)[3].title == "会话"@ && menu_bar(sessions)[3].items == session_items(sessions),
        menu_bar(sessions)[4].title == "窗口"@,
        menu_bar(sessions)[5].title == "帮助"@,
{
}

/// The menu, by its place in the bar, in which a native item stands, and its place
/// there.
pub open spec fn place_of(n: Native) -> (int, int) {
    match n {
        Native::About => (0, 0),
        Native::Services => (0, 2),
        Native::Hide => (0, 4),
        Native::HideOthers => (0, 5),
        Native::ShowAll => (0, 6),
        Native::Quit => (0, 8),
        Native::CloseWindow => (1, 2),
        Native::Undo => (2, 0),
        Native::Redo => (2, 1),
        Native::Cut => (2, 3),
        Native::Copy => (2, 4),
        Native::Paste => (2, 5),
        Native::SelectAll => (2, 6),
        Native::Minimize => (4, 0),
        Native::BringAllToFront => (4, 3),
    }
}

/// Every native item stands in the bar once, in its place.
pub proof fn native_items_stand_in_their_place(
    sessions: Seq<(Seq<char>, Seq<char>)>,
    n: Native,
    m: int,
    i: int,
)
    requires
        0 <= m < menu_bar(sessions).len(),
        0 <= i < menu_bar(sessions)[m].items.len(),
    ensures
        (menu_bar(sessions)[m].items[i] matches ItemView::Native(k, _) && k == n) <==> (m, i)
            == place_of(n),
{
    let item = menu_bar(sessions)[m].items[i];
    if m == 3 && sessions.len() > 0 {
        assert(item == session_item(recents(sessions)[i]));
    }
}

/// A native item carries the label of what it does.
pub proof fn native_items_are_labelled(
    sessions: Seq<(Seq<char>, Seq<char>)>,
    m: int,
    i: int,
)
    requires
        0 <= m < menu_bar(sessions).len(),
        0 <= i < menu_bar(sessions)[m].items.len(),
    ensures
        match menu_bar(sessions)[m].items[i] {
            ItemView::Native(n, label) => match n {
                Native::About => label == "关于 Kimi Code"@,
                Native::Services => label == "服务"@,
                Native::Hide => label == "隐藏 Kimi Code"@,
                Native::HideOthers => label == "隐藏其他"@,
                Native::ShowAll => label == "显示全部"@,
                Native::Quit => label == "退出 Kimi Code"@,
                Native::CloseWindow => label == "关闭窗口"@,
                Native::Undo => label == "撤销"@,
                Native::Redo => label == "重做"@,
                Native::Cut => label == "剪切"@,
                Native::Copy => label == "复制"@,
                Native::Paste => label == "粘贴"@,
                Native::SelectAll => label == "全选"@,
                Native::Minimize => label == "最小化"@,
                Native::BringAllToFront => label == "全部置前"@,
            },
            _ => true,
        },
{
    let item = menu_bar(sessions)[m].items[i];
    if m == 3 && sessions.len() > 0 {
        assert(item == session_item(recents(sessions)[i]));
    }
}

/// Beside the sessions four items of the shell can be chosen: a new session, by
/// its shortcut too, the zoom, the documents and the check for updates.
pub proof fn four_items_act_beside_the_sessions(
    sessions: Seq<(Seq<char>, Seq<char>)>,
    m: int,
    i: int,
)
    requires
        0 <= m < menu_bar(sessions).len(),
        0 <= i < menu_bar(sessions)[m].items.len(),
        m != 3,
    ensures
        match menu_bar(sessions)[m].items[i] {
            ItemView::Action(id, label, enabled, shortcut) => enabled && if m == 1 {
                i == 0 && id == "new-session"@ && label == "新建会话"@ && shortcut == Some(
                    "CmdOrCtrl+N"@,
                )
            } else if m == 4 {
                i == 1 && id == "zoom"@ && label == "缩放"@ && shortcut is None
            } else {
                m == 5 && shortcut is None && if i == 0 {
                    id == "docs"@ && label == "官方文档"@
                } else {
                    id == "check-update"@ && label == "检查更新"@
                }
            },
            _ => m < 5 && (m, i) != (1int, 0int) && (m, i) != (4int, 1int),
        },
{
}

/// An item does what its id says, a session's item opens that session, and what is
/// no item does nothing.
pub proof fn ids_say_what_is_done(id: Seq<char>, session: Seq<char>)
    ensures
        action_of("new-session"@) == ActionView::Navigate("/"@),
        action_of("zoom"@) == ActionView::ToggleZoom,
        action_of("docs"@) == ActionView::Browse("https://www.kimi.com/code/docs/en/"@),
        action_of("check-update"@) == ActionView::CheckUpdate,
        action_of("open-session:"@ + session) == ActionView::Navigate("/sessions/"@ + session),
        id != "new-session"@ && id != "zoom"@ && id != "docs"@ && id != "check-update"@
            && !"open-session:"@.is_prefix_of(id) ==> action_of(id) == ActionView::Nothing,
{
    session_items_open_their_session(session);
    assert(session_item_id(session) == "open-session:"@ + session);
    reveal_strlit("new-session");
    reveal_strlit("zoom");
    reveal_strlit("docs");
    reveal_strlit("check-update");
    assert("new-session"@.len() == 11);
    assert("zoom"@.len() == 4);
    assert("docs"@.len() == 4);
    assert("check-update"@.len() == 12);
    assert("zoom"@[0] != "docs"@[0]);
}

/// The script hands the path, as one quoted string, to the page's history, and
/// where that fails to its location.
pub proof fn scripts_go_to_the_path(path: Seq<char>)
    ensures
        navigation(path) == "try{history.pushState({},'',"@ + json_quoted(path)
            + ")}catch(e){location.assign("@ + json_quoted(path) + ")}"@,
{
}

} // verus!

//! The addresses that the shell's views are pointed at.
use vstd::prelude::*;

use crate::net::{addr_of, base_text, base_url, base_url_reads_back, AddrView, DaemonAddr};
use crate::text::{decimal, owned, replace, replaced, to_decimal};

verus! {

broadcast use vstd::string::group_string_axioms;

/// The shell's own origin listens here, so that Web Storage survives restarts.
/// Outside Kimi's daemon port range, which starts at 58627.
pub const CUSTOM_UI_PORT: u16 = 51821;

/// The operating system that the shell runs on.
#[derive(Clone, Copy, PartialEq, Eq, Structural, Debug)]
pub enum Platform {
    MacOs,
    Windows,
    Other,
}

/// Node's name for a platform.
pub open spec fn node_platform(p: Platform) -> Seq<char> {
    match p {
        Platform::MacOs => "darwin"@,
        Platform::Windows => "win32"@,
        Platform::Other => "linux"@,
    }
}

/// Node's `process.platform` value; the official bundle reads this flag.
pub fn platform_name(p: Platform) -> (r: &'static str)
    ensures
        r@ == node_platform(p),
{
    match p {
        Platform::MacOs => "darwin",
        Platform::Windows => "win32",
        Platform::Other => "linux",
    }
}

/// The query that switches on the bundle's desktop behavior.
pub open spec fn desktop_flags(p: Platform) -> Seq<char> {
    match p {
        Platform::MacOs => "?kimi_desktop&platform=darwin"@,
        Platform::Windows => "?kimi_desktop&platform=win32"@,
        Platform::Other => "?kimi_desktop&platform=linux"@,
    }
}

/// Official bundle flags for desktop-only behavior, with the platform named as
/// Node's `process.platform` names it.
pub fn desktop_query(p: Platform) -> (r: &'static str)
    ensures
        r@ == desktop_flags(p),
{
    match p {
        Platform::MacOs => "?kimi_desktop&platform=darwin",
        Platform::Windows => "?kimi_desktop&platform=win32",
        Platform::Other => "?kimi_desktop&platform=linux",
    }
}

/// The two platform flags never disagree.
pub proof fn desktop_flags_name_the_platform(p: Platform)
    ensures
        desktop_flags(p) == "?kimi_desktop&platform="@ + node_platform(p),
{
    reveal_strlit("?kimi_desktop&platform=");
    reveal_strlit("?kimi_desktop&platform=darwin");
    reveal_strlit("?kimi_desktop&platform=win32");
    reveal_strlit("?kimi_desktop&platform=linux");
    reveal_strlit("darwin");
    reveal_strlit("win32");
    reveal_strlit("linux");
    assert(desktop_flags(p) =~= "?kimi_desktop&platform="@ + node_platform(p));
}

/// A parsed URL.
#[derive(Debug)]
pub struct WebUrl {
    /// The URL as it is written.
    pub text: String,
    pub host: Option<String>,
    /// The port, where it is written and is not the scheme's own.
    pub port: Option<u16>,
    /// What stands behind the last slash of the path.
    pub last_segment: Option<String>,
}

/// What a parsed URL says.
#[verifier::ext_equal]
pub struct UrlView {
    pub text: Seq<char>,
    pub host: Option<Seq<char>>,
    pub port: Option<u16>,
    pub last_segment: Option<Seq<char>>,
}

/// The view of an optional owned text.
pub open spec fn opt_text(s: Option<String>) -> Option<Seq<char>> {
    match s {
        Some(s) => Some(s@),
        None => None,
    }
}

impl WebUrl {
    pub open spec fn view(self) -> UrlView {
        UrlView {
            text: self.text@,
            host: opt_text(self.host),
            port: self.port,
            last_segment: opt_text(self.last_segment),
        }
    }
}

/// The view of a parse's outcome.
pub open spec fn parse_view(r: Result<WebUrl, String>) -> Result<UrlView, Seq<char>> {
    match r {
        Ok(u) => Ok(u@),
        Err(e) => Err(e@),
    }
}

/// Whether a text, where there is one, holds no slash.
pub open spec fn slash_free(s: Option<Seq<char>>) -> bool {
    match s {
        Some(s) => !s.contains('/'),
        None => true,
    }
}

/// What `url::Url::parse` makes of a text: the URL, or the message of its error.
pub uninterp spec fn url_text(text: Seq<char>) -> Result<UrlView, Seq<char>>;

/// `url::Url::parse`: parses an absolute URL by the WHATWG rules, and hands out
/// the result as `as_str`, `host_str`, `port` and the end of `path_segments`
/// give it. A host holds no slash: the parser ends it there, and refuses one that
/// an escape would bring in. Neither does a segment: the path is split at slashes.
#[verifier::external_body]
pub(crate) fn parse_url(text: &str) -> (r: Result<WebUrl, String>)
    ensures
        parse_view(r) == url_text(text@),
        match r {
            Ok(u) => slash_free(u@.host) && slash_free(u@.last_segment),
            Err(_) => true,
        },
{
    match url::Url::parse(text) {
        Ok(u) => Ok(WebUrl {
            text: u.as_str().to_string(),
            host: u.host_str().map(str::to_string),
            port: u.port(),
            last_segment: match u.path_segments() {
                Some(mut segments) => segments.next_back().map(str::to_string),
                None => None,
            },
        }),
        Err(e) => Err(e.to_string()),
    }
}

/// Reads a link, for the system browser or a download: a text is one where it is
/// a URL. Its last segment is a name of its own, without a slash in it.
pub fn open_url(text: &str) -> (r: Option<WebUrl>)
    ensures
        match r {
            Some(u) => url_text(text@) == Ok::<UrlView, Seq<char>>(u@) && slash_free(
                u@.last_segment,
            ),
            None => url_text(text@) is Err,
        },
{
    match parse_url(text) {
        Ok(u) => Some(u),
        Err(_) => None,
    }
}

/// A server to show: where it is, its token and the page to open.
#[derive(Debug)]
pub struct Launch {
    pub base: String,
    pub token: String,
    pub url: WebUrl,
}

/// What a launch says.
#[verifier::ext_equal]
pub struct LaunchView {
    pub base: Seq<char>,
    pub token: Seq<char>,
    pub url: UrlView,
}

impl Launch {
    pub open spec fn view(self) -> LaunchView {
        LaunchView { base: self.base@, token: self.token@, url: self.url@ }
    }
}

/// The view of a launch's outcome.
pub open spec fn launch_view(r: Result<Launch, String>) -> Result<LaunchView, Seq<char>> {
    match r {
        Ok(l) => Ok(l@),
        Err(e) => Err(e@),
    }
}

/// The page of a daemon's own UI.
pub open spec fn launch_page(token: Seq<char>, addr: AddrView, p: Platform) -> Seq<char> {
    base_url(addr) + "/"@ + desktop_flags(p) + "#token="@ + token
}

/// The launch of the daemon at `addr`, for what parsing its page gave.
pub open spec fn launched(
    token: Seq<char>,
    addr: AddrView,
    url: Result<UrlView, Seq<char>>,
) -> Result<LaunchView, Seq<char>> {
    match url {
        Ok(url) => Ok(LaunchView { base: base_url(addr), token, url }),
        Err(e) => Err("构造 web UI 地址失败："@ + e),
    }
}

/// The launch of the daemon at `addr`.
pub open spec fn launch_of(token: Seq<char>, addr: AddrView, p: Platform) -> Result<
    LaunchView,
    Seq<char>,
> {
    launched(token, addr, url_text(launch_page(token, addr, p)))
}

/// Builds the launch of a daemon from what parsing its page gave.
pub fn launch_with(token: &str, addr: &DaemonAddr, url: Result<WebUrl, String>) -> (r: Result<
    Launch,
    String,
>)
    ensures
        launch_view(r) == launched(token@, addr@, parse_view(url)),
{
    match url {
        Ok(url) => Ok(Launch { base: base_text(addr), token: owned(token), url }),
        Err(e) => {
            let mut message = owned("构造 web UI 地址失败：");
            message.append(e.as_str());
            Err(message)
        },
    }
}

/// Builds launch details for a specific reachable server.
pub fn launch_at_addr(token: &str, addr: &DaemonAddr, p: Platform) -> (r: Result<Launch, String>)
    ensures
        launch_view(r) == launch_of(token@, addr@, p),
{
    let mut page = base_text(addr);
    page.append("/");
    page.append(desktop_query(p));
    page.append("#token=");
    page.append(token);
    launch_with(token, addr, parse_url(page.as_str()))
}

/// A launch's base leads back to the daemon that it was built for, be its host a
/// bracketed one or not, for every host that is not itself written with a scheme.
pub proof fn launch_address_reads_back(token: Seq<char>, addr: AddrView, p: Platform)
    requires
        !"http://"@.is_prefix_of(addr.host),
    ensures
        match launch_of(token, addr, p) {
            Ok(l) => addr_of(l.base) == Some(addr),
            Err(_) => true,
        },
{
    base_url_reads_back(addr);
}

/// A daemon origin as it stands in a query: its colons and slashes escaped.
pub open spec fn escaped_origin(base: Seq<char>) -> Seq<char> {
    replaced(replaced(base, ':', "%3A"@), '/', "%2F"@)
}

/// The page of the official UI on the shell's own loopback server, with the
/// token in the hash and the daemon's origin in `kimi_origin`.
pub open spec fn custom_ui_page(port: u16, base: Seq<char>, token: Seq<char>, p: Platform) -> Seq<
    char,
> {
    "http://127.0.0.1:"@ + decimal(port as nat) + "/"@ + desktop_flags(p) + "&kimi_origin="@
        + escaped_origin(base) + "#token="@ + token
}

proof fn lemma_replaced_chars(s: Seq<char>, c: char, with: Seq<char>, d: char)
    requires
        !with.contains(d),
        d == c || !s.contains(d),
    ensures
        !replaced(s, c, with).contains(d),
    decreases s.len(),
{
    if s.len() > 0 {
        assert forall|i: int| 0 <= i < s.len() - 1 && d != c implies s.drop_last()[i] != d by {
            assert(s.contains(s[i]));
        }
        assert(s.contains(s[s.len() - 1]));
        lemma_replaced_chars(s.drop_last(), c, with, d);
    }
}

/// An escaped origin holds no colon and no slash, so that it can stand in a
/// query.
pub proof fn escaped_origins_are_query_safe(base: Seq<char>)
    ensures
        !escaped_origin(base).contains(':'),
        !escaped_origin(base).contains('/'),
{
    reveal_strlit("%3A");
    reveal_strlit("%2F");
    lemma_replaced_chars(base, ':', "%3A"@, ':');
    lemma_replaced_chars(replaced(base, ':', "%3A"@), '/', "%2F"@, ':');
    lemma_replaced_chars(replaced(base, ':', "%3A"@), '/', "%2F"@, '/');
}

/// Writes the address of that page.
pub fn custom_ui_text(port: u16, base: &str, token: &str, p: Platform) -> (r: String)
    ensures
        r@ == custom_ui_page(port, base@, token@, p),
{
    let colons = replace(base, ':', "%3A");
    let origin = replace(colons.as_str(), '/', "%2F");
    let mut out = owned("http://127.0.0.1:");
    out.append(to_decimal(port as u64).as_str());
    out.append("/");
    out.append(desktop_query(p));
    out.append("&kimi_origin=");
    out.append(origin.as_str());
    out.append("#token=");
    out.append(token);
    out
}

/// URL of the official UI served by the loopback static server on `port`,
/// where there is one.
pub open spec fn custom_ui(
    port: Option<u16>,
    base: Seq<char>,
    token: Seq<char>,
    p: Platform,
) -> Option<UrlView> {
    match port {
        Some(port) => match url_text(custom_ui_page(port, base, token, p)) {
            Ok(u) => Some(u),
            Err(_) => None,
        },
        None => None,
    }
}

/// URL of the official UI served by the loopback static server, if it could be
/// started and the address is one.
pub fn custom_ui_url(port: Option<u16>, base: &str, token: &str, p: Platform) -> (r: Option<WebUrl>)
    ensures
        match r {
            Some(u) => custom_ui(port, base@, token@, p) == Some(u@),
            None => custom_ui(port, base@, token@, p) is None,
        },
{
    match port {
        Some(port) => match parse_url(custom_ui_text(port, base, token, p).as_str()) {
            Ok(u) => Some(u),
            Err(_) => None,
        },
        None => None,
    }
}

/// The page to show for a launch: the shell's own, where it can be served, else
/// the daemon's.
pub open spec fn shown_page(ui_port: Option<u16>, launch: LaunchView, p: Platform) -> UrlView {
    match custom_ui(ui_port, launch.base, launch.token, p) {
        Some(u) => u,
        None => launch.url,
    }
}

/// The page to point the view at once a daemon was restarted.
pub fn restarted_page(ui_port: Option<u16>, launch: Launch, p: Platform) -> (r: WebUrl)
    ensures
        r@ == shown_page(ui_port, launch@, p),
{
    match custom_ui_url(ui_port, launch.base.as_str(), launch.token.as_str(), p) {
        Some(u) => u,
        None => launch.url,
    }
}

/// Each platform goes by the word that the web UI knows it by.
pub proof fn platforms_have_their_words(p: Platform)
    ensures
        p == Platform::MacOs ==> node_platform(p) == "darwin"@,
        p == Platform::Windows ==> node_platform(p) == "win32"@,
        p == Platform::Other ==> node_platform(p) == "linux"@,
{
}

/// Escaping an origin goes character by character: a colon and a slash are written
/// by their codes, every other character as it is.
pub proof fn origins_are_escaped_by_character(a: Seq<char>, b: Seq<char>, x: char)
    ensures
        escaped_origin(a + b) == escaped_origin(a) + escaped_origin(b),
        escaped_origin(seq![':']) == "%3A"@,
        escaped_origin(seq!['/']) == "%2F"@,
        x != ':' && x != '/' ==> escaped_origin(seq![x]) == seq![x],
{
    reveal_strlit("%3A");
    let code = "%3A"@;
    crate::text::replacing_goes_by_character(a, b, x, ':', code);
    crate::text::replacing_goes_by_character(
        replaced(a, ':', code),
        replaced(b, ':', code),
        x,
        '/',
        "%2F"@,
    );
    crate::text::replacing_goes_by_character(a, b, '/', ':', code);
    crate::text::replacing_goes_by_character(seq!['%'], seq!['3', 'A'], '%', '/', "%2F"@);
    crate::text::replacing_goes_by_character(seq!['3'], seq!['A'], '3', '/', "%2F"@);
    crate::text::replacing_goes_by_character(seq!['A'], seq![], 'A', '/', "%2F"@);
    assert(code =~= seq!['%'] + seq!['3', 'A']);
    assert(seq!['3', 'A'] =~= seq!['3'] + seq!['A']);
}

/// The shell's own page is on loopback at the port that it is served at, and says
/// which daemon to talk to and with which token.
pub proof fn shell_page_names_daemon_and_token(port: u16, base: Seq<char>, token: Seq<char>, p: Platform)
    ensures
        custom_ui_page(port, base, token, p) == "http://127.0.0.1:"@ + decimal(port as nat)
            + "/?kimi_desktop&platform="@ + node_platform(p) + "&kimi_origin="@ + escaped_origin(base)
            + "#token="@ + token,
{
    reveal_strlit("/?kimi_desktop&platform=");
    reveal_strlit("/");
    reveal_strlit("?kimi_desktop&platform=");
    desktop_flags_name_the_platform(p);
    assert("/?kimi_desktop&platform="@ =~= "/"@ + "?kimi_desktop&platform="@);
    let front = "http://127.0.0.1:"@ + decimal(port as nat);
    assert(front + "/"@ + desktop_flags(p) =~= front + "/?kimi_desktop&platform="@ + node_platform(p));
}

/// A launch opens the daemon's own page, and carries its base and the token it was
/// given.
pub proof fn launches_open_the_daemons_page(token: Seq<char>, addr: AddrView, p: Platform)
    ensures
        launch_page(token, addr, p) == "http://"@ + addr.host + ":"@ + decimal(addr.port as nat)
            + "/?kimi_desktop&platform="@ + node_platform(p) + "#token="@ + token,
        match launch_of(token, addr, p) {
            Ok(l) => l.token == token && l.base == "http://"@ + addr.host + ":"@ + decimal(
                addr.port as nat,
            ) && url_text(launch_page(token, addr, p)) == Ok::<UrlView, Seq<char>>(l.url),
            Err(e) => url_text(launch_page(token, addr, p)) matches Err(f) && e == "构造 web UI 地址失败："@
                + f,
        },
{
    reveal_strlit("/?kimi_desktop&platform=");
    reveal_strlit("/");
    reveal_strlit("?kimi_desktop&platform=");
    desktop_flags_name_the_platform(p);
    crate::net::addresses_are_written_in_full(addr);
    let base = base_url(addr);
    assert("/?kimi_desktop&platform="@ =~= "/"@ + "?kimi_desktop&platform="@);
    assert(base + "/"@ + desktop_flags(p) =~= base + "/?kimi_desktop&platform="@ + node_platform(p));
}

/// After a restart the shell's page is shown where it is served and its address is
/// one, and the launch's own otherwise.
pub proof fn restarted_view_shows_its_daemon(port: u16, launch: LaunchView, p: Platform)
    ensures
        shown_page(None, launch, p) == launch.url,
        match url_text(custom_ui_page(port, launch.base, launch.token, p)) {
            Ok(u) => shown_page(Some(port), launch, p) == u,
            Err(_) => shown_page(Some(port), launch, p) == launch.url,
        },
{
}

/// An optional text is viewed as the text, or as none.
pub proof fn optional_texts_are_viewed_as_they_are(s: String)
    ensures
        opt_text(Some(s)) == Some(s@),
        opt_text(None) is None,
{
}

} // verus!

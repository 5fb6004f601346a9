//! Connections, the tab bar's model: the local daemon that the shell manages,
//! and any remote daemon that the user points it at.
use vstd::prelude::*;

use crate::net::{
    addr_of, base_url, base_url_reads_back, host_port, host_port_text, AddrView, DaemonAddr,
};
use crate::text::{
    before_char, chars_of, cut_at_first, cut_at_last, decimal, decimal_reads_back, find_char,
    inside_white, is_space, lemma_decimal_value, lemma_find_char, lemma_find_char_bounds,
    lemma_rfind_char_bounds, owned, parse_number, parsed, replace, replaced, rsplit_once, split_once,
    starts_with, strip_leading, strip_trailing, to_decimal, trim, trim_start_char, trimmed,
    trimming_takes_outer_white_space, until_char,
};
use crate::web::{
    custom_ui, custom_ui_url, node_platform, parse_url, parse_view, platform_name, url_text,
    Platform, UrlView, WebUrl,
};

verus! {

broadcast use vstd::string::group_string_axioms;

/// Where a connection's UI comes from.
#[derive(Clone, Copy, PartialEq, Eq, Structural, Debug)]
pub enum ConnKind {
    /// The daemon this machine's CLI runs; managed by the shell.
    Local,
    /// Someone else's daemon, reached by address.
    Remote,
}

/// One viewable daemon.
#[derive(Debug)]
pub struct Connection {
    /// Stable key for the webview label and menu ids.
    pub id: String,
    /// Shown on the tab.
    pub name: String,
    pub kind: ConnKind,
    /// `http://host:port` (no query).
    pub base: String,
    /// Bearer token (empty until known for the local daemon).
    pub token: String,
}

/// What a connection says.
#[verifier::ext_equal]
pub struct ConnView {
    pub id: Seq<char>,
    pub name: Seq<char>,
    pub kind: ConnKind,
    pub base: Seq<char>,
    pub token: Seq<char>,
}

impl Connection {
    pub open spec fn view(self) -> ConnView {
        ConnView {
            id: self.id@,
            name: self.name@,
            kind: self.kind,
            base: self.base@,
            token: self.token@,
        }
    }
}

impl Clone for Connection {
    fn clone(&self) -> (r: Connection)
        ensures
            r@ == self@,
    {
        Connection {
            id: self.id.clone(),
            name: self.name.clone(),
            kind: self.kind,
            base: self.base.clone(),
            token: self.token.clone(),
        }
    }
}

/// The views of a list of connections.
pub open spec fn conn_views(v: Seq<Connection>) -> Seq<ConnView> {
    v.map_values(|c: Connection| c@)
}

/// A character that a webview label may hold.
pub open spec fn is_label_char(c: char) -> bool {
    ('a' <= c && c <= 'z') || ('A' <= c && c <= 'Z') || ('0' <= c && c <= '9') || c == '-' || c
        == '/' || c == ':' || c == '_'
}

/// `id` with every character that a label may not hold replaced.
pub open spec fn label_safe(id: Seq<char>) -> Seq<char> {
    id.map_values(
        |c: char|
            if is_label_char(c) {
                c
            } else {
                '_'
            },
    )
}

/// The webview label of the connection `id`.
pub open spec fn label_of(id: Seq<char>) -> Seq<char> {
    "view-"@ + label_safe(id)
}

/// Webview label for a connection's view. Labels are restricted to
/// alphanumerics plus `- / : _`, and a connection id is derived from a host
/// (dots!) so it is sanitized.
pub fn view_label(id: &str) -> (r: String)
    ensures
        r@ == label_of(id@),
{
    let chars = crate::text::chars_of(id);
    let mut out = owned("view-");
    let mut i: usize = 0;
    while i < chars.len()
        invariant
            chars@ == id@,
            i <= chars@.len(),
            out@ == "view-"@ + label_safe(id@.take(i as int)),
        decreases chars@.len() - i,
    {
        let c = chars[i];
        proof {
            assert(label_safe(id@.take(i + 1)) == label_safe(id@.take(i as int)).push(
                if is_label_char(c) {
                    c
                } else {
                    '_'
                },
            ));
        }
        if ('a' <= c && c <= 'z') || ('A' <= c && c <= 'Z') || ('0' <= c && c <= '9') || c == '-'
            || c == '/' || c == ':' || c == '_' {
            out.push(c);
        } else {
            out.push('_');
        }
        i = i + 1;
    }
    proof {
        assert(id@.take(i as int) == id@);
    }
    out
}

/// Every label is one that the windowing layer accepts.
pub proof fn labels_are_accepted(id: Seq<char>, i: int)
    requires
        0 <= i < label_of(id).len(),
    ensures
        is_label_char(label_of(id)[i]),
{
    reveal_strlit("view-");
    if i >= 5 {
        assert(label_of(id)[i] == label_safe(id)[i - 5]);
    }
}

/// The page of a remote daemon's own UI: same-origin, so it carries no daemon
/// origin.
pub open spec fn remote_page(base: Seq<char>, token: Seq<char>, p: Platform) -> Seq<char> {
    crate::text::trim_end_char(base, '/') + "/?kimi_desktop&platform="@ + node_platform(p)
        + "#token="@ + token
}

/// Writes the address of that page.
pub fn remote_page_text(base: &str, token: &str, p: Platform) -> (r: String)
    ensures
        r@ == remote_page(base@, token@, p),
{
    let mut out = strip_trailing(base, '/');
    out.append("/?kimi_desktop&platform=");
    out.append(platform_name(p));
    out.append("#token=");
    out.append(token);
    out
}

/// What a connection's view loads, where the loopback static server listens on
/// `ui_port`.
pub open spec fn conn_url(conn: ConnView, ui_port: Option<u16>, p: Platform) -> Result<
    UrlView,
    Seq<char>,
> {
    match conn.kind {
        ConnKind::Local => match custom_ui(ui_port, conn.base, conn.token, p) {
            Some(u) => Ok(u),
            None => url_text(conn.base),
        },
        ConnKind::Remote => url_text(remote_page(conn.base, conn.token, p)),
    }
}

/// URL to load for a connection.
///
/// Local daemons go through the shell's loopback server (stable origin) and, if
/// that is not to be had, to the daemon itself; remote ones load the daemon's
/// own UI, which is same-origin and therefore needs no `kimi_origin` and no
/// CORS entry on the far side.
pub fn connection_url(conn: &Connection, ui_port: Option<u16>, p: Platform) -> (r: Result<
    WebUrl,
    String,
>)
    ensures
        parse_view(r) == conn_url(conn@, ui_port, p),
{
    match conn.kind {
        ConnKind::Local => match custom_ui_url(ui_port, conn.base.as_str(), conn.token.as_str(), p) {
            Some(u) => Ok(u),
            None => parse_url(conn.base.as_str()),
        },
        ConnKind::Remote => parse_url(
            remote_page_text(conn.base.as_str(), conn.token.as_str(), p).as_str(),
        ),
    }
}

/// A remote address with a scheme in front.
pub open spec fn with_scheme(address: Seq<char>) -> Seq<char> {
    if "http://"@.is_prefix_of(address) || "https://"@.is_prefix_of(address) {
        address
    } else {
        "http://"@ + address
    }
}

/// `s` without spaces and control characters.
pub open spec fn visible(s: Seq<char>) -> Seq<char>
    decreases s.len(),
{
    if s.len() == 0 {
        s
    } else if s.last() > ' ' {
        visible(s.drop_last()).push(s.last())
    } else {
        visible(s.drop_last())
    }
}

fn visible_text(s: &str) -> (r: String)
    ensures
        r@ == visible(s@),
{
    let x = chars_of(s);
    let mut out = String::new();
    let mut i: usize = 0;
    while i < x.len()
        invariant
            x@ == s@,
            i <= x.len(),
            out@ == visible(s@.take(i as int)),
        decreases x.len() - i,
    {
        proof {
            assert(s@.take(i + 1).drop_last() == s@.take(i as int));
        }
        if x[i] > ' ' {
            out.push(x[i]);
        }
        i = i + 1;
    }
    proof {
        assert(s@.take(i as int) == s@);
    }
    out
}

/// What stands between the scheme of a web address and its path, query or
/// fragment: the user, the host and the port. A backslash counts as a slash, any
/// number of slashes follows the scheme, and blanks count for nothing.
pub open spec fn authority(address: Seq<char>) -> Seq<char> {
    match split_once(replaced(visible(address), '\\', "/"@), ':') {
        Some((_, rest)) => before_char(
            before_char(before_char(trim_start_char(rest, '/'), '/'), '?'),
            '#',
        ),
        None => seq![],
    }
}

/// The port that is written in a web address, be it the scheme's own or not.
pub open spec fn written_port(address: Seq<char>) -> Option<u16> {
    match rsplit_once(authority(address), ':') {
        Some((_, digits)) => match parsed(digits, u16::MAX as nat) {
            Some(n) => Some(n as u16),
            None => None,
        },
        None => None,
    }
}

fn authority_text(address: &str) -> (r: String)
    ensures
        r@ == authority(address@),
{
    let plain = replace(visible_text(address).as_str(), '\\', "/");
    match cut_at_first(plain.as_str(), ':') {
        Some((_, rest)) => {
            let from = strip_leading(rest.as_str(), '/');
            let path_less = until_char(from.as_str(), '/');
            let query_less = until_char(path_less.as_str(), '?');
            until_char(query_less.as_str(), '#')
        },
        None => String::new(),
    }
}

/// Reads the port that is written in a web address, be it the scheme's own or
/// not.
pub fn port_written(address: &str) -> (r: Option<u16>)
    ensures
        r == written_port(address@),
{
    match cut_at_last(authority_text(address).as_str(), ':') {
        Some((_, digits)) => match parse_number(digits.as_str(), 65535) {
            Some(n) => Some(n as u16),
            None => None,
        },
        None => None,
    }
}

/// The connection to `addr`.
pub open spec fn remote_to(name: Seq<char>, addr: AddrView, token: Seq<char>) -> ConnView {
    ConnView {
        id: addr.host + "-"@ + decimal(addr.port as nat),
        name: if trimmed(name).len() == 0 {
            host_port(addr)
        } else {
            trimmed(name)
        },
        kind: ConnKind::Remote,
        base: base_url(addr),
        token: trimmed(token),
    }
}

/// The port that a user's entry names: the one it writes, or the daemon's usual
/// one. Parsing leaves a written port out where it is the scheme's own.
pub open spec fn entry_port(address: Seq<char>, port: Option<u16>) -> u16 {
    match port {
        Some(p) => p,
        None => match written_port(with_scheme(trimmed(address))) {
            Some(p) => p,
            None => 58627,
        },
    }
}

/// The connection that a user's entry names, for what parsing its address gave.
pub open spec fn remote_entry(
    name: Seq<char>,
    address: Seq<char>,
    token: Seq<char>,
    url: Result<UrlView, Seq<char>>,
) -> Result<ConnView, Seq<char>> {
    match url {
        Ok(u) => match u.host {
            Some(host) => if host.len() == 0 {
                Err("地址缺少主机名"@)
            } else {
                Ok(
                    remote_to(
                        name,
                        AddrView {
                            host,
                            port: entry_port(address, u.port),
                        },
                        token,
                    ),
                )
            },
            None => Err("地址缺少主机名"@),
        },
        Err(_) => Err("地址无法解析："@ + address),
    }
}

/// The connection that a user's entry names.
pub open spec fn remote_of(name: Seq<char>, address: Seq<char>, token: Seq<char>) -> Result<
    ConnView,
    Seq<char>,
> {
    if trimmed(address).len() == 0 {
        Err("请填写地址"@)
    } else {
        remote_entry(name, address, token, url_text(with_scheme(trimmed(address))))
    }
}

/// The view of a connection's outcome.
pub open spec fn conn_result(r: Result<Connection, String>) -> Result<ConnView, Seq<char>> {
    match r {
        Ok(c) => Ok(c@),
        Err(e) => Err(e@),
    }
}

fn schemed(address: String) -> (r: String)
    ensures
        r@ == with_scheme(address@),
{
    if starts_with(address.as_str(), "http://") || starts_with(address.as_str(), "https://") {
        address
    } else {
        let mut s = owned("http://");
        s.append(address.as_str());
        s
    }
}

/// Builds a connection from what parsing its address gave.
pub fn remote_connection(
    name: &str,
    address: &str,
    token: &str,
    url: Result<WebUrl, String>,
) -> (r: Result<Connection, String>)
    ensures
        conn_result(r) == remote_entry(name@, address@, token@, parse_view(url)),
{
    match url {
        Ok(u) => match u.host {
            Some(host) => {
                if host.as_str().is_empty() {
                    return Err(owned("地址缺少主机名"));
                }
                let port: u16 = match u.port {
                    Some(p) => p,
                    None => match port_written(schemed(trim(address)).as_str()) {
                        Some(p) => p,
                        None => 58627,
                    },
                };
                let addr = DaemonAddr { host, port };
                let mut id = addr.host.clone();
                id.append("-");
                id.append(to_decimal(port as u64).as_str());
                let given = trim(name);
                let shown = if given.as_str().is_empty() {
                    host_port_text(&addr)
                } else {
                    given
                };
                Ok(
                    Connection {
                        id,
                        name: shown,
                        kind: ConnKind::Remote,
                        base: crate::net::base_text(&addr),
                        token: trim(token),
                    },
                )
            },
            None => Err(owned("地址缺少主机名")),
        },
        Err(_) => {
            let mut e = owned("地址无法解析：");
            e.append(address);
            Err(e)
        },
    }
}

/// Validates a user-entered remote address into a connection. Accepts
/// `host:port`, `http://host:port`, or a bare host (default port 58627). The base
/// of every connection that comes of it leads back to the host and the port that
/// the connection was built from.
pub fn parse_remote_connection(name: &str, address: &str, token: &str) -> (r: Result<
    Connection,
    String,
>)
    ensures
        conn_result(r) == remote_of(name@, address@, token@),
        match r {
            Ok(c) => match addr_of(c@.base) {
                Some(addr) => c@ == remote_to(name@, addr, token@),
                None => false,
            },
            Err(_) => true,
        },
{
    let given = trim(address);
    if given.as_str().is_empty() {
        return Err(owned("请填写地址"));
    }
    let full = schemed(given);
    let url = parse_url(full.as_str());
    proof {
        if let Ok(u) = parse_view(url) {
            if let Some(host) = u.host {
                lemma_no_scheme(host);
                base_url_reads_back(AddrView { host, port: entry_port(address@, u.port) });
            }
        }
    }
    remote_connection(name, address, token, url)
}

/// What holds no slash is written without a scheme.
proof fn lemma_no_scheme(host: Seq<char>)
    requires
        !host.contains('/'),
    ensures
        !"http://"@.is_prefix_of(host),
{
    reveal_strlit("http://");
    if "http://"@.is_prefix_of(host) {
        assert(host[5] == "http://"@[5]);
    }
}

proof fn lemma_visible_add(a: Seq<char>, b: Seq<char>)
    ensures
        visible(a + b) == visible(a) + visible(b),
        (forall|i: int| 0 <= i < a.len() ==> a[i] > ' ') ==> visible(a) == a,
    decreases a.len() + b.len(),
{
    if b.len() > 0 {
        assert((a + b).drop_last() == a + b.drop_last());
        lemma_visible_add(a, b.drop_last());
    } else {
        assert(a + b == a);
        if a.len() > 0 {
            lemma_visible_add(a.drop_last(), b);
            if forall|i: int| 0 <= i < a.len() ==> a[i] > ' ' {
                assert forall|i: int| 0 <= i < a.drop_last().len() implies a.drop_last()[i] > ' ' by {
                    assert(a[i] > ' ');
                }
                assert(a.last() > ' ');
                assert(a.drop_last().push(a.last()) == a);
            }
        }
    }
}

proof fn lemma_replaced_add(a: Seq<char>, b: Seq<char>, c: char, with: Seq<char>)
    ensures
        replaced(a + b, c, with) == replaced(a, c, with) + replaced(b, c, with),
        !a.contains(c) ==> replaced(a, c, with) == a,
    decreases a.len() + b.len(),
{
    if b.len() > 0 {
        assert((a + b).drop_last() == a + b.drop_last());
        lemma_replaced_add(a, b.drop_last(), c, with);
    } else {
        assert(a + b == a);
        if a.len() > 0 {
            lemma_replaced_add(a.drop_last(), b, c, with);
            if !a.contains(c) {
                assert(a.last() == a[a.len() - 1]);
                assert forall|i: int| 0 <= i < a.drop_last().len() implies a.drop_last()[i] != c by {
                    assert(a[i] == a.drop_last()[i]);
                }
                assert(a.drop_last() + seq![a.last()] == a);
            }
        }
    }
}

proof fn lemma_before_add(a: Seq<char>, b: Seq<char>, c: char)
    requires
        !a.contains(c),
    ensures
        before_char(a + b, c) == a + before_char(b, c),
{
    lemma_find_char_bounds(b, c);
    let n = find_char(b, c);
    assert forall|j: int| 0 <= j < a.len() + n implies (a + b)[j] != c by {
        if j < a.len() {
            assert(a.contains(a[j]));
        } else {
            assert((a + b)[j] == b[j - a.len()]);
        }
    }
    lemma_find_char(a + b, c, a.len() + n);
    assert((a + b).take(a.len() + n) == a + b.take(n));
}

proof fn lemma_before_end(t: Seq<char>)
    requires
        t.len() == 0 || t[0] == '/' || t[0] == '?' || t[0] == '#',
    ensures
        before_char(before_char(before_char(t, '/'), '?'), '#') == Seq::<char>::empty(),
{
    lemma_find_char_bounds(t, '/');
    let a = before_char(t, '/');
    lemma_find_char_bounds(a, '?');
    let b = before_char(a, '?');
    lemma_find_char_bounds(b, '#');
}

/// Whether a text can stand between the scheme and the port of a web address.
pub open spec fn host_like(host: Seq<char>) -> bool {
    forall|i: int|
        0 <= i < host.len() ==> host[i] > ' ' && host[i] != '/' && host[i] != '\\' && host[i] != '?'
            && host[i] != '#'
}

/// Whether a text can follow the port of a web address.
pub open spec fn ends_authority(rest: Seq<char>) -> bool {
    rest.len() == 0 || rest[0] == '/' || rest[0] == '\\' || rest[0] == '?' || rest[0] == '#'
}

proof fn lemma_cleaned_rest(rest: Seq<char>)
    requires
        ends_authority(rest),
    ensures
        ({
            let tail = replaced(visible(rest), '\\', "/"@);
            tail.len() == 0 || tail[0] == '/' || tail[0] == '?' || tail[0] == '#'
        }),
{
    reveal_strlit("/");
    if rest.len() > 0 {
        let first = seq![rest[0]];
        assert(rest == first + rest.skip(1));
        lemma_visible_add(first, rest.skip(1));
        lemma_replaced_add(first, visible(rest.skip(1)), '\\', "/"@);
        assert(first.drop_last() == Seq::<char>::empty());
        reveal_with_fuel(replaced, 2);
        assert(replaced(first, '\\', "/"@) == (if rest[0] == '\\' {
            "/"@
        } else {
            first
        }));
    }
}

proof fn lemma_behind_scheme(scheme: Seq<char>, after: Seq<char>)
    requires
        scheme == "http://"@ || scheme == "https://"@,
        after.len() > 0,
        after[0] != '/',
    ensures
        match split_once(scheme + after, ':') {
            Some((_, rest)) => trim_start_char(rest, '/') == after,
            None => false,
        },
{
    reveal_strlit("http://");
    reveal_strlit("https://");
    let whole = scheme + after;
    let n = scheme.len() - 3;
    assert forall|j: int| 0 <= j < n implies whole[j] != ':' by {
        assert(whole[j] == scheme[j]);
    }
    assert(whole[n] == scheme[n]);
    lemma_find_char(whole, ':', n);
    let slashed = whole.skip(n + 1);
    assert(slashed[0] == scheme[n + 1]);
    assert(slashed.skip(1)[0] == scheme[n + 2]);
    assert(slashed.skip(1).skip(1) == after);
    reveal_with_fuel(trim_start_char, 3);
}

proof fn lemma_authority(scheme: Seq<char>, a: Seq<char>, rest: Seq<char>)
    requires
        scheme == "http://"@ || scheme == "https://"@,
        a.len() > 0,
        host_like(a),
        ends_authority(rest),
    ensures
        authority(scheme + a + rest) == a,
{
    let front = scheme + a;
    assert forall|i: int| 0 <= i < front.len() implies front[i] > ' ' && front[i] != '\\' by {
        reveal_strlit("http://");
        reveal_strlit("https://");
        if i >= scheme.len() {
            assert(front[i] == a[i - scheme.len()]);
        }
    }
    lemma_visible_add(front, rest);
    lemma_replaced_add(front, visible(rest), '\\', "/"@);
    lemma_cleaned_rest(rest);
    let tail = replaced(visible(rest), '\\', "/"@);
    assert(replaced(visible(front + rest), '\\', "/"@) == front + tail);
    assert(front + tail == scheme + (a + tail));
    lemma_behind_scheme(scheme, a + tail);
    lemma_before_add(a, tail, '/');
    lemma_before_add(a, before_char(tail, '/'), '?');
    lemma_before_add(a, before_char(before_char(tail, '/'), '?'), '#');
    lemma_before_end(tail);
    assert(a + Seq::<char>::empty() == a);
}

proof fn lemma_host_and_port(host: Seq<char>, port: u16)
    requires
        host_like(host),
    ensures
        host_like(host + ":"@ + decimal(port as nat)),
        rsplit_once(host + ":"@ + decimal(port as nat), ':') == Some((host, decimal(port as nat))),
{
    reveal_strlit(":");
    let digits = decimal(port as nat);
    lemma_decimal_value(port as nat);
    let a = host + ":"@ + digits;
    assert forall|i: int| host.len() < i < a.len() implies '0' <= #[trigger] a[i] && a[i] <= '9' by {
        assert(a[i] == digits[i - host.len() - 1]);
        assert(crate::text::is_digit(digits[i - host.len() - 1]));
    }
    assert forall|i: int| 0 <= i < host.len() implies #[trigger] a[i] == host[i] by {}
    assert(a[host.len() as int] == ':');
    lemma_rfind_char_bounds(a, ':');
    assert(a.take(host.len() as int) == host);
    assert(a.skip(host.len() as int + 1) == digits);
}

/// The port that an address writes is the one that is read, the scheme's own
/// included, whatever the host and whatever path, query or fragment follows.
pub proof fn written_port_reads_back(scheme: Seq<char>, host: Seq<char>, port: u16, rest: Seq<char>)
    requires
        scheme == "http://"@ || scheme == "https://"@,
        host_like(host),
        ends_authority(rest),
    ensures
        written_port(scheme + host + ":"@ + decimal(port as nat) + rest) == Some(port),
{
    let a = host + ":"@ + decimal(port as nat);
    lemma_decimal_value(port as nat);
    decimal_reads_back(port as nat, u16::MAX as nat);
    lemma_host_and_port(host, port);
    lemma_authority(scheme, a, rest);
    assert(scheme + a + rest == scheme + host + ":"@ + decimal(port as nat) + rest);
}

/// A connection goes to the port that its entry writes, the scheme's own
/// included, which parsing leaves out.
pub proof fn written_port_is_kept(
    name: Seq<char>,
    address: Seq<char>,
    token: Seq<char>,
    url: UrlView,
    scheme: Seq<char>,
    host: Seq<char>,
    port: u16,
    rest: Seq<char>,
)
    requires
        scheme == "http://"@ || scheme == "https://"@,
        host_like(host),
        ends_authority(rest),
        with_scheme(trimmed(address)) == scheme + host + ":"@ + decimal(port as nat) + rest,
        url.host is Some,
        url.host->0.len() > 0,
        url.port is None || url.port == Some(port),
    ensures
        remote_entry(name, address, token, Ok(url)) == Ok::<ConnView, Seq<char>>(
            remote_to(name, AddrView { host: url.host->0, port }, token),
        ),
{
    written_port_reads_back(scheme, host, port, rest);
}

/// A remote connection's base address leads back to the daemon that was entered,
/// for every host that is not itself written with a scheme.
pub proof fn remote_address_reads_back(name: Seq<char>, addr: AddrView, token: Seq<char>)
    requires
        !"http://"@.is_prefix_of(addr.host),
    ensures
        addr_of(remote_to(name, addr, token).base) == Some(addr),
{
    base_url_reads_back(addr);
}

proof fn lemma_remote_id_splits(addr: AddrView)
    ensures
        crate::text::rsplit_once(addr.host + "-"@ + decimal(addr.port as nat), '-') == Some(
            (addr.host, decimal(addr.port as nat)),
        ),
{
    let digits = decimal(addr.port as nat);
    let id = addr.host + "-"@ + digits;
    let n = addr.host.len() as int;
    reveal_strlit("-");
    crate::text::lemma_decimal_value(addr.port as nat);
    crate::text::lemma_rfind_char_bounds(id, '-');
    let i = crate::text::rfind_char(id, '-');
    assert(id[n] == '-');
    if i > n {
        assert(id[i] == digits[i - n - 1]);
        assert(crate::text::is_digit(digits[i - n - 1]));
    }
    assert(i == n);
    assert(id.take(n) =~= addr.host);
    assert(id.skip(n + 1) =~= digits);
}

/// Two remote connections have the same id only if they are to the same daemon.
pub proof fn remote_ids_tell_daemons_apart(
    a: AddrView,
    b: AddrView,
    name: Seq<char>,
    other: Seq<char>,
    token: Seq<char>,
)
    requires
        remote_to(name, a, token).id == remote_to(other, b, token).id,
    ensures
        a == b,
{
    lemma_remote_id_splits(a);
    lemma_remote_id_splits(b);
    crate::text::decimal_reads_back(a.port as nat, u16::MAX as nat);
    crate::text::decimal_reads_back(b.port as nat, u16::MAX as nat);
}

/// A label keeps every character of an id that a label may hold, in its place, and
/// has an underscore in the place of every other.
pub proof fn labels_keep_what_they_may(id: Seq<char>, i: int)
    requires
        0 <= i < id.len(),
    ensures
        "view-"@.is_prefix_of(label_of(id)),
        label_of(id).len() == 5 + id.len(),
        label_of(id)[5 + i] == id[i] || label_of(id)[5 + i] == '_',
        ('a' <= id[i] <= 'z') || ('A' <= id[i] <= 'Z') || ('0' <= id[i] <= '9') || id[i] == '-' || id[i]
            == '/' || id[i] == ':' || id[i] == '_' ==> label_of(id)[5 + i] == id[i],
        !(('a' <= id[i] <= 'z') || ('A' <= id[i] <= 'Z') || ('0' <= id[i] <= '9') || id[i] == '-'
            || id[i] == '/' || id[i] == ':' || id[i] == '_') ==> label_of(id)[5 + i] == '_',
{
    reveal_strlit("view-");
    assert("view-"@ =~= label_of(id).subrange(0, 5));
    assert(label_of(id)[5 + i] == label_safe(id)[i]);
}

/// A remote connection is shown under the name that was entered, and under its
/// host and port where none was; it carries the token that was entered. White
/// space around either counts for nothing.
pub proof fn remote_connections_are_as_entered(name: Seq<char>, addr: AddrView, token: Seq<char>)
    ensures
        remote_to(name, addr, token).kind == ConnKind::Remote,
        exists|a: int, b: int| inside_white(remote_to(name, addr, token).token, token, a, b),
        remote_to(name, addr, token).token.len() > 0 ==> !is_space(
            remote_to(name, addr, token).token[0],
        ) && !is_space(remote_to(name, addr, token).token.last()),
        (forall|k: int| 0 <= k < name.len() ==> is_space(#[trigger] name[k])) ==> remote_to(
            name,
            addr,
            token,
        ).name == addr.host + ":"@ + decimal(addr.port as nat),
        (exists|k: int| 0 <= k < name.len() && !is_space(#[trigger] name[k])) ==> exists|a: int, b: int|
            inside_white(remote_to(name, addr, token).name, name, a, b),
        (exists|k: int| 0 <= k < name.len() && !is_space(#[trigger] name[k])) ==> remote_to(
            name,
            addr,
            token,
        ).name.len() > 0 && !is_space(remote_to(name, addr, token).name[0]) && !is_space(
            remote_to(name, addr, token).name.last(),
        ),
        remote_to(name, addr, token).id == addr.host + "-"@ + decimal(addr.port as nat),
        remote_to(name, addr, token).base == "http://"@ + addr.host + ":"@ + decimal(addr.port as nat),
{
    trimming_takes_outer_white_space(name);
    trimming_takes_outer_white_space(token);
    crate::net::addresses_are_written_in_full(addr);
    let c = remote_to(name, addr, token);
    let (a, b) = choose|a: int, b: int| inside_white(trimmed(token), token, a, b);
    assert(inside_white(c.token, token, a, b));
    let (x, y) = choose|x: int, y: int| inside_white(trimmed(name), name, x, y);
    if trimmed(name).len() > 0 {
        assert(inside_white(c.name, name, x, y));
    }
}

/// An entry is refused, with the reason in words, where it is blank, where its
/// address cannot be parsed and where that has no host; otherwise it becomes a
/// connection to the host that was parsed, at the port that was, if any.
pub proof fn entries_are_taken_or_refused(
    name: Seq<char>,
    address: Seq<char>,
    token: Seq<char>,
    url: Result<UrlView, Seq<char>>,
)
    ensures
        match url {
            Ok(u) => match u.host {
                Some(host) => if host.len() == 0 {
                    remote_entry(name, address, token, url) == Err::<ConnView, Seq<char>>(
                        "地址缺少主机名"@,
                    )
                } else {
                    match remote_entry(name, address, token, url) {
                        Ok(c) => exists|port: u16|
                            c == #[trigger] remote_to(name, AddrView { host, port }, token) && (
                            u.port is Some ==> u.port == Some(port)),
                        Err(_) => false,
                    }
                },
                None => remote_entry(name, address, token, url) == Err::<ConnView, Seq<char>>(
                    "地址缺少主机名"@,
                ),
            },
            Err(_) => remote_entry(name, address, token, url) == Err::<ConnView, Seq<char>>(
                "地址无法解析："@ + address,
            ),
        },
        (forall|k: int| 0 <= k < address.len() ==> is_space(#[trigger] address[k])) ==> remote_of(
            name,
            address,
            token,
        ) == Err::<ConnView, Seq<char>>("请填写地址"@),
{
    trimming_takes_outer_white_space(address);
    if let Ok(u) = url {
        if let Some(host) = u.host {
            if host.len() > 0 {
                assert(remote_entry(name, address, token, url)->Ok_0 == remote_to(
                    name,
                    AddrView { host, port: entry_port(address, u.port) },
                    token,
                ));
            }
        }
    }
}

/// A bare host gets the daemon's usual port, whatever path, query or fragment
/// follows it.
pub proof fn bare_hosts_get_the_usual_port(
    address: Seq<char>,
    scheme: Seq<char>,
    host: Seq<char>,
    rest: Seq<char>,
)
    requires
        scheme == "http://"@ || scheme == "https://"@,
        host.len() > 0,
        host_like(host),
        !host.contains(':'),
        ends_authority(rest),
        with_scheme(trimmed(address)) == scheme + host + rest,
    ensures
        entry_port(address, None) == 58627,
{
    lemma_authority(scheme, host, rest);
    lemma_rfind_char_bounds(host, ':');
    let i = crate::text::rfind_char(host, ':');
    if i >= 0 {
        assert(host.contains(host[i]));
    }
}

/// An address keeps the scheme that it is entered with, and gets one only where it
/// has none.
pub proof fn entered_schemes_stay(address: Seq<char>)
    ensures
        "http://"@.is_prefix_of(address) || "https://"@.is_prefix_of(address) ==> with_scheme(address)
            == address,
        !"http://"@.is_prefix_of(address) && !"https://"@.is_prefix_of(address) ==> with_scheme(
            address,
        ) == "http://"@ + address,
{
}

/// A remote daemon's page is on its own origin, with the shell's flags in the
/// query and the token in the fragment.
pub proof fn remote_pages_are_same_origin(base: Seq<char>, token: Seq<char>, p: Platform)
    ensures
        exists|origin: Seq<char>|
            origin.is_prefix_of(base) && (origin.len() > 0 ==> origin.last() != '/') && (forall|k: int|
                origin.len() <= k < base.len() ==> #[trigger] base[k] == '/') && remote_page(
                base,
                token,
                p,
            ) == #[trigger] (origin + "/?kimi_desktop&platform="@) + node_platform(p) + "#token="@
                + token,
{
    crate::text::trailing_run_is_cut(base, '/');
    let origin = crate::text::trim_end_char(base, '/');
    assert(remote_page(base, token, p) == (origin + "/?kimi_desktop&platform="@) + node_platform(p)
        + "#token="@ + token);
}

/// A remote connection loads its daemon's own page. The local one loads the shell's
/// page where that is served and its address is one, and the daemon's base
/// otherwise.
pub proof fn connections_load_their_page(c: ConnView, port: u16, p: Platform)
    ensures
        c.kind == ConnKind::Remote ==> conn_url(c, Some(port), p) == url_text(
            remote_page(c.base, c.token, p),
        ) && conn_url(c, None, p) == conn_url(c, Some(port), p),
        c.kind == ConnKind::Local ==> conn_url(c, None, p) == url_text(c.base),
        c.kind == ConnKind::Local ==> conn_url(c, Some(port), p) == match url_text(
            crate::web::custom_ui_page(port, c.base, c.token, p),
        ) {
            Ok(u) => Ok::<UrlView, Seq<char>>(u),
            Err(_) => url_text(c.base),
        },
{
}

/// A connection, and a list of them, is viewed as what it holds, in order.
pub proof fn connections_are_viewed_as_they_are(v: Seq<Connection>, i: int)
    requires
        0 <= i < v.len(),
    ensures
        conn_views(v).len() == v.len(),
        conn_views(v)[i].id == v[i].id@,
        conn_views(v)[i].name == v[i].name@,
        conn_views(v)[i].kind == v[i].kind,
        conn_views(v)[i].base == v[i].base@,
        conn_views(v)[i].token == v[i].token@,
{
}

} // verus!

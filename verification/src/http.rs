//! The daemon's HTTP interface: requests as they are sent, responses as they
//! are read.
use vstd::prelude::*;

use crate::json::{json_text, parse_json, Json, JsonView};
use crate::net::{host_port, host_port_text, AddrView, DaemonAddr};
use crate::text::{
    before_char, cut_at_last, cut_at_str, find_char, owned, parse_number, parsed, rsplit_once,
    split_once_str, starts_with, strip_leading_str, trim_start_str,
};

verus! {

broadcast use vstd::string::group_string_axioms;

/// What `String::from_utf8_lossy` makes of bytes.
pub uninterp spec fn utf8_lossy(bytes: Seq<u8>) -> Seq<char>;

/// `String::from_utf8_lossy`: bytes that are UTF-8 are decoded; in others, what
/// is not UTF-8 is replaced.
#[verifier::external_body]
pub(crate) fn decode_lossy(bytes: &[u8]) -> (r: String)
    ensures
        r@ == utf8_lossy(bytes@),
        vstd::utf8::valid_utf8(bytes@) ==> r@ == vstd::utf8::decode_utf8(bytes@),
{
    String::from_utf8_lossy(bytes).into_owned()
}

/// The address that a base URL names, or why it names none.
pub open spec fn endpoint_of(base: Seq<char>) -> Result<AddrView, Seq<char>> {
    match rsplit_once(trim_start_str(base, "http://"@), ':') {
        Some((host, port)) => match parsed(port, u16::MAX as nat) {
            Some(n) => Ok(AddrView { host, port: n as u16 }),
            None => Err("daemon 端口无效："@ + port),
        },
        None => Err("daemon 地址缺少端口："@ + base),
    }
}

/// Reads the address to send a request to from a base URL.
pub fn daemon_endpoint(base: &str) -> (r: Result<DaemonAddr, String>)
    ensures
        match r {
            Ok(a) => endpoint_of(base@) == Ok::<AddrView, Seq<char>>(a@),
            Err(e) => endpoint_of(base@) == Err::<AddrView, Seq<char>>(e@),
        },
{
    let host_part = strip_leading_str(base, "http://");
    match cut_at_last(host_part.as_str(), ':') {
        Some((host, port)) => match parse_number(port.as_str(), u16::MAX as u32) {
            Some(n) => Ok(DaemonAddr { host, port: n as u16 }),
            None => {
                let mut e = owned("daemon 端口无效：");
                e.append(port.as_str());
                Err(e)
            },
        },
        None => {
            let mut e = owned("daemon 地址缺少端口：");
            e.append(base);
            Err(e)
        },
    }
}

/// The bearer-authenticated GET request for `path`.
pub open spec fn get_request(addr: AddrView, path: Seq<char>, token: Seq<char>) -> Seq<char> {
    "GET "@ + path + " HTTP/1.1\r\nHost: "@ + host_port(addr) + "\r\nAuthorization: Bearer "@ + token
        + "\r\nConnection: close\r\n\r\n"@
}

/// Writes the request for `path`.
pub fn get_request_text(addr: &DaemonAddr, path: &str, token: &str) -> (r: String)
    ensures
        r@ == get_request(addr@, path@, token@),
{
    let mut out = owned("GET ");
    out.append(path);
    out.append(" HTTP/1.1\r\nHost: ");
    out.append(host_port_text(addr).as_str());
    out.append("\r\nAuthorization: Bearer ");
    out.append(token);
    out.append("\r\nConnection: close\r\n\r\n");
    out
}

/// The bearer-authenticated request that asks a daemon to exit.
pub open spec fn shutdown_request(addr: AddrView, token: Seq<char>) -> Seq<char> {
    "POST /api/v1/shutdown HTTP/1.1\r\nHost: "@ + host_port(addr) + "\r\nAuthorization: Bearer "@
        + token + "\r\nContent-Length: 0\r\nConnection: close\r\n\r\n"@
}

/// Writes the request that asks one daemon to exit via its own graceful route.
pub fn shutdown_request_text(addr: &DaemonAddr, token: &str) -> (r: String)
    ensures
        r@ == shutdown_request(addr@, token@),
{
    let mut out = owned("POST /api/v1/shutdown HTTP/1.1\r\nHost: ");
    out.append(host_port_text(addr).as_str());
    out.append("\r\nAuthorization: Bearer ");
    out.append(token);
    out.append("\r\nContent-Length: 0\r\nConnection: close\r\n\r\n");
    out
}

/// The first line of `s`, without its line ending.
pub open spec fn first_line(s: Seq<char>) -> Seq<char> {
    let line = before_char(s, '\n');
    if find_char(s, '\n') < s.len() && line.len() > 0 && line.last() == '\r' {
        line.drop_last()
    } else {
        line
    }
}

fn first_line_text(s: &str) -> (r: String)
    ensures
        r@ == first_line(s@),
{
    match crate::text::cut_at_first(s, '\n') {
        Some((line, _)) => {
            proof {
                crate::text::lemma_find_char_bounds(s@, '\n');
            }
            let x = crate::text::chars_of(line.as_str());
            let n: usize = x.len();
            if n > 0 && x[n - 1] == '\r' {
                proof {
                    assert(x@.subrange(0, n - 1) == x@.drop_last());
                }
                crate::text::string_of(&x, 0, n - 1)
            } else {
                line
            }
        },
        None => {
            proof {
                crate::text::lemma_find_char_bounds(s@, '\n');
                assert(s@.take(s@.len() as int) == s@);
            }
            owned(s)
        },
    }
}

/// The body of a response that answers 200, or why there is none.
pub open spec fn body_of(response: Seq<char>) -> Result<Seq<char>, Seq<char>> {
    match split_once_str(response, "\r\n\r\n"@) {
        Some((head, body)) => if "HTTP/1.1 200"@.is_prefix_of(head) {
            Ok(body)
        } else {
            Err("daemon 响应非 200："@ + first_line(head))
        },
        None => Err("daemon 响应缺少头部分隔"@),
    }
}

/// Takes the body out of a response.
pub fn response_body(response: &str) -> (r: Result<String, String>)
    ensures
        match r {
            Ok(b) => body_of(response@) == Ok::<Seq<char>, Seq<char>>(b@),
            Err(e) => body_of(response@) == Err::<Seq<char>, Seq<char>>(e@),
        },
{
    match cut_at_str(response, "\r\n\r\n") {
        Some((head, body)) => if starts_with(head.as_str(), "HTTP/1.1 200") {
            Ok(body)
        } else {
            let mut e = owned("daemon 响应非 200：");
            e.append(first_line_text(head.as_str()).as_str());
            Err(e)
        },
        None => Err(owned("daemon 响应缺少头部分隔")),
    }
}

/// The document in a body, for what the JSON parser makes of it.
pub open spec fn document_in(parsed_body: Result<JsonView, Seq<char>>) -> Result<
    JsonView,
    Seq<char>,
> {
    match parsed_body {
        Ok(v) => Ok(v),
        Err(e) => Err("解析 JSON 失败："@ + e),
    }
}

/// The document that a daemon's response holds.
pub open spec fn json_answer(raw: Seq<u8>) -> Result<JsonView, Seq<char>> {
    match body_of(utf8_lossy(raw)) {
        Ok(body) => document_in(json_text(body)),
        Err(e) => Err(e),
    }
}

/// The view of an answer.
pub open spec fn answer_view(r: Result<Json, String>) -> Result<JsonView, Seq<char>> {
    match r {
        Ok(v) => Ok(v@),
        Err(e) => Err(e@),
    }
}

/// Reports a body that is no document.
pub fn parsed_document(parsed_body: Result<Json, String>) -> (r: Result<Json, String>)
    ensures
        answer_view(r) == document_in(answer_view(parsed_body)),
{
    match parsed_body {
        Ok(v) => Ok(v),
        Err(e) => {
            let mut message = owned("解析 JSON 失败：");
            message.append(e.as_str());
            Err(message)
        },
    }
}

/// Reads the JSON document out of the bytes that a daemon answered.
pub fn response_json(raw: &[u8]) -> (r: Result<Json, String>)
    ensures
        answer_view(r) == json_answer(raw@),
{
    let response = decode_lossy(raw);
    match response_body(response.as_str()) {
        Ok(body) => parsed_document(parse_json(body.as_str())),
        Err(e) => Err(e),
    }
}

/// Where an exchange with the daemon failed.
#[derive(Clone, Copy, PartialEq, Eq, Structural, Debug)]
pub enum Stage {
    Connect,
    Prepare,
    Send,
    Receive,
}

/// How a failed exchange is reported.
pub open spec fn exchange_failure(stage: Stage, e: Seq<char>) -> Seq<char> {
    match stage {
        Stage::Connect => "连接 daemon 失败："@ + e,
        Stage::Prepare => e,
        Stage::Send => "发送请求失败："@ + e,
        Stage::Receive => "读取响应失败："@ + e,
    }
}

/// Reports a failed exchange.
pub fn exchange_error(stage: Stage, e: &str) -> (r: String)
    ensures
        r@ == exchange_failure(stage, e@),
{
    let mut out = match stage {
        Stage::Connect => owned("连接 daemon 失败："),
        Stage::Prepare => {
            return owned(e);
        },
        Stage::Send => owned("发送请求失败："),
        Stage::Receive => owned("读取响应失败："),
    };
    out.append(e);
    out
}

/// A request goes to the address that its base names, the same that the base is
/// read as elsewhere; a base without a port, or with a bad one, is reported.
pub proof fn requests_go_to_the_named_address(base: Seq<char>, a: AddrView)
    ensures
        endpoint_of(base) == Ok::<AddrView, Seq<char>>(a) <==> crate::net::addr_of(base) == Some(a),
        match endpoint_of(base) {
            Ok(_) => true,
            Err(e) => e == "daemon 地址缺少端口："@ + base || exists|port: Seq<char>|
                #[trigger] port.is_suffix_of(base) && parsed(port, u16::MAX as nat) is None && e
                    == "daemon 端口无效："@ + port,
        },
{
    let rest = trim_start_str(base, "http://"@);
    crate::text::last_cut_joins_back(rest, ':');
    lemma_scheme_cut(base, "http://"@);
    if let Some((host, port)) = rsplit_once(rest, ':') {
        assert(port == rest.subrange(rest.len() - port.len(), rest.len() as int));
        assert(port.is_suffix_of(base));
    }
}

proof fn lemma_scheme_cut(s: Seq<char>, p: Seq<char>)
    ensures
        trim_start_str(s, p).is_suffix_of(s),
    decreases s.len(),
{
    if p.len() > 0 && p.is_prefix_of(s) {
        lemma_scheme_cut(s.skip(p.len() as int), p);
    }
}

/// A request names its method and path, the daemon's host and port, and the token;
/// the one that asks for an exit goes to the daemon's own route for that.
pub proof fn requests_carry_path_host_and_token(addr: AddrView, path: Seq<char>, token: Seq<char>)
    ensures
        get_request(addr, path, token) == "GET "@ + path + " HTTP/1.1\r\nHost: "@ + (addr.host + ":"@
            + crate::text::decimal(addr.port as nat)) + "\r\nAuthorization: Bearer "@ + token
            + "\r\nConnection: close\r\n\r\n"@,
        shutdown_request(addr, token) == "POST /api/v1/shutdown HTTP/1.1\r\nHost: "@ + (addr.host + ":"@
            + crate::text::decimal(addr.port as nat)) + "\r\nAuthorization: Bearer "@ + token
            + "\r\nContent-Length: 0\r\nConnection: close\r\n\r\n"@,
{
}

/// The body of a response is all that stands behind its first empty line, where
/// the response says 200.
pub proof fn bodies_stand_behind_the_head(head: Seq<char>, body: Seq<char>)
    requires
        forall|j: int|
            0 <= j < head.len() ==> #[trigger] (head + "\r\n\r\n"@ + body).subrange(j, j + 4)
                != "\r\n\r\n"@,
    ensures
        "HTTP/1.1 200"@.is_prefix_of(head) ==> body_of(head + "\r\n\r\n"@ + body) == Ok::<
            Seq<char>,
            Seq<char>,
        >(body),
        !"HTTP/1.1 200"@.is_prefix_of(head) ==> body_of(head + "\r\n\r\n"@ + body) == Err::<
            Seq<char>,
            Seq<char>,
        >("daemon 响应非 200："@ + first_line(head)),
{
    reveal_strlit("\r\n\r\n");
    let gap = "\r\n\r\n"@;
    let s = head + gap + body;
    let n = head.len() as int;
    assert(gap.len() == 4);
    assert(s.subrange(n, n + 4) == gap);
    crate::text::first_occurrence_is_found(s, gap, n);
    assert(s.take(n) =~= head);
    assert(s.skip(n + 4) =~= body);
}

/// A response without an empty line has no body, and it is said so.
pub proof fn headless_responses_are_reported(response: Seq<char>)
    requires
        forall|j: int|
            0 <= j <= response.len() - 4 ==> #[trigger] response.subrange(j, j + 4) != "\r\n\r\n"@,
    ensures
        body_of(response) == Err::<Seq<char>, Seq<char>>("daemon 响应缺少头部分隔"@),
{
    reveal_strlit("\r\n\r\n");
    assert("\r\n\r\n"@.len() == 4);
    crate::text::lemma_find_str_bounds(response, "\r\n\r\n"@);
    let i = crate::text::find_str(response, "\r\n\r\n"@);
    if i >= 0 {
        assert(response.subrange(i, i + 4) == "\r\n\r\n"@);
    }
}

/// The first line is what stands before the first line feed, without a carriage
/// return at its end.
pub proof fn first_lines_end_at_the_line_feed(line: Seq<char>, rest: Seq<char>)
    requires
        !line.contains('\n'),
    ensures
        first_line(line.push('\r').push('\n') + rest) == line,
        line.len() == 0 || line.last() != '\r' ==> first_line(line.push('\n') + rest) == line,
        first_line(line) == line,
{
    let a = line.push('\r').push('\n') + rest;
    let b = line.push('\n') + rest;
    let n = line.len() as int;
    assert forall|j: int| 0 <= j < n implies #[trigger] line[j] != '\n' by {
        assert(line.contains(line[j]));
    }
    assert forall|j: int| 0 <= j < n + 1 implies a[j] != '\n' by {
        if j < n {
            assert(a[j] == line[j]);
        }
    }
    assert forall|j: int| 0 <= j < n implies b[j] != '\n' by {
        assert(b[j] == line[j]);
    }
    crate::text::lemma_find_char(a, '\n', n + 1);
    crate::text::lemma_find_char(b, '\n', n);
    crate::text::lemma_find_char(line, '\n', n);
    assert(a.take(n + 1) =~= line.push('\r'));
    assert(line.push('\r').drop_last() =~= line);
    assert(b.take(n) =~= line);
    assert(line.take(n) =~= line);
}

/// A document is handed on as it is, and a failure with its cause: what the parser
/// said, or what the system said of the exchange.
pub proof fn failures_carry_their_cause(v: JsonView, e: Seq<char>)
    ensures
        document_in(Ok(v)) == Ok::<JsonView, Seq<char>>(v),
        document_in(Err(e)) == Err::<JsonView, Seq<char>>("解析 JSON 失败："@ + e),
        exchange_failure(Stage::Connect, e) == "连接 daemon 失败："@ + e,
        exchange_failure(Stage::Prepare, e) == e,
        exchange_failure(Stage::Send, e) == "发送请求失败："@ + e,
        exchange_failure(Stage::Receive, e) == "读取响应失败："@ + e,
{
}

/// An answer is the document in the body of the response, or the reason why there
/// is none.
pub proof fn answers_are_the_document_in_the_body(raw: Seq<u8>)
    ensures
        match body_of(utf8_lossy(raw)) {
            Ok(body) => match json_text(body) {
                Ok(v) => json_answer(raw) == Ok::<JsonView, Seq<char>>(v),
                Err(e) => json_answer(raw) == Err::<JsonView, Seq<char>>("解析 JSON 失败："@ + e),
            },
            Err(e) => json_answer(raw) == Err::<JsonView, Seq<char>>(e),
        },
{
}

} // verus!

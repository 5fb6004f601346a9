//! Minimal loopback static file server for the official web bundle: how a
//! request is read, which asset it gets, and what is answered.
use vstd::prelude::*;

use vstd::hash_map::StringHashMap;

use crate::http::{decode_lossy, utf8_lossy};
use crate::text::{
    after_prefix, before_char, cut_at_last, fields, fields_go_text_by_text, is_space, owned, replace, replaced, rsplit_once, same,
    split, split_words, starts_with, strip_leading, strip_prefix, to_decimal, trim_start_char,
    until_char, words,
};

verus! {

broadcast use vstd::string::group_string_axioms;

/// The segments of a path that name something.
pub open spec fn named_segments(segments: Seq<Seq<char>>) -> Seq<Seq<char>>
    decreases segments.len(),
{
    if segments.len() == 0 {
        seq![]
    } else if segments.last().len() == 0 || segments.last() == "."@ {
        named_segments(segments.drop_last())
    } else {
        named_segments(segments.drop_last()).push(segments.last())
    }
}

/// The file name at the end of a path.
pub open spec fn file_name(path: Seq<char>) -> Option<Seq<char>> {
    let names = named_segments(split(path, '/'));
    if names.len() == 0 || names.last() == ".."@ {
        None
    } else {
        Some(names.last())
    }
}

/// What stands behind the last dot of a path's file name, unless that dot
/// begins the name.
pub open spec fn extension(path: Seq<char>) -> Option<Seq<char>> {
    match file_name(path) {
        Some(name) => match rsplit_once(name, '.') {
            Some((stem, ext)) => if stem.len() == 0 {
                None
            } else {
                Some(ext)
            },
            None => None,
        },
        None => None,
    }
}

/// The media type for an extension.
pub open spec fn mime_for(ext: Option<Seq<char>>) -> Seq<char> {
    match ext {
        Some(e) => if e == "html"@ {
            "text/html; charset=utf-8"@
        } else if e == "js"@ {
            "text/javascript; charset=utf-8"@
        } else if e == "css"@ {
            "text/css; charset=utf-8"@
        } else if e == "json"@ || e == "map"@ {
            "application/json; charset=utf-8"@
        } else if e == "png"@ {
            "image/png"@
        } else if e == "svg"@ {
            "image/svg+xml"@
        } else if e == "ico"@ {
            "image/x-icon"@
        } else if e == "wasm"@ {
            "application/wasm"@
        } else if e == "woff"@ {
            "font/woff"@
        } else if e == "woff2"@ {
            "font/woff2"@
        } else if e == "ttf"@ {
            "font/ttf"@
        } else if e == "txt"@ {
            "text/plain; charset=utf-8"@
        } else {
            "application/octet-stream"@
        },
        None => "application/octet-stream"@,
    }
}

/// The media type of the file at `path`.
pub open spec fn mime_of(path: Seq<char>) -> Seq<char> {
    mime_for(extension(path))
}

fn last_name(path: &str) -> (r: Option<String>)
    ensures
        crate::web::opt_text(r) == file_name(path@),
{
    let segments = fields(path, '/');
    let mut i: usize = segments.len();
    let ghost sv = crate::text::views(segments@);
    proof {
        assert(sv.take(i as int) == sv);
    }
    while i > 0
        invariant
            sv == crate::text::views(segments@),
            sv == split(path@, '/'),
            i <= segments@.len(),
            named_segments(sv) == named_segments(sv.take(i as int)),
        decreases i,
    {
        proof {
            assert(sv.take(i as int).drop_last() == sv.take(i - 1));
            assert(sv.take(i as int).last() == segments@[i - 1]@);
        }
        let s = segments[i - 1].as_str();
        if !(s.is_empty() || same(s, ".")) {
            if same(s, "..") {
                return None;
            }
            return Some(segments[i - 1].clone());
        }
        i = i - 1;
    }
    None
}

/// The media type of a file, by the extension of its `/`-separated path.
pub fn content_type(path: &str) -> (r: &'static str)
    ensures
        r@ == mime_of(path@),
{
    let name = match last_name(path) {
        Some(name) => name,
        None => {
            return "application/octet-stream";
        },
    };
    let ext = match cut_at_last(name.as_str(), '.') {
        Some((stem, ext)) => {
            if stem.as_str().is_empty() {
                return "application/octet-stream";
            }
            ext
        },
        None => {
            return "application/octet-stream";
        },
    };
    let e = ext.as_str();
    if same(e, "html") {
        "text/html; charset=utf-8"
    } else if same(e, "js") {
        "text/javascript; charset=utf-8"
    } else if same(e, "css") {
        "text/css; charset=utf-8"
    } else if same(e, "json") || same(e, "map") {
        "application/json; charset=utf-8"
    } else if same(e, "png") {
        "image/png"
    } else if same(e, "svg") {
        "image/svg+xml"
    } else if same(e, "ico") {
        "image/x-icon"
    } else if same(e, "wasm") {
        "application/wasm"
    } else if same(e, "woff") {
        "font/woff"
    } else if same(e, "woff2") {
        "font/woff2"
    } else if same(e, "ttf") {
        "font/ttf"
    } else if same(e, "txt") {
        "text/plain; charset=utf-8"
    } else {
        "application/octet-stream"
    }
}

/// A URL path names a content-hashed file.
pub open spec fn is_asset(url_path: Seq<char>) -> bool {
    "assets/"@.is_prefix_of(trim_start_char(url_path, '/'))
}

/// How long an answer for a URL path may be reused.
pub open spec fn cache_rule(url_path: Seq<char>) -> Seq<char> {
    if is_asset(url_path) {
        "public, max-age=31536000, immutable"@
    } else {
        "no-cache"@
    }
}

/// Content-hashed files below assets/ can be reused across launches
/// indefinitely; index.html and other stable names must revalidate so that an
/// upstream bundle update immediately picks up its new hashed entrypoints.
pub fn cache_control(url_path: &str) -> (r: &'static str)
    ensures
        r@ == cache_rule(url_path@),
{
    if starts_with(strip_leading(url_path, '/').as_str(), "assets/") {
        "public, max-age=31536000, immutable"
    } else {
        "no-cache"
    }
}

/// Where served assets come from.
pub enum AssetSource {
    /// A directory on disk (dev builds: the freshly built web-dist/).
    Dir(String),
    /// In-memory map (release builds: web-dist/ embedded into the exe).
    /// Keys are `/`-separated paths relative to the bundle root.
    Memory(StringHashMap<(&'static [u8], &'static str)>),
}

/// The assets of an in-memory source by their key: contents and media type.
pub open spec fn assets_in(m: Map<Seq<char>, (&'static [u8], &'static str)>) -> Map<
    Seq<char>,
    (Seq<u8>, Seq<char>),
> {
    m.map_values(|a: (&'static [u8], &'static str)| (a.0@, a.1@))
}

/// The key of the file at `path`.
pub open spec fn asset_key(path: Seq<char>) -> Seq<char> {
    let key = replaced(path, '\\', "/"@);
    match after_prefix(key, "./"@) {
        Some(rest) => rest,
        None => key,
    }
}

/// The assets that a list of files makes; of two with one key the later counts.
pub open spec fn assets_of(files: Seq<(Seq<char>, Seq<u8>)>) -> Map<Seq<char>, (Seq<u8>, Seq<char>)>
    decreases files.len(),
{
    if files.len() == 0 {
        Map::empty()
    } else {
        assets_of(files.drop_last()).insert(
            asset_key(files.last().0),
            (files.last().1, mime_of(asset_key(files.last().0))),
        )
    }
}

/// What an in-memory source finds for a URL path.
pub open spec fn asset_at(assets: Map<Seq<char>, (Seq<u8>, Seq<char>)>, url_path: Seq<char>) -> Option<
    (Seq<u8>, Seq<char>),
> {
    let trimmed = trim_start_char(url_path, '/');
    let clean = if trimmed.len() == 0 {
        "index.html"@
    } else {
        trimmed
    };
    if assets.contains_key(clean) {
        Some(assets[clean])
    } else if is_asset(url_path) {
        None
    } else if assets.contains_key(clean + "/index.html"@) {
        Some(assets[clean + "/index.html"@])
    } else if assets.contains_key("index.html"@) {
        Some(assets["index.html"@])
    } else {
        None
    }
}

/// What a source knows of a URL path.
pub enum Lookup<'a> {
    Found(&'a [u8], &'static str),
    Missing,
    /// The disk decides, for this path below the root.
    OnDisk(String),
}

impl AssetSource {
    /// Builds an in-memory source from `(relative_path, bytes)` pairs.
    pub fn from_memory(files: Vec<(String, &'static [u8])>) -> (r: AssetSource)
        ensures
            r matches AssetSource::Memory(m) && assets_in(m@) == assets_of(
                crate::embedded::embedded_views(files@),
            ),
    {
        let mut map: StringHashMap<(&'static [u8], &'static str)> = StringHashMap::new();
        let mut i: usize = 0;
        let ghost fv = crate::embedded::embedded_views(files@);
        proof {
            assert(assets_in(map@) == assets_of(fv.take(0)));
        }
        while i < files.len()
            invariant
                fv == crate::embedded::embedded_views(files@),
                i <= files@.len(),
                assets_in(map@) == assets_of(fv.take(i as int)),
            decreases files@.len() - i,
        {
            // Embedded dirs may carry platform separators; normalize.
            let normal = replace(files[i].0.as_str(), '\\', "/");
            let key = match strip_prefix(normal.as_str(), "./") {
                Some(rest) => rest,
                None => normal,
            };
            let mime = content_type(key.as_str());
            let bytes = files[i].1;
            let ghost before = map@;
            let ghost k = key@;
            map.insert(key, (bytes, mime));
            proof {
                assert(fv.take(i + 1).drop_last() == fv.take(i as int));
                assert(fv.take(i + 1).last() == (files@[i as int].0@, files@[i as int].1@));
                assert(assets_in(map@) == assets_in(before).insert(k, (bytes@, mime@)));
            }
            i = i + 1;
        }
        proof {
            assert(fv.take(i as int) == fv);
        }
        AssetSource::Memory(map)
    }

    /// Fetches an asset by URL path; SPA client-side routes fall back to
    /// index.html. Missing paths below assets/ are missing.
    pub fn lookup<'a>(&'a self, url_path: &str) -> (r: Lookup<'a>)
        ensures
            match *self {
                AssetSource::Dir(_) => r matches Lookup::OnDisk(clean) && clean@ == trim_start_char(
                    url_path@,
                    '/',
                ),
                AssetSource::Memory(m) => match asset_at(assets_in(m@), url_path@) {
                    Some(a) => r matches Lookup::Found(body, mime) && (body@, mime@) == a,
                    None => r is Missing,
                },
            },
    {
        let trimmed = strip_leading(url_path, '/');
        match self {
            AssetSource::Dir(_) => Lookup::OnDisk(trimmed),
            AssetSource::Memory(map) => {
                let asset = starts_with(trimmed.as_str(), "assets/");
                let clean = if trimmed.as_str().is_empty() {
                    owned("index.html")
                } else {
                    trimmed
                };
                match map.get(clean.as_str()) {
                    Some(a) => {
                        return Lookup::Found(a.0, a.1);
                    },
                    None => {},
                }
                if asset {
                    return Lookup::Missing;
                }
                let mut index = clean;
                index.append("/index.html");
                match map.get(index.as_str()) {
                    Some(a) => {
                        return Lookup::Found(a.0, a.1);
                    },
                    None => {},
                }
                match map.get("index.html") {
                    Some(a) => Lookup::Found(a.0, a.1),
                    None => Lookup::Missing,
                }
            },
        }
    }
}

/// The file below the root that a path on disk resolves to, for what the disk
/// says: whether the path is a file there or a folder, and whether the folder
/// holds an index.html.
pub open spec fn resolved(clean: Seq<char>, is_file: bool, is_dir: bool, has_index: bool) -> Seq<
    char,
> {
    if is_dir && has_index {
        index_below(clean)
    } else if !is_dir && is_file {
        clean
    } else {
        "index.html"@
    }
}

/// The file below the root that answers a path on disk.
pub open spec fn disk_choice(clean: Seq<char>, is_file: bool, is_dir: bool, has_index: bool) -> Option<
    Seq<char>,
> {
    if "assets/"@.is_prefix_of(clean) && !is_file {
        None
    } else {
        Some(resolved(clean, is_file, is_dir, has_index))
    }
}

/// The index.html of the folder `clean`.
pub open spec fn index_below(clean: Seq<char>) -> Seq<char> {
    if clean.len() == 0 || clean.last() == '/' {
        clean + "index.html"@
    } else {
        clean + "/index.html"@
    }
}

/// Writes the path of the index.html in the folder `clean`.
pub fn folder_index(clean: &str) -> (r: String)
    ensures
        r@ == index_below(clean@),
{
    let mut out = owned(clean);
    if clean.is_empty() || crate::text::ends_with(clean, "/") {
        proof {
            reveal_strlit("/");
            if clean@.len() > 0 {
                assert(clean@.subrange(clean@.len() - 1, clean@.len() as int)[0] == clean@.last());
            }
        }
        out.append("index.html");
    } else {
        proof {
            reveal_strlit("/");
            if clean@.last() == '/' {
                assert("/"@ =~= clean@.subrange(clean@.len() - 1, clean@.len() as int));
            }
        }
        out.append("/index.html");
    }
    out
}

/// The file that a path on disk resolves to. SPA client-side routes fall back to
/// index.html.
pub fn resolve(clean: &str, is_file: bool, is_dir: bool, has_index: bool) -> (r: String)
    ensures
        r@ == resolved(clean@, is_file, is_dir, has_index),
{
    if is_dir && has_index {
        folder_index(clean)
    } else if !is_dir && is_file {
        owned(clean)
    } else {
        owned("index.html")
    }
}

/// The file to read for a path on disk. Missing asset URLs are real 404s, not SPA
/// routes, which keeps an index.html fallback from being cached under an immutable
/// asset URL.
pub fn disk_lookup(clean: &str, is_file: bool, is_dir: bool, has_index: bool) -> (r: Option<String>)
    ensures
        crate::web::opt_text(r) == disk_choice(clean@, is_file, is_dir, has_index),
{
    if starts_with(clean, "assets/") && !is_file {
        None
    } else {
        Some(resolve(clean, is_file, is_dir, has_index))
    }
}

/// A hexadecimal digit.
pub open spec fn is_hex(c: char) -> bool {
    ('0' <= c && c <= '9') || ('a' <= c && c <= 'f') || ('A' <= c && c <= 'F')
}

/// The value of a hexadecimal digit.
pub open spec fn hex_digit(c: char) -> nat {
    if '0' <= c && c <= '9' {
        (c as int - '0' as int) as nat
    } else if 'a' <= c && c <= 'f' {
        (c as int - 'a' as int + 10) as nat
    } else {
        (c as int - 'A' as int + 10) as nat
    }
}

/// The value of a hexadecimal number.
pub open spec fn hex_value(s: Seq<char>) -> nat
    decreases s.len(),
{
    if s.len() == 0 {
        0
    } else {
        16 * hex_value(s.drop_last()) + hex_digit(s.last())
    }
}

/// The digits of an escape: a plus sign may stand before them.
pub open spec fn escape_digits(h: Seq<char>) -> Seq<char> {
    if h.len() > 0 && h[0] == '+' {
        h.skip(1)
    } else {
        h
    }
}

/// The number that the characters behind a percent sign spell.
pub open spec fn escape_value(h: Seq<char>) -> Option<nat> {
    let digits = escape_digits(h);
    if digits.len() > 0 && (forall|i: int| 0 <= i < digits.len() ==> is_hex(#[trigger] digits[i])) {
        Some(hex_value(digits))
    } else {
        None
    }
}

/// The character that an escape stands for: a percent sign where it spells no
/// number.
pub open spec fn unescaped(h: Seq<char>) -> char {
    match escape_value(h) {
        Some(v) => v as char,
        None => '%',
    }
}

/// A path with its percent escapes decoded.
pub open spec fn percent_decoded(s: Seq<char>) -> Seq<char>
    decreases s.len(),
{
    if s.len() == 0 {
        seq![]
    } else if s[0] == '%' {
        let n: int = if s.len() < 3 {
            s.len() as int
        } else {
            3
        };
        seq![unescaped(s.subrange(1, n))] + percent_decoded(s.skip(n))
    } else {
        seq![s[0]] + percent_decoded(s.skip(1))
    }
}

fn hex_digit_of(c: char) -> (r: Option<u8>)
    ensures
        match r {
            Some(v) => is_hex(c) && v == hex_digit(c) && v < 16,
            None => !is_hex(c),
        },
{
    if '0' <= c && c <= '9' {
        Some((c as u32 - '0' as u32) as u8)
    } else if 'a' <= c && c <= 'f' {
        Some((c as u32 - 'a' as u32 + 10) as u8)
    } else if 'A' <= c && c <= 'F' {
        Some((c as u32 - 'A' as u32 + 10) as u8)
    } else {
        None
    }
}

fn unescape(h: &[char]) -> (r: char)
    requires
        h@.len() <= 2,
    ensures
        r == unescaped(h@),
{
    let n: usize = h.len();
    if n == 0 {
        return '%';
    }
    let signed = h[0] == '+';
    let first: usize = if signed {
        1
    } else {
        0
    };
    let ghost digits = escape_digits(h@);
    if first == n {
        proof {
            assert(digits.len() == 0);
        }
        return '%';
    }
    let a: u8 = match hex_digit_of(h[first]) {
        Some(v) => v,
        None => {
            proof {
                assert(digits[0] == h@[first as int]);
                assert(!is_hex(digits[0]));
            }
            return '%';
        },
    };
    if first + 1 == n {
        proof {
            reveal_with_fuel(hex_value, 2);
            assert(digits[0] == h@[first as int]);
            assert(digits.len() == 1);
        }
        return a as char;
    }
    let b: u8 = match hex_digit_of(h[1]) {
        Some(v) => v,
        None => {
            proof {
                assert(digits[1] == h@[1]);
                assert(!is_hex(digits[1]));
            }
            return '%';
        },
    };
    proof {
        reveal_with_fuel(hex_value, 3);
        assert(digits.drop_last().last() == h@[0]);
        assert(digits.drop_last().drop_last().len() == 0);
    }
    (a * 16 + b) as char
}

fn percent_decode(s: &str) -> (r: String)
    ensures
        r@ == percent_decoded(s@),
{
    let chars = crate::text::chars_of(s);
    let mut out = String::new();
    let mut i: usize = 0;
    let n: usize = chars.len();
    proof {
        assert(chars@.skip(0) == chars@);
        assert(out@ + percent_decoded(chars@.skip(0)) == percent_decoded(chars@));
    }
    while i < n
        invariant
            n == chars@.len(),
            i <= n,
            out@ + percent_decoded(chars@.skip(i as int)) == percent_decoded(chars@),
        decreases n - i,
    {
        let ghost rest = chars@.skip(i as int);
        if chars[i] == '%' {
            let end: usize = if n - i < 3 {
                n
            } else {
                i + 3
            };
            let h = vstd::slice::slice_subrange(chars.as_slice(), i + 1, end);
            proof {
                assert(h@ == rest.subrange(1, end - i));
                assert(rest.skip(end - i) == chars@.skip(end as int));
                assert(out@ + (seq![unescaped(h@)] + percent_decoded(chars@.skip(end as int)))
                    == out@.push(unescaped(h@)) + percent_decoded(chars@.skip(end as int)));
            }
            out.push(unescape(h));
            i = end;
        } else {
            proof {
                assert(rest.skip(1) == chars@.skip(i + 1));
                assert(out@ + (seq![rest[0]] + percent_decoded(chars@.skip(i + 1))) == out@.push(
                    rest[0],
                ) + percent_decoded(chars@.skip(i + 1)));
            }
            out.push(chars[i]);
            i = i + 1;
        }
    }
    proof {
        assert(out@ + percent_decoded(chars@.skip(i as int)) == out@);
    }
    out
}

/// What a request asks for.
pub enum Request {
    /// Nothing that is answered.
    Malformed,
    /// Something that is refused with this answer.
    Refused(&'static str),
    /// The asset at a path; its contents too, unless only the head is wanted.
    Asset { path: String, with_body: bool },
}

/// What a request says.
#[verifier::ext_equal]
pub enum RequestView {
    Malformed,
    Refused(Seq<char>),
    Asset(Seq<char>, bool),
}

impl Request {
    pub open spec fn view(self) -> RequestView {
        match self {
            Request::Malformed => RequestView::Malformed,
            Request::Refused(answer) => RequestView::Refused(answer@),
            Request::Asset { path, with_body } => RequestView::Asset(path@, with_body),
        }
    }
}

/// The path that a request's target names.
pub open spec fn target_path(target: Seq<char>) -> Seq<char> {
    replaced(percent_decoded(before_char(before_char(target, '?'), '#')), '\\', "/"@)
}

/// The path climbs out of a folder on its way.
pub open spec fn climbs(path: Seq<char>) -> bool {
    split(path, '/').contains(".."@)
}

/// What the text of a request asks for: its first line names a method and a
/// target.
pub open spec fn asked(text: Seq<char>) -> RequestView {
    let line = split_words(before_char(text, '\n'));
    if line.len() < 2 {
        RequestView::Malformed
    } else if line[0] != "GET"@ && line[0] != "HEAD"@ {
        RequestView::Refused("HTTP/1.1 405 Method Not Allowed\r\nContent-Length: 0\r\n\r\n"@)
    } else if climbs(target_path(line[1])) {
        RequestView::Refused("HTTP/1.1 403 Forbidden\r\nContent-Length: 0\r\n\r\n"@)
    } else {
        RequestView::Asset(target_path(line[1]), line[0] == "GET"@)
    }
}

fn has_parent_segment(path: &str) -> (r: bool)
    ensures
        r == climbs(path@),
{
    let segments = fields(path, '/');
    let mut i: usize = 0;
    let ghost sv = crate::text::views(segments@);
    while i < segments.len()
        invariant
            sv == crate::text::views(segments@),
            sv == split(path@, '/'),
            i <= segments@.len(),
            forall|k: int| 0 <= k < i ==> sv[k] != ".."@,
        decreases segments@.len() - i,
    {
        if same(segments[i].as_str(), "..") {
            proof {
                assert(sv[i as int] == ".."@);
            }
            return true;
        }
        proof {
            assert(sv[i as int] == segments@[i as int]@);
        }
        i = i + 1;
    }
    false
}

/// Reads the text of a request.
pub fn parse_request(text: &str) -> (r: Request)
    ensures
        r@ == asked(text@),
{
    let line = until_char(text, '\n');
    let parts = words(line.as_str());
    if parts.len() < 2 {
        return Request::Malformed;
    }
    let method = parts[0].as_str();
    proof {
        let pv = crate::text::views(parts@);
        assert(pv[0] == parts@[0]@);
        assert(pv[1] == parts@[1]@);
    }
    if !same(method, "GET") && !same(method, "HEAD") {
        return Request::Refused("HTTP/1.1 405 Method Not Allowed\r\nContent-Length: 0\r\n\r\n");
    }
    let no_query = until_char(parts[1].as_str(), '?');
    let path_only = until_char(no_query.as_str(), '#');
    let decoded = percent_decode(path_only.as_str());
    let path = replace(decoded.as_str(), '\\', "/");
    // Path traversal guard: reject anything escaping the root.
    if has_parent_segment(path.as_str()) {
        return Request::Refused("HTTP/1.1 403 Forbidden\r\nContent-Length: 0\r\n\r\n");
    }
    Request::Asset { path, with_body: same(method, "GET") }
}

/// Reads the bytes of a request.
pub fn read_request(raw: &[u8]) -> (r: Request)
    ensures
        r@ == asked(utf8_lossy(raw@)),
{
    parse_request(decode_lossy(raw).as_str())
}

/// What is sent back: a head and, behind it, contents.
pub struct Reply {
    pub head: String,
    pub body: Vec<u8>,
}

/// The head of an answer with an asset.
pub open spec fn found_head(path: Seq<char>, length: nat, mime: Seq<char>) -> Seq<char> {
    "HTTP/1.1 200 OK\r\nContent-Type: "@ + mime + "\r\nContent-Length: "@ + crate::text::decimal(length)
        + "\r\nCache-Control: "@ + cache_rule(path)
        + "\r\nX-Content-Type-Options: nosniff\r\nConnection: close\r\n\r\n"@
}

/// The answer where there is no asset.
pub open spec fn missing_head() -> Seq<char> {
    "HTTP/1.1 404 Not Found\r\nContent-Length: 0\r\n\r\n"@
}

/// The answer with an asset, or without one.
pub open spec fn answer_for(path: Seq<char>, with_body: bool, asset: Option<(Seq<u8>, Seq<char>)>) -> (
    Seq<char>,
    Seq<u8>,
) {
    match asset {
        Some((body, mime)) => (
            found_head(path, body.len(), mime),
            if with_body {
                body
            } else {
                seq![]
            },
        ),
        None => (missing_head(), seq![]),
    }
}

fn copy_bytes(bytes: &[u8]) -> (r: Vec<u8>)
    ensures
        r@ == bytes@,
{
    let mut out: Vec<u8> = Vec::new();
    let n: usize = bytes.len();
    let mut i: usize = 0;
    while i < n
        invariant
            n == bytes@.len(),
            i <= n,
            out@ == bytes@.take(i as int),
        decreases n - i,
    {
        out.push(bytes[i]);
        i = i + 1;
        proof {
            assert(bytes@.take(i as int) == bytes@.take(i - 1).push(bytes@[i - 1]));
        }
    }
    proof {
        assert(bytes@.take(i as int) == bytes@);
    }
    out
}

/// Answers a request for an asset that was found, with its media type.
pub fn reply_found(path: &str, with_body: bool, body: &[u8], mime: &str) -> (r: Reply)
    ensures
        (r.head@, r.body@) == answer_for(path@, with_body, Some((body@, mime@))),
{
    let mut head = owned("HTTP/1.1 200 OK\r\nContent-Type: ");
    head.append(mime);
    head.append("\r\nContent-Length: ");
    head.append(to_decimal(body.len() as u64).as_str());
    head.append("\r\nCache-Control: ");
    head.append(cache_control(path));
    head.append("\r\nX-Content-Type-Options: nosniff\r\nConnection: close\r\n\r\n");
    let sent = if with_body {
        copy_bytes(body)
    } else {
        Vec::new()
    };
    Reply { head, body: sent }
}

/// Answers a request for an asset that there is not.
pub fn reply_missing() -> (r: Reply)
    ensures
        r.head@ == missing_head(),
        r.body@ == Seq::<u8>::empty(),
{
    Reply { head: owned("HTTP/1.1 404 Not Found\r\nContent-Length: 0\r\n\r\n"), body: Vec::new() }
}

/// What becomes of one request.
pub enum Handled {
    /// Nothing is sent.
    Ignored,
    Answered(Reply),
    /// The disk decides, for this path below the root; answered with the file
    /// that it gives, or as missing.
    FromDisk { clean: String, path: String, with_body: bool },
}

/// What a request gets from an in-memory source: nothing, or a head and
/// contents.
pub open spec fn served(
    request: RequestView,
    assets: Map<Seq<char>, (Seq<u8>, Seq<char>)>,
) -> Option<(Seq<char>, Seq<u8>)> {
    match request {
        RequestView::Malformed => None,
        RequestView::Refused(answer) => Some((answer, seq![])),
        RequestView::Asset(path, with_body) => Some(
            answer_for(path, with_body, asset_at(assets, path)),
        ),
    }
}

/// Answers one parsed request.
pub fn answer_request(request: Request, source: &AssetSource) -> (r: Handled)
    ensures
        match *source {
            AssetSource::Memory(m) => match served(request@, assets_in(m@)) {
                Some(a) => r matches Handled::Answered(reply) && (reply.head@, reply.body@) == a,
                None => r is Ignored,
            },
            AssetSource::Dir(_) => match request@ {
                RequestView::Malformed => r is Ignored,
                RequestView::Refused(answer) => r matches Handled::Answered(reply) && reply.head@
                    == answer && reply.body@ == Seq::<u8>::empty(),
                RequestView::Asset(p, b) => r matches Handled::FromDisk { clean, path, with_body }
                    && clean@ == trim_start_char(p, '/') && path@ == p && with_body == b,
            },
        },
{
    match request {
        Request::Malformed => Handled::Ignored,
        Request::Refused(answer) => Handled::Answered(
            Reply { head: owned(answer), body: Vec::new() },
        ),
        Request::Asset { path, with_body } => match source.lookup(path.as_str()) {
            Lookup::Found(body, mime) => Handled::Answered(
                reply_found(path.as_str(), with_body, body, mime),
            ),
            Lookup::Missing => Handled::Answered(reply_missing()),
            Lookup::OnDisk(clean) => Handled::FromDisk { clean, path, with_body },
        },
    }
}

/// Answers the bytes of one request.
pub fn handle(raw: &[u8], source: &AssetSource) -> (r: Handled)
    ensures
        match *source {
            AssetSource::Memory(m) => match served(asked(utf8_lossy(raw@)), assets_in(m@)) {
                Some(a) => r matches Handled::Answered(reply) && (reply.head@, reply.body@) == a,
                None => r is Ignored,
            },
            AssetSource::Dir(_) => match asked(utf8_lossy(raw@)) {
                RequestView::Malformed => r is Ignored,
                RequestView::Refused(answer) => r matches Handled::Answered(reply) && reply.head@
                    == answer && reply.body@ == Seq::<u8>::empty(),
                RequestView::Asset(p, b) => r matches Handled::FromDisk { clean, path, with_body }
                    && clean@ == trim_start_char(p, '/') && path@ == p && with_body == b,
            },
        },
{
    answer_request(read_request(raw), source)
}

/// No request reaches an asset by a path that climbs out of the root.
pub proof fn climbing_paths_are_refused(text: Seq<char>)
    ensures
        asked(text) matches RequestView::Asset(path, _) ==> !climbs(path),
{
}

/// A missing asset is missing: no other file is served under its name.
pub proof fn missing_assets_get_no_fallback(
    assets: Map<Seq<char>, (Seq<u8>, Seq<char>)>,
    url_path: Seq<char>,
)
    requires
        is_asset(url_path),
        !assets.contains_key(trim_start_char(url_path, '/')),
    ensures
        asset_at(assets, url_path) is None,
{
    reveal_strlit("assets/");
}

/// What may be cached for good is the very file that was asked for.
pub proof fn only_exact_assets_are_immutable(
    assets: Map<Seq<char>, (Seq<u8>, Seq<char>)>,
    url_path: Seq<char>,
)
    requires
        cache_rule(url_path) == "public, max-age=31536000, immutable"@,
        asset_at(assets, url_path) is Some,
    ensures
        assets.contains_key(trim_start_char(url_path, '/')),
        asset_at(assets, url_path) == Some(assets[trim_start_char(url_path, '/')]),
{
    reveal_strlit("public, max-age=31536000, immutable");
    reveal_strlit("no-cache");
    reveal_strlit("assets/");
    assert("public, max-age=31536000, immutable"@.len() == 35);
    assert("no-cache"@.len() == 8);
}

/// Every path outside assets/ is answered once the bundle has an index.html: SPA
/// client-side routes get it.
pub proof fn routes_fall_back_to_index(
    assets: Map<Seq<char>, (Seq<u8>, Seq<char>)>,
    url_path: Seq<char>,
)
    requires
        !is_asset(url_path),
        assets.contains_key("index.html"@),
    ensures
        asset_at(assets, url_path) is Some,
        !assets.contains_key(trim_start_char(url_path, '/')) && !assets.contains_key(
            trim_start_char(url_path, '/') + "/index.html"@,
        ) ==> asset_at(assets, url_path) == Some(assets["index.html"@]),
{
}

/// A head alone is the head of the full answer, which announces exactly the
/// contents behind it.
pub proof fn head_matches_get(path: Seq<char>, asset: Option<(Seq<u8>, Seq<char>)>)
    ensures
        answer_for(path, false, asset).0 == answer_for(path, true, asset).0,
        answer_for(path, false, asset).1.len() == 0,
        asset matches Some(a) ==> answer_for(path, true, asset).1 == a.0 && answer_for(
            path,
            true,
            asset,
        ).0 == found_head(path, a.0.len(), a.1),
{
}

/// On disk as in memory, a missing asset is missing, and every other path is
/// answered with some file.
pub proof fn disk_falls_back_outside_assets(
    clean: Seq<char>,
    is_file: bool,
    is_dir: bool,
    has_index: bool,
)
    ensures
        disk_choice(clean, is_file, is_dir, has_index) is None <==> "assets/"@.is_prefix_of(clean)
            && !is_file,
{
}

/// A path without percent signs is what it says.
pub proof fn plain_paths_decode_to_themselves(s: Seq<char>)
    requires
        !s.contains('%'),
    ensures
        percent_decoded(s) == s,
    decreases s.len(),
{
    if s.len() > 0 {
        assert(s.contains(s[0]));
        assert forall|i: int| 0 <= i < s.len() - 1 implies s.skip(1)[i] != '%' by {
            assert(s.contains(s[i + 1]));
        }
        plain_paths_decode_to_themselves(s.skip(1));
        assert(seq![s[0]] + s.skip(1) =~= s);
    }
}

proof fn lemma_file_name(dir: Option<Seq<char>>, name: Seq<char>, path: Seq<char>)
    requires
        path == match dir {
            Some(d) => d.push('/') + name,
            None => name,
        },
        name.len() > 2,
        !name.contains('/'),
    ensures
        file_name(path) == Some(name),
{
    reveal_strlit(".");
    reveal_strlit("..");
    fields_go_text_by_text(name, name, '/');
    let d = match dir {
        Some(d) => d,
        None => name,
    };
    fields_go_text_by_text(d, name, '/');
    assert(split(path, '/').last() == name);
    assert(name != "."@) by {
        assert("."@.len() == 1);
    }
    assert(name != ".."@) by {
        assert(".."@.len() == 2);
    }
}

/// The media type of a file goes by what stands behind the last dot of its name,
/// in whatever folder it is.
pub proof fn media_types_go_by_the_extension(
    dir: Option<Seq<char>>,
    stem: Seq<char>,
    ext: Seq<char>,
    path: Seq<char>,
)
    requires
        path == match dir {
            Some(d) => d.push('/') + (stem.push('.') + ext),
            None => stem.push('.') + ext,
        },
        stem.len() > 0,
        ext.len() > 0,
        !stem.contains('/'),
        !ext.contains('/'),
        !ext.contains('.'),
    ensures
        ext == "html"@ ==> mime_of(path) == "text/html; charset=utf-8"@,
        ext == "js"@ ==> mime_of(path) == "text/javascript; charset=utf-8"@,
        ext == "css"@ ==> mime_of(path) == "text/css; charset=utf-8"@,
        ext == "json"@ ==> mime_of(path) == "application/json; charset=utf-8"@,
        ext == "map"@ ==> mime_of(path) == "application/json; charset=utf-8"@,
        ext == "png"@ ==> mime_of(path) == "image/png"@,
        ext == "svg"@ ==> mime_of(path) == "image/svg+xml"@,
        ext == "ico"@ ==> mime_of(path) == "image/x-icon"@,
        ext == "wasm"@ ==> mime_of(path) == "application/wasm"@,
        ext == "woff"@ ==> mime_of(path) == "font/woff"@,
        ext == "woff2"@ ==> mime_of(path) == "font/woff2"@,
        ext == "ttf"@ ==> mime_of(path) == "font/ttf"@,
        ext == "txt"@ ==> mime_of(path) == "text/plain; charset=utf-8"@,
        ext != "html"@ && ext != "js"@ && ext != "css"@ && ext != "json"@ && ext != "map"@ && ext != "png"@ && ext != "svg"@ && ext != "ico"@ && ext != "wasm"@ && ext != "woff"@ && ext != "woff2"@ && ext != "ttf"@ && ext != "txt"@
            ==> mime_of(path) == "application/octet-stream"@,
{
    let name = stem.push('.') + ext;
    assert forall|i: int| 0 <= i < name.len() implies #[trigger] name[i] != '/' by {
        if i < stem.len() {
            assert(stem.contains(stem[i]));
        } else if i > stem.len() {
            assert(ext.contains(ext[i - stem.len() - 1]));
            assert(name[i] == ext[i - stem.len() - 1]);
        }
    }
    lemma_file_name(dir, name, path);
    crate::text::lemma_rfind_char_bounds(name, '.');
    let at = crate::text::rfind_char(name, '.');
    assert(name[stem.len() as int] == '.');
    if at > stem.len() {
        assert(name[at] == ext[at - stem.len() - 1]);
        assert(ext.contains('.'));
    }
    assert(name.take(stem.len() as int) == stem);
    assert(name.skip(stem.len() as int + 1) == ext);
    reveal_strlit("html");
    reveal_strlit("js");
    reveal_strlit("css");
    reveal_strlit("json");
    reveal_strlit("map");
    reveal_strlit("png");
    reveal_strlit("svg");
    reveal_strlit("ico");
    reveal_strlit("wasm");
    reveal_strlit("woff");
    reveal_strlit("woff2");
    reveal_strlit("ttf");
    reveal_strlit("txt");
    assert("html"@.len() == 4);
    assert("js"@.len() == 2);
    assert("css"@.len() == 3);
    assert("json"@.len() == 4);
    assert("map"@.len() == 3);
    assert("png"@.len() == 3);
    assert("svg"@.len() == 3);
    assert("ico"@.len() == 3);
    assert("wasm"@.len() == 4);
    assert("woff"@.len() == 4);
    assert("woff2"@.len() == 5);
    assert("ttf"@.len() == 3);
    assert("txt"@.len() == 3);
    assert("html"@[0] != "json"@[0]);
    assert("html"@[0] != "wasm"@[0]);
    assert("html"@[0] != "woff"@[0]);
    assert("css"@[0] != "map"@[0]);
    assert("css"@[0] != "png"@[0]);
    assert("css"@[0] != "svg"@[0]);
    assert("css"@[0] != "ico"@[0]);
    assert("css"@[0] != "ttf"@[0]);
    assert("css"@[0] != "txt"@[0]);
    assert("json"@[0] != "wasm"@[0]);
    assert("json"@[0] != "woff"@[0]);
    assert("map"@[0] != "png"@[0]);
    assert("map"@[0] != "svg"@[0]);
    assert("map"@[0] != "ico"@[0]);
    assert("map"@[0] != "ttf"@[0]);
    assert("map"@[0] != "txt"@[0]);
    assert("png"@[0] != "svg"@[0]);
    assert("png"@[0] != "ico"@[0]);
    assert("png"@[0] != "ttf"@[0]);
    assert("png"@[0] != "txt"@[0]);
    assert("svg"@[0] != "ico"@[0]);
    assert("svg"@[0] != "ttf"@[0]);
    assert("svg"@[0] != "txt"@[0]);
    assert("ico"@[0] != "ttf"@[0]);
    assert("ico"@[0] != "txt"@[0]);
    assert("wasm"@[1] != "woff"@[1]);
    assert("ttf"@[1] != "txt"@[1]);
}

/// A run of slashes.
pub open spec fn slashes(n: nat) -> Seq<char> {
    Seq::new(n, |i: int| '/')
}

proof fn lemma_slashes(n: nat, p: Seq<char>)
    requires
        p.len() == 0 || p[0] != '/',
    ensures
        trim_start_char(slashes(n) + p, '/') == p,
    decreases n,
{
    let s = slashes(n) + p;
    if n > 0 {
        lemma_slashes((n - 1) as nat, p);
        assert(s.skip(1) == slashes((n - 1) as nat) + p);
        assert(s[0] == '/');
    } else {
        assert(s == p);
    }
}

/// Slashes in front of a path count for nothing: what begins with "assets/" behind
/// them may be kept for good, and everything else is asked for again.
pub proof fn only_assets_may_be_kept(n: nat, p: Seq<char>)
    requires
        p.len() == 0 || p[0] != '/',
    ensures
        "assets/"@.is_prefix_of(p) ==> cache_rule(slashes(n) + p)
            == "public, max-age=31536000, immutable"@,
        !"assets/"@.is_prefix_of(p) ==> cache_rule(slashes(n) + p) == "no-cache"@,
{
    lemma_slashes(n, p);
}

/// A path is answered with the very file that it names, where there is one; the
/// bare root with index.html; a folder outside assets/ with its index.html; every
/// other path outside assets/ with that of the bundle; and nothing else.
pub proof fn paths_get_their_file(assets: Map<Seq<char>, (Seq<u8>, Seq<char>)>, n: nat, p: Seq<char>)
    requires
        p.len() == 0 || p[0] != '/',
    ensures
        p.len() > 0 && assets.contains_key(p) ==> asset_at(assets, slashes(n) + p) == Some(assets[p]),
        p.len() == 0 && assets.contains_key("index.html"@) ==> asset_at(assets, slashes(n) + p) == Some(
            assets["index.html"@],
        ),
        p.len() > 0 && !assets.contains_key(p) && "assets/"@.is_prefix_of(p) ==> asset_at(
            assets,
            slashes(n) + p,
        ) is None,
        p.len() > 0 && !assets.contains_key(p) && !"assets/"@.is_prefix_of(p) && assets.contains_key(
            p + "/index.html"@,
        ) ==> asset_at(assets, slashes(n) + p) == Some(assets[p + "/index.html"@]),
        p.len() > 0 && !assets.contains_key(p) && !"assets/"@.is_prefix_of(p) && !assets.contains_key(
            p + "/index.html"@,
        ) ==> asset_at(assets, slashes(n) + p) == if assets.contains_key("index.html"@) {
            Some(assets["index.html"@])
        } else {
            None
        },
{
    lemma_slashes(n, p);
    reveal_strlit("assets/");
    assert("assets/"@.len() == 7);
}

/// A bundled file is served under its path, with slashes for backslashes and
/// without a leading "./", with its own contents and the media type of that path;
/// the files under other keys stay as they were.
pub proof fn bundled_files_are_served_under_their_path(
    files: Seq<(Seq<char>, Seq<u8>)>,
    path: Seq<char>,
    bytes: Seq<u8>,
    other: Seq<char>,
)
    requires
        !path.contains('\\'),
        !"./"@.is_prefix_of(path),
        other != path,
    ensures
        assets_of(files.push((path, bytes))).contains_key(path),
        assets_of(files.push((path, bytes)))[path] == (bytes, mime_of(path)),
        assets_of(files.push(("./"@ + path, bytes))) == assets_of(files.push((path, bytes))),
        assets_of(files.push((path, bytes))).contains_key(other) == assets_of(files).contains_key(other),
        assets_of(files).contains_key(other) ==> assets_of(files.push((path, bytes)))[other] == assets_of(
            files,
        )[other],
{
    reveal_strlit("./");
    let dotted = "./"@ + path;
    assert(files.push((path, bytes)).drop_last() == files);
    assert(files.push((dotted, bytes)).drop_last() == files);
    lemma_nothing_replaced(path);
    assert forall|i: int| 0 <= i < dotted.len() implies dotted[i] != '\\' by {
        if i >= 2 {
            assert(path.contains(path[i - 2]));
        }
    }
    lemma_nothing_replaced(dotted);
    assert("./"@ =~= dotted.subrange(0, 2));
    assert(dotted.skip(2) =~= path);
}

proof fn lemma_nothing_replaced(s: Seq<char>)
    requires
        !s.contains('\\'),
    ensures
        replaced(s, '\\', "/"@) == s,
    decreases s.len(),
{
    if s.len() > 0 {
        assert(s.contains(s[s.len() - 1]));
        assert forall|i: int| 0 <= i < s.drop_last().len() implies s.drop_last()[i] != '\\' by {
            assert(s.contains(s[i]));
        }
        lemma_nothing_replaced(s.drop_last());
        assert(s.drop_last() + seq![s.last()] == s);
    }
}

/// Every backslash in the path of a bundled file becomes a slash.
pub proof fn backslashes_become_slashes(a: Seq<char>, b: Seq<char>)
    requires
        !a.contains('\\'),
        !b.contains('\\'),
        a.len() > 0,
        a[0] != '.',
    ensures
        asset_key(a.push('\\') + b) == a.push('/') + b,
{
    reveal_strlit("/");
    reveal_strlit("./");
    let s = a.push('\\') + b;
    let mid = seq!['\\'] + b;
    crate::text::replacing_goes_by_character(a, mid, 'x', '\\', "/"@);
    crate::text::replacing_goes_by_character(seq!['\\'], b, 'x', '\\', "/"@);
    lemma_nothing_replaced(a);
    lemma_nothing_replaced(b);
    assert(s =~= a + mid);
    let key = replaced(s, '\\', "/"@);
    assert(key =~= a.push('/') + b);
    if "./"@.is_prefix_of(key) {
        assert(key[0] == "./"@[0]);
    }
}

/// A percent sign and two hexadecimal digits, in either case, stand for the
/// character with that number, and what follows is decoded on its own; every other
/// character stands for itself.
pub proof fn escapes_are_decoded_one_by_one(n: nat, h: char, l: char, c: char, rest: Seq<char>)
    requires
        n < 256,
        h == crate::json::hex_char(n / 16) || (n / 16 >= 10 && h as int == 'A' as int + n / 16 - 10),
        l == crate::json::hex_char(n % 16) || (n % 16 >= 10 && l as int == 'A' as int + n % 16 - 10),
    ensures
        percent_decoded(seq!['%', h, l] + rest) == seq![n as char] + percent_decoded(rest),
        c != '%' ==> percent_decoded(seq![c] + rest) == seq![c] + percent_decoded(rest),
        percent_decoded(seq![]).len() == 0,
{
    let s = seq!['%', h, l] + rest;
    assert(s.skip(3) =~= rest);
    let e = s.subrange(1, 3);
    assert(e =~= seq![h, l]);
    assert(n / 16 < 16 && n % 16 < 16);
    assert(is_hex(h) && is_hex(l));
    assert(hex_digit(h) == n / 16 && hex_digit(l) == n % 16);
    reveal_with_fuel(hex_value, 3);
    assert(e.drop_last().drop_last() =~= Seq::<char>::empty());
    assert(e.drop_last().last() == h && e.last() == l);
    assert(hex_value(e) == n);
    assert forall|i: int| 0 <= i < e.len() implies is_hex(#[trigger] e[i]) by {}
    assert(escape_value(e) == Some(n));
    let t = seq![c] + rest;
    assert(t.skip(1) =~= rest);
}

/// A path climbs where one of its segments is "..": one of the two sides of a slash
/// has such a segment, or it is that segment itself.
pub proof fn climbing_goes_by_segments(a: Seq<char>, b: Seq<char>)
    ensures
        climbs(a.push('/') + b) <==> climbs(a) || climbs(b),
        !a.contains('/') ==> (climbs(a) <==> a == ".."@),
{
    fields_go_text_by_text(a, b, '/');
    let x = split(a, '/');
    let y = split(b, '/');
    let up = ".."@;
    if (x + y).contains(up) {
        let k = choose|k: int| 0 <= k < (x + y).len() && (x + y)[k] == up;
        if k < x.len() {
            assert(x[k] == up);
        } else {
            assert(y[k - x.len()] == up);
        }
    }
    if x.contains(up) {
        let k = choose|k: int| 0 <= k < x.len() && x[k] == up;
        assert((x + y)[k] == up);
    }
    if y.contains(up) {
        let k = choose|k: int| 0 <= k < y.len() && y[k] == up;
        assert((x + y)[x.len() + k] == up);
    }
    if !a.contains('/') {
        assert(x == seq![a]);
        assert(x[0] == a);
    }
}

/// A plain target is the path, whatever query or fragment follows it.
pub proof fn targets_name_their_path(path: Seq<char>, rest: Seq<char>)
    requires
        !path.contains('?'),
        !path.contains('#'),
        !path.contains('%'),
        !path.contains('\\'),
        rest.len() == 0 || rest[0] == '?' || rest[0] == '#',
    ensures
        target_path(path + rest) == path,
{
    let t = path + rest;
    lemma_cut_behind(path, rest, '?');
    let q = before_char(rest, '?');
    crate::text::lemma_find_char_bounds(rest, '?');
    assert(before_char(t, '?') == path + q);
    lemma_cut_behind(path, q, '#');
    crate::text::lemma_find_char_bounds(q, '#');
    if rest.len() > 0 && rest[0] == '#' {
        assert(q[0] == '#');
    }
    assert(before_char(q, '#') == Seq::<char>::empty());
    assert(path + Seq::<char>::empty() == path);
    plain_paths_decode_to_themselves(path);
    lemma_nothing_replaced(path);
}

proof fn lemma_cut_behind(a: Seq<char>, b: Seq<char>, c: char)
    requires
        !a.contains(c),
    ensures
        before_char(a + b, c) == a + before_char(b, c),
{
    crate::text::lemma_find_char_bounds(b, c);
    let n = crate::text::find_char(b, c);
    assert forall|j: int| 0 <= j < a.len() + n implies (a + b)[j] != c by {
        if j < a.len() {
            assert(a.contains(a[j]));
        } else {
            assert((a + b)[j] == b[j - a.len()]);
        }
    }
    crate::text::lemma_find_char(a + b, c, a.len() + n);
    assert((a + b).take(a.len() + n) == a + b.take(n));
}

/// A request is read from the first two words of its first line: GET asks for the
/// file and its contents, HEAD for its head; another method is not allowed, and a
/// path that climbs is forbidden.
pub proof fn requests_are_read_from_their_first_line(
    method: Seq<char>,
    target: Seq<char>,
    rest: Seq<char>,
    more: Seq<char>,
)
    requires
        method.len() > 0,
        target.len() > 0,
        forall|i: int| 0 <= i < method.len() ==> !is_space(#[trigger] method[i]),
        forall|i: int| 0 <= i < target.len() ==> !is_space(#[trigger] target[i]),
        !rest.contains('\n'),
    ensures
        ({
            let text = method.push(' ') + (target.push(' ') + rest) + seq!['\n'] + more;
            asked(text) == if method != "GET"@ && method != "HEAD"@ {
                RequestView::Refused("HTTP/1.1 405 Method Not Allowed\r\nContent-Length: 0\r\n\r\n"@)
            } else if climbs(target_path(target)) {
                RequestView::Refused("HTTP/1.1 403 Forbidden\r\nContent-Length: 0\r\n\r\n"@)
            } else {
                RequestView::Asset(target_path(target), method == "GET"@)
            }
        }),
{
    let line = method.push(' ') + (target.push(' ') + rest);
    let tail = seq!['\n'] + more;
    let text = method.push(' ') + (target.push(' ') + rest) + seq!['\n'] + more;
    assert(text =~= line + tail);
    assert forall|i: int| 0 <= i < line.len() implies #[trigger] line[i] != '\n' by {
        let m = method.len() as int;
        let t = target.len() as int;
        if i < m {
            assert(!is_space(method[i]));
        } else if m < i < m + 1 + t {
            assert(line[i] == target[i - m - 1]);
            assert(!is_space(target[i - m - 1]));
        } else if i > m + 1 + t {
            assert(line[i] == rest[i - m - t - 2]);
            assert(rest.contains(rest[i - m - t - 2]));
        }
    }
    lemma_cut_behind(line, tail, '\n');
    assert(tail[0] == '\n');
    crate::text::lemma_find_char(tail, '\n', 0);
    assert(before_char(tail, '\n') == Seq::<char>::empty());
    assert(before_char(text, '\n') =~= line);
    crate::text::words_come_one_by_one(method, ' ', target.push(' ') + rest);
    crate::text::words_come_one_by_one(target, ' ', rest);
    let words = split_words(line);
    assert(words =~= seq![method] + (seq![target] + split_words(rest)));
    assert(words[0] == method && words[1] == target);
}

/// A request without two words in its first line gets no answer; what is refused is
/// answered without contents; and an asset is answered with its length, its media
/// type and how long it may be kept.
pub proof fn answers_say_what_they_carry(
    path: Seq<char>,
    with_body: bool,
    body: Seq<u8>,
    mime: Seq<char>,
    assets: Map<Seq<char>, (Seq<u8>, Seq<char>)>,
    refusal: Seq<char>,
)
    ensures
        served(RequestView::Malformed, assets) is None,
        served(RequestView::Refused(refusal), assets) == Some((refusal, Seq::<u8>::empty())),
        asset_at(assets, path) == Some((body, mime)) ==> served(
            RequestView::Asset(path, with_body),
            assets,
        ) == Some(
            (
                "HTTP/1.1 200 OK\r\nContent-Type: "@ + mime + "\r\nContent-Length: "@
                    + crate::text::decimal(body.len()) + "\r\nCache-Control: "@ + cache_rule(path)
                    + "\r\nX-Content-Type-Options: nosniff\r\nConnection: close\r\n\r\n"@,
                if with_body {
                    body
                } else {
                    Seq::<u8>::empty()
                },
            ),
        ),
        asset_at(assets, path) is None ==> served(RequestView::Asset(path, with_body), assets) == Some(
            ("HTTP/1.1 404 Not Found\r\nContent-Length: 0\r\n\r\n"@, Seq::<u8>::empty()),
        ),
{
}

/// On disk a file is read itself, a folder with an index.html gives that, and
/// everything else gives the bundle's.
pub proof fn disk_paths_get_their_file(clean: Seq<char>, is_file: bool, is_dir: bool, has_index: bool)
    ensures
        is_file && !is_dir ==> resolved(clean, is_file, is_dir, has_index) == clean,
        is_dir && has_index && clean.len() > 0 && clean.last() != '/' ==> resolved(
            clean,
            is_file,
            is_dir,
            has_index,
        ) == clean + "/index.html"@,
        is_dir && has_index && (clean.len() == 0 || clean.last() == '/') ==> resolved(
            clean,
            is_file,
            is_dir,
            has_index,
        ) == clean + "index.html"@,
        is_dir && !has_index || !is_dir && !is_file ==> resolved(clean, is_file, is_dir, has_index)
            == "index.html"@,
        disk_choice(clean, is_file, is_dir, has_index) matches Some(f) ==> f == resolved(
            clean,
            is_file,
            is_dir,
            has_index,
        ),
{
}

/// A percent sign that no hexadecimal number follows stands for itself, in the
/// place of the two characters behind it too.
pub proof fn broken_escapes_are_percent_signs(x: char, y: char, rest: Seq<char>)
    requires
        x != '+',
        !('0' <= x <= '9' || 'a' <= x <= 'f' || 'A' <= x <= 'F'),
    ensures
        percent_decoded(seq!['%', x, y] + rest) == seq!['%'] + percent_decoded(rest),
{
    let s = seq!['%', x, y] + rest;
    assert(s.skip(3) =~= rest);
    let e = s.subrange(1, 3);
    assert(e =~= seq![x, y]);
    assert(!is_hex(e[0]));
    assert(escape_value(e) is None);
}

/// A file whose name has no dot, or only one at its begin, has no media type of its
/// own.
pub proof fn plain_names_have_no_media_type(dir: Option<Seq<char>>, name: Seq<char>, path: Seq<char>)
    requires
        path == match dir {
            Some(d) => d.push('/') + name,
            None => name,
        },
        name.len() > 2,
        !name.contains('/'),
        !name.skip(1).contains('.'),
    ensures
        mime_of(path) == "application/octet-stream"@,
{
    lemma_file_name(dir, name, path);
    crate::text::lemma_rfind_char_bounds(name, '.');
    let at = crate::text::rfind_char(name, '.');
    if at > 0 {
        assert(name.skip(1)[at - 1] == '.');
    }
}

} // verus!

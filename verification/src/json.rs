//! JSON documents as plain values, and the boundary to the JSON parser.
use vstd::prelude::*;

use crate::text::{decimal, owned, same, to_decimal};

verus! {

broadcast use vstd::string::group_string_axioms;

/// What a JSON document says. A number is known by its value, where that is an
/// unsigned integer of 64 bits, and by its text.
#[verifier::ext_equal]
pub enum JsonView {
    Null,
    Bool(bool),
    Number(Option<u64>, Seq<char>),
    Text(Seq<char>),
    Array(Seq<JsonView>),
    Object(Map<Seq<char>, JsonView>),
}

/// A JSON document.
pub enum Json {
    Null,
    Bool(bool),
    Number(Option<u64>, String),
    Text(String),
    Array(Vec<Json>),
    /// Members in any order; of two with one name the later one counts.
    Object(Vec<(String, Json)>),
}

/// The position of the last member named `key`, or -1 where there is none.
pub open spec fn member_at(entries: Seq<(String, Json)>, key: Seq<char>) -> int
    decreases entries.len(),
{
    if entries.len() == 0 {
        -1
    } else if entries.last().0@ == key {
        entries.len() - 1
    } else {
        member_at(entries.drop_last(), key)
    }
}

impl Json {
    pub open spec fn view(self) -> JsonView
        decreases self,
    {
        match self {
            Json::Null => JsonView::Null,
            Json::Bool(b) => JsonView::Bool(b),
            Json::Number(n, text) => JsonView::Number(n, text@),
            Json::Text(text) => JsonView::Text(text@),
            Json::Array(items) => JsonView::Array(
                Seq::new(
                    items@.len(),
                    |i: int|
                        if 0 <= i < items@.len() {
                            items@[i].view()
                        } else {
                            JsonView::Null
                        },
                ),
            ),
            Json::Object(entries) => JsonView::Object(
                Map::new(
                    |key: Seq<char>| member_at(entries@, key) >= 0,
                    |key: Seq<char>|
                        if 0 <= member_at(entries@, key) < entries@.len() {
                            entries@[member_at(entries@, key)].1.view()
                        } else {
                            JsonView::Null
                        },
                ),
            ),
        }
    }
}

impl JsonView {
    /// The member named `key`, where the document is an object that has one.
    pub open spec fn member(self, key: Seq<char>) -> Option<JsonView> {
        match self {
            JsonView::Object(m) => if m.contains_key(key) {
                Some(m[key])
            } else {
                None
            },
            _ => None,
        }
    }

    /// The text that the member named `key` holds.
    pub open spec fn text_at(self, key: Seq<char>) -> Option<Seq<char>> {
        match self.member(key) {
            Some(JsonView::Text(s)) => Some(s),
            _ => None,
        }
    }

    /// The unsigned integer that the member named `key` holds.
    pub open spec fn u64_at(self, key: Seq<char>) -> Option<u64> {
        match self.member(key) {
            Some(JsonView::Number(n, _)) => n,
            _ => None,
        }
    }

    /// The text of the number that the member named `key` holds.
    pub open spec fn number_at(self, key: Seq<char>) -> Option<Seq<char>> {
        match self.member(key) {
            Some(JsonView::Number(_, s)) => Some(s),
            _ => None,
        }
    }

    /// The truth value that the member named `key` holds.
    pub open spec fn bool_at(self, key: Seq<char>) -> Option<bool> {
        match self.member(key) {
            Some(JsonView::Bool(b)) => Some(b),
            _ => None,
        }
    }

    /// The items that the member named `key` holds.
    pub open spec fn array_at(self, key: Seq<char>) -> Option<Seq<JsonView>> {
        match self.member(key) {
            Some(JsonView::Array(items)) => Some(items),
            _ => None,
        }
    }

    /// The member named `outer`, or null.
    pub open spec fn nested(self, outer: Seq<char>) -> JsonView {
        match self.member(outer) {
            Some(v) => v,
            None => JsonView::Null,
        }
    }

    /// The object `self` with its member `key` set.
    pub open spec fn with(self, key: Seq<char>, value: JsonView) -> JsonView {
        match self {
            JsonView::Object(m) => JsonView::Object(m.insert(key, value)),
            _ => self,
        }
    }
}

/// The object without members.
pub open spec fn no_members() -> JsonView {
    JsonView::Object(Map::empty())
}

/// An unsigned integer as a document.
pub open spec fn number_view(n: u64) -> JsonView {
    JsonView::Number(Some(n), decimal(n as nat))
}

/// The views of a list of documents.
pub open spec fn json_views(items: Seq<Json>) -> Seq<JsonView> {
    Seq::new(
        items.len(),
        |i: int|
            if 0 <= i < items.len() {
                items[i]@
            } else {
                JsonView::Null
            },
    )
}

proof fn lemma_member_at(entries: Seq<(String, Json)>, key: Seq<char>)
    ensures
        -1 <= member_at(entries, key) < entries.len(),
        member_at(entries, key) >= 0 ==> entries[member_at(entries, key)].0@ == key,
        forall|j: int| member_at(entries, key) < j < entries.len() ==> entries[j].0@ != key,
    decreases entries.len(),
{
    if entries.len() > 0 && entries.last().0@ != key {
        lemma_member_at(entries.drop_last(), key);
        assert forall|j: int| member_at(entries, key) < j < entries.len() implies entries[j].0@
            != key by {
            if j < entries.len() - 1 {
                assert(entries.drop_last()[j] == entries[j]);
            }
        }
    }
}

impl Json {
    /// The member named `key`.
    pub fn member(&self, key: &str) -> (r: Option<&Json>)
        ensures
            match r {
                Some(v) => self@.member(key@) == Some(v@),
                None => self@.member(key@) is None,
            },
    {
        match self {
            Json::Object(entries) => {
                let mut i: usize = entries.len();
                proof {
                    assert(entries@.take(i as int) == entries@);
                    lemma_member_at(entries@, key@);
                }
                while i > 0
                    invariant
                        i <= entries@.len(),
                        self matches Json::Object(e) && e == entries,
                        -1 <= member_at(entries@, key@) < entries@.len(),
                        member_at(entries@, key@) == member_at(entries@.take(i as int), key@),
                    decreases i,
                {
                    proof {
                        assert(entries@.take(i as int).last() == entries@[i - 1]);
                        assert(entries@.take(i as int).drop_last() == entries@.take(i - 1));
                    }
                    if same(entries[i - 1].0.as_str(), key) {
                        return Some(&entries[i - 1].1);
                    }
                    i = i - 1;
                }
                None
            },
            _ => None,
        }
    }

    /// The text that the member named `key` holds.
    pub fn text_at(&self, key: &str) -> (r: Option<&str>)
        ensures
            match r {
                Some(s) => self@.text_at(key@) == Some(s@),
                None => self@.text_at(key@) is None,
            },
    {
        match self.member(key) {
            Some(Json::Text(s)) => Some(s.as_str()),
            _ => None,
        }
    }

    /// The unsigned integer that the member named `key` holds.
    pub fn u64_at(&self, key: &str) -> (r: Option<u64>)
        ensures
            r == self@.u64_at(key@),
    {
        match self.member(key) {
            Some(Json::Number(n, _)) => *n,
            _ => None,
        }
    }

    /// The text of the number that the member named `key` holds.
    pub fn number_at(&self, key: &str) -> (r: Option<&str>)
        ensures
            match r {
                Some(s) => self@.number_at(key@) == Some(s@),
                None => self@.number_at(key@) is None,
            },
    {
        match self.member(key) {
            Some(Json::Number(_, s)) => Some(s.as_str()),
            _ => None,
        }
    }

    /// The truth value that the member named `key` holds.
    pub fn bool_at(&self, key: &str) -> (r: Option<bool>)
        ensures
            r == self@.bool_at(key@),
    {
        match self.member(key) {
            Some(Json::Bool(b)) => Some(*b),
            _ => None,
        }
    }

    /// Whether the document is an object.
    pub fn is_object(&self) -> (r: bool)
        ensures
            r == self@ is Object,
    {
        match self {
            Json::Object(_) => true,
            _ => false,
        }
    }

    /// The items that the member named `key` holds.
    pub fn array_at(&self, key: &str) -> (r: Option<&Vec<Json>>)
        ensures
            match r {
                Some(items) => self@.array_at(key@) == Some(json_views(items@)),
                None => self@.array_at(key@) is None,
            },
    {
        match self.member(key) {
            Some(Json::Array(items)) => {
                proof {
                    assert(Json::Array(*items)@->Array_0 =~= json_views(items@));
                }
                Some(items)
            },
            _ => None,
        }
    }
}

impl Json {
    /// The object without members.
    pub fn object() -> (r: Json)
        ensures
            r@ == no_members(),
    {
        let entries: Vec<(String, Json)> = Vec::new();
        proof {
            assert(Json::Object(entries)@->Object_0 =~= Map::empty());
        }
        Json::Object(entries)
    }

    /// A text.
    pub fn text(s: &str) -> (r: Json)
        ensures
            r@ == JsonView::Text(s@),
    {
        Json::Text(owned(s))
    }

    /// An unsigned integer.
    pub fn number(n: u64) -> (r: Json)
        ensures
            r@ == number_view(n),
    {
        Json::Number(Some(n), to_decimal(n))
    }

    /// The object `self` with its member `key` set.
    pub fn with(self, key: &str, value: Json) -> (r: Json)
        ensures
            r@ == self@.with(key@, value@),
    {
        match self {
            Json::Object(entries) => {
                let mut out = entries;
                out.push((owned(key), value));
                proof {
                    let old_doc = Json::Object(entries)@->Object_0;
                    let doc = Json::Object(out)@->Object_0;
                    assert(out@.drop_last() == entries@);
                    assert forall|k: Seq<char>| true implies doc.contains_key(k)
                        == old_doc.insert(key@, value@).contains_key(k) && (doc.contains_key(k)
                        ==> doc[k] == old_doc.insert(key@, value@)[k]) by {
                        lemma_member_at(entries@, k);
                        lemma_member_at(out@, k);
                    }
                    assert(doc =~= old_doc.insert(key@, value@));
                }
                Json::Object(out)
            },
            other => other,
        }
    }

    /// A copy of the document.
    pub fn copied(&self) -> (r: Json)
        ensures
            r@ == self@,
        decreases self,
    {
        match self {
            Json::Null => Json::Null,
            Json::Bool(b) => Json::Bool(*b),
            Json::Number(n, s) => Json::Number(*n, s.clone()),
            Json::Text(s) => Json::Text(s.clone()),
            Json::Array(items) => {
                let mut out: Vec<Json> = Vec::new();
                let mut i: usize = 0;
                while i < items.len()
                    invariant
                        *self == Json::Array(*items),
                        i <= items@.len(),
                        out@.len() == i,
                        forall|k: int| 0 <= k < i ==> (#[trigger] out@[k])@ == items@[k]@,
                    decreases items@.len() - i,
                {
                    proof {
                        assert(decreases_to!(*self => self->Array_0));
                        assert(decreases_to!(items => items@));
                        assert(decreases_to!(items@ => items@[i as int]));
                    }
                    let item = items[i].copied();
                    out.push(item);
                    i = i + 1;
                }
                proof {
                    assert(Json::Array(out)@->Array_0 =~= self@->Array_0);
                }
                Json::Array(out)
            },
            Json::Object(entries) => {
                let mut out: Vec<(String, Json)> = Vec::new();
                let mut i: usize = 0;
                while i < entries.len()
                    invariant
                        *self == Json::Object(*entries),
                        i <= entries@.len(),
                        out@.len() == i,
                        forall|k: int|
                            0 <= k < i ==> (#[trigger] out@[k]).0@ == entries@[k].0@ && out@[k].1@
                                == entries@[k].1@,
                    decreases entries@.len() - i,
                {
                    proof {
                        assert(decreases_to!(*self => self->Object_0));
                        assert(decreases_to!(entries => entries@));
                        assert(decreases_to!(entries@ => entries@[i as int]));
                        assert(decreases_to!(entries@[i as int] => entries@[i as int].1));
                    }
                    let item = entries[i].1.copied();
                    out.push((entries[i].0.clone(), item));
                    i = i + 1;
                }
                proof {
                    assert forall|k: Seq<char>| true implies member_at(out@, k) == member_at(
                        entries@,
                        k,
                    ) by {
                        lemma_same_names(out@, entries@, k);
                        lemma_member_at(out@, k);
                    }
                    let doc = Json::Object(out)@->Object_0;
                    assert forall|k: Seq<char>| doc.contains_key(k) implies doc[k]
                        == self@->Object_0[k] by {
                        lemma_member_at(out@, k);
                    }
                    assert(doc =~= self@->Object_0);
                }
                Json::Object(out)
            },
        }
    }
}

proof fn lemma_same_names(a: Seq<(String, Json)>, b: Seq<(String, Json)>, key: Seq<char>)
    requires
        a.len() == b.len(),
        forall|k: int| 0 <= k < a.len() ==> (#[trigger] a[k]).0@ == b[k].0@,
    ensures
        member_at(a, key) == member_at(b, key),
    decreases a.len(),
{
    if a.len() > 0 {
        assert(a[a.len() - 1].0@ == b[a.len() - 1].0@);
        assert forall|k: int| 0 <= k < a.len() - 1 implies (#[trigger] a.drop_last()[k]).0@
            == b.drop_last()[k].0@ by {
            assert(a[k].0@ == b[k].0@);
        }
        lemma_same_names(a.drop_last(), b.drop_last(), key);
    }
}

/// `serde_json::Value`, which only this module looks into.
#[verifier::external_type_specification]
#[verifier::external_body]
pub struct ExValue(serde_json::Value);

/// What a `serde_json::Value` holds.
pub uninterp spec fn json_of(v: serde_json::Value) -> JsonView;

/// What `serde_json::from_str` makes of a text: the document that it spells, or
/// the message of its error.
pub uninterp spec fn json_text(text: Seq<char>) -> Result<JsonView, Seq<char>>;

/// `serde_json::from_str`, on the type `Value`: parses a text, and otherwise
/// says in words what is wrong with it.
#[verifier::external_body]
fn parse_value(text: &str) -> (r: Result<serde_json::Value, String>)
    ensures
        match r {
            Ok(v) => json_text(text@) == Ok::<JsonView, Seq<char>>(json_of(v)),
            Err(e) => json_text(text@) == Err::<JsonView, Seq<char>>(e@),
        },
{
    serde_json::from_str::<serde_json::Value>(text).map_err(|e| e.to_string())
}

/// One level of a `serde_json::Value`.
enum Node<'a> {
    Null,
    Bool(bool),
    Number(Option<u64>, String),
    Text(&'a String),
    Array(&'a Vec<serde_json::Value>),
    Object(Vec<(&'a String, &'a serde_json::Value)>),
}

/// The variants of `serde_json::Value` told apart. An array keeps its items in
/// order; an object's members have distinct names and are all of them. A number
/// comes as `Number::as_u64` and `Number::to_string` give it.
#[verifier::external_body]
fn open_value<'a>(v: &'a serde_json::Value) -> (r: Node<'a>)
    ensures
        match r {
            Node::Null => json_of(*v) == JsonView::Null,
            Node::Bool(b) => json_of(*v) == JsonView::Bool(b),
            Node::Number(n, s) => json_of(*v) == JsonView::Number(n, s@),
            Node::Text(s) => json_of(*v) == JsonView::Text(s@),
            Node::Array(items) => json_of(*v) matches JsonView::Array(a) && a.len() == items@.len()
                && forall|i: int| 0 <= i < a.len() ==> json_of(#[trigger] items@[i]) == a[i],
            Node::Object(entries) => json_of(*v) matches JsonView::Object(m) && (forall|i: int|
                0 <= i < entries@.len() ==> m.contains_key((#[trigger] entries@[i]).0@)
                    && m[entries@[i].0@] == json_of(*entries@[i].1)) && (forall|key: Seq<char>|
                m.contains_key(key) ==> exists|i: int|
                    0 <= i < entries@.len() && (#[trigger] entries@[i]).0@ == key),
        },
{
    match v {
        serde_json::Value::Null => Node::Null,
        serde_json::Value::Bool(b) => Node::Bool(*b),
        serde_json::Value::Number(n) => Node::Number(n.as_u64(), n.to_string()),
        serde_json::Value::String(s) => Node::Text(s),
        serde_json::Value::Array(a) => Node::Array(a),
        serde_json::Value::Object(m) => Node::Object(m.iter().collect()),
    }
}

/// Copies a `serde_json::Value` into a document of plain values.
fn copy_value(v: &serde_json::Value) -> (r: Json)
    ensures
        r@ == json_of(*v),
    decreases json_of(*v),
{
    match open_value(v) {
        Node::Null => Json::Null,
        Node::Bool(b) => Json::Bool(b),
        Node::Number(n, s) => Json::Number(n, s),
        Node::Text(s) => Json::Text(s.clone()),
        Node::Array(items) => {
            let mut out: Vec<Json> = Vec::new();
            let mut i: usize = 0;
            let ghost a = json_of(*v)->Array_0;
            while i < items.len()
                invariant
                    json_of(*v) == JsonView::Array(a),
                    a.len() == items@.len(),
                    forall|k: int| 0 <= k < a.len() ==> json_of(#[trigger] items@[k]) == a[k],
                    i <= items@.len(),
                    out@.len() == i,
                    forall|k: int| 0 <= k < i ==> (#[trigger] out@[k])@ == a[k],
                decreases items@.len() - i,
            {
                proof {
                    assert(json_of(items@[i as int]) == a[i as int]);
                    assert(decreases_to!(json_of(*v) => json_of(*v)->Array_0));
                    assert(decreases_to!(a => a[i as int]));
                }
                let item = copy_value(&items[i]);
                out.push(item);
                i = i + 1;
            }
            proof {
                assert(Json::Array(out)@->Array_0 =~= a);
            }
            Json::Array(out)
        },
        Node::Object(entries) => {
            let mut out: Vec<(String, Json)> = Vec::new();
            let mut i: usize = 0;
            let ghost m = json_of(*v)->Object_0;
            proof {
                let keys = Seq::new(entries@.len(), |k: int| entries@[k].0@);
                assert forall|key: Seq<char>| m.contains_key(key) implies keys.contains(key) by {
                    let k = choose|k: int|
                        0 <= k < entries@.len() && (#[trigger] entries@[k]).0@ == key;
                    assert(keys[k] == key);
                }
                assert forall|key: Seq<char>| keys.contains(key) implies m.contains_key(key) by {
                    let k = choose|k: int| 0 <= k < keys.len() && keys[k] == key;
                    assert(m.contains_key(entries@[k].0@));
                }
                assert(m.dom() =~= keys.to_set());
                vstd::seq_lib::seq_to_set_is_finite(keys);
            }
            while i < entries.len()
                invariant
                    json_of(*v) == JsonView::Object(m),
                    m.dom().finite(),
                    forall|k: int|
                        0 <= k < entries@.len() ==> m.contains_key((#[trigger] entries@[k]).0@)
                            && m[entries@[k].0@] == json_of(*entries@[k].1),
                    i <= entries@.len(),
                    out@.len() == i,
                    forall|k: int|
                        0 <= k < i ==> (#[trigger] out@[k]).0@ == entries@[k].0@ && out@[k].1@
                            == m[entries@[k].0@],
                decreases entries@.len() - i,
            {
                let e = entries[i];
                proof {
                    assert(entries@[i as int] == e);
                    assert(m.contains_key(e.0@));
                    assert(decreases_to!(json_of(*v) => json_of(*v)->Object_0));
                    assert(decreases_to!(m => m[e.0@]));
                }
                let item = copy_value(e.1);
                out.push((e.0.clone(), item));
                i = i + 1;
            }
            proof {
                let doc = Json::Object(out)@->Object_0;
                assert forall|key: Seq<char>| doc.contains_key(key) == m.contains_key(key) by {
                    lemma_member_at(out@, key);
                    if m.contains_key(key) {
                        let k = choose|k: int|
                            0 <= k < entries@.len() && (#[trigger] entries@[k]).0@ == key;
                        assert(out@[k].0@ == key);
                    }
                    if member_at(out@, key) >= 0 {
                        assert(entries@[member_at(out@, key)].0@ == key);
                    }
                }
                assert forall|key: Seq<char>| m.contains_key(key) implies doc[key] == m[key] by {
                    lemma_member_at(out@, key);
                    assert(doc.contains_key(key));
                }
                assert(doc =~= m);
            }
            Json::Object(out)
        },
    }
}

/// Reads a JSON text.
pub fn parse_json(text: &str) -> (r: Result<Json, String>)
    ensures
        match r {
            Ok(v) => json_text(text@) == Ok::<JsonView, Seq<char>>(v@),
            Err(e) => json_text(text@) == Err::<JsonView, Seq<char>>(e@),
        },
{
    match parse_value(text) {
        Ok(v) => Ok(copy_value(&v)),
        Err(e) => Err(e),
    }
}

/// A hexadecimal digit, in lower case.
pub open spec fn hex_char(n: nat) -> char {
    if n < 10 {
        ('0' as int + n) as char
    } else {
        ('a' as int + n - 10) as char
    }
}

/// How a character stands in a JSON string.
pub open spec fn json_escape(c: char) -> Seq<char> {
    if c == '"' || c == '\\' {
        seq!['\\', c]
    } else if c == '\u{8}' {
        seq!['\\', 'b']
    } else if c == '\t' {
        seq!['\\', 't']
    } else if c == '\n' {
        seq!['\\', 'n']
    } else if c == '\u{c}' {
        seq!['\\', 'f']
    } else if c == '\r' {
        seq!['\\', 'r']
    } else if (c as nat) < 32 {
        seq!['\\', 'u', '0', '0', hex_char(c as nat / 16), hex_char(c as nat % 16)]
    } else {
        seq![c]
    }
}

/// The characters of a text as they stand in a JSON string.
pub open spec fn json_escaped(text: Seq<char>) -> Seq<char>
    decreases text.len(),
{
    if text.len() == 0 {
        seq![]
    } else {
        json_escaped(text.drop_last()) + json_escape(text.last())
    }
}

/// A text as a JSON string.
pub open spec fn json_quoted(text: Seq<char>) -> Seq<char> {
    seq!['"'] + json_escaped(text) + seq!['"']
}

/// `serde_json::Value::to_string` on a string: the text in quotes, where a quote
/// and a backslash get a backslash in front, a control character is written by its
/// short escape or by its number in hexadecimal, and all else stands as it is.
#[verifier::external_body]
pub(crate) fn quote(text: &str) -> (r: String)
    ensures
        r@ == json_quoted(text@),
{
    serde_json::Value::from(text).to_string()
}

/// How far a string literal goes whose opening quote stands before `s`: to the
/// first quote that no backslash escapes.
pub open spec fn literal_len(s: Seq<char>) -> nat
    decreases s.len(),
{
    if s.len() == 0 || s[0] == '"' {
        0
    } else if s[0] == '\\' && s.len() > 1 {
        2 + literal_len(s.skip(2))
    } else {
        1 + literal_len(s.skip(1))
    }
}

proof fn lemma_escape_inside(c: char, rest: Seq<char>)
    ensures
        literal_len(json_escape(c) + rest) == json_escape(c).len() + literal_len(rest),
{
    let e = json_escape(c);
    let s = e + rest;
    if e.len() == 1 {
        assert(s.skip(1) == rest);
    } else if e.len() == 2 {
        assert(s.skip(2) == rest);
    } else {
        let n = c as nat;
        assert(hex_char(n / 16) != '"' && hex_char(n / 16) != '\\');
        assert(hex_char(n % 16) != '"' && hex_char(n % 16) != '\\');
        reveal_with_fuel(literal_len, 6);
        assert(s.skip(2).skip(1) == s.skip(3));
        assert(s.skip(3).skip(1) == s.skip(4));
        assert(s.skip(4).skip(1) == s.skip(5));
        assert(s.skip(5).skip(1) == rest);
    }
}

proof fn lemma_escaped_inside(text: Seq<char>, rest: Seq<char>)
    ensures
        literal_len(json_escaped(text) + rest) == json_escaped(text).len() + literal_len(rest),
    decreases text.len(),
{
    if text.len() == 0 {
        assert(json_escaped(text) + rest == rest);
    } else {
        let front = json_escaped(text.drop_last());
        let last = json_escape(text.last());
        assert(json_escaped(text) + rest == front + (last + rest));
        lemma_escaped_inside(text.drop_last(), last + rest);
        lemma_escape_inside(text.last(), rest);
    }
}

/// A quoted text stays one string wherever it stands: read from its opening quote,
/// it ends at its own closing one, whatever the text holds and whatever follows.
pub proof fn quoted_text_is_one_string(text: Seq<char>, rest: Seq<char>)
    ensures
        literal_len((json_quoted(text) + rest).skip(1)) == json_quoted(text).len() - 2,
{
    let close = seq!['"'] + rest;
    assert((json_quoted(text) + rest).skip(1) == json_escaped(text) + close);
    lemma_escaped_inside(text, close);
}

/// A member that was set is what a reader finds under its name, as what it is and
/// as nothing else, and every other member stays.
pub proof fn set_members_are_read_back(m: Map<Seq<char>, JsonView>, key: Seq<char>, value: JsonView, other: Seq<char>)
    requires
        other != key,
    ensures
        JsonView::Object(m).with(key, value).member(key) == Some(value),
        JsonView::Object(m).with(key, value).nested(key) == value,
        JsonView::Object(m).with(key, value).member(other) == JsonView::Object(m).member(other),
        no_members().member(key) is None,
{
}

/// A typed reader gives what the member holds where it is of that type, and
/// nothing where it is of another or is missing.
pub proof fn members_are_read_by_type(v: JsonView, key: Seq<char>)
    ensures
        match v.member(key) {
            Some(JsonView::Text(s)) => v.text_at(key) == Some(s),
            _ => v.text_at(key) is None,
        },
        match v.member(key) {
            Some(JsonView::Bool(b)) => v.bool_at(key) == Some(b),
            _ => v.bool_at(key) is None,
        },
        match v.member(key) {
            Some(JsonView::Array(items)) => v.array_at(key) == Some(items),
            _ => v.array_at(key) is None,
        },
        match v.member(key) {
            Some(JsonView::Number(n, text)) => v.u64_at(key) == n && v.number_at(key) == Some(text),
            _ => v.u64_at(key) is None && v.number_at(key) is None,
        },
        v !is Object ==> v.member(key) is None && v.nested(key) is Null,
{
}

/// Quoting goes character by character, and a character that is neither a quote
/// nor a backslash nor a control character stands as it is.
pub proof fn quoting_goes_by_character(a: Seq<char>, b: Seq<char>, c: char)
    ensures
        json_escaped(a + b) == json_escaped(a) + json_escaped(b),
        c != '"' && c != '\\' && c as nat >= 32 ==> json_escaped(seq![c]) == seq![c],
        c == '"' || c == '\\' ==> json_escaped(seq![c]) == seq!['\\', c],
        json_quoted(a) == seq!['"'] + json_escaped(a) + seq!['"'],
    decreases b.len(),
{
    if b.len() > 0 {
        assert((a + b).drop_last() == a + b.drop_last());
        quoting_goes_by_character(a, b.drop_last(), c);
        assert(json_escaped(a) + (json_escaped(b.drop_last()) + json_escape(b.last())) == (json_escaped(a)
            + json_escaped(b.drop_last())) + json_escape(b.last()));
    } else {
        assert(a + b == a);
        assert(json_escaped(a) + Seq::<char>::empty() == json_escaped(a));
    }
    let none = Seq::<char>::empty();
    assert(seq![c].drop_last() == none);
    assert(json_escaped(none) == none);
    assert(none + json_escape(c) == json_escape(c));
}

/// A document is viewed as what it holds: its value, its items in order, and under
/// each name the last member of that name.
pub proof fn documents_are_viewed_as_they_are(
    b: bool,
    n: Option<u64>,
    text: String,
    items: Vec<Json>,
    entries: Vec<(String, Json)>,
    i: int,
)
    ensures
        Json::Null@ is Null,
        Json::Bool(b)@ == JsonView::Bool(b),
        Json::Number(n, text)@ == JsonView::Number(n, text@),
        Json::Text(text)@ == JsonView::Text(text@),
        Json::Array(items)@ matches JsonView::Array(s) && s.len() == items@.len() && (0 <= i
            < items@.len() ==> s[i] == items@[i]@),
        json_views(items@).len() == items@.len() && (0 <= i < items@.len() ==> json_views(items@)[i]
            == items@[i]@),
        0 <= i < entries@.len() && (forall|k: int|
            i < k < entries@.len() ==> (#[trigger] entries@[k]).0@ != entries@[i].0@) ==> Json::Object(
            entries,
        )@.member(entries@[i].0@) == Some(entries@[i].1@),
{
    if 0 <= i < entries@.len() {
        lemma_member_at(entries@, entries@[i].0@);
        let k = member_at(entries@, entries@[i].0@);
        if k > i {
            assert(entries@[k].0@ == entries@[i].0@);
        }
    }
}

/// A number is written in decimal and known by its value.
pub proof fn numbers_are_written_in_decimal(n: u64)
    ensures
        number_view(n) == JsonView::Number(Some(n), decimal(n as nat)),
{
}

} // verus!

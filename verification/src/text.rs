//! Text as sequences of characters: the searching, cutting and rendering that
//! the rest of the shell is built from.
use vstd::prelude::*;

verus! {

broadcast use vstd::string::group_string_axioms;

/// `String::push`: the text grows by one character at its end.
pub assume_specification[ String::push ](s: &mut String, c: char)
    ensures
        final(s)@ == old(s)@.push(c),
;

/// The characters of a text.
pub fn chars_of(s: &str) -> (r: Vec<char>)
    ensures
        r@ == s@,
{
    let mut out: Vec<char> = Vec::new();
    for c in it: s.chars()
        invariant
            out@ == s@.take(it.index()),
            it.seq() == s@,
    {
        proof {
            assert(s@.take(it.index() + 1) == s@.take(it.index()).push(s@[it.index()]));
        }
        out.push(c);
    }
    proof {
        assert(s@.take(s@.len() as int) == s@);
    }
    out
}

/// The text made of `chars[from..to]`.
pub fn string_of(chars: &[char], from: usize, to: usize) -> (r: String)
    requires
        from <= to <= chars@.len(),
    ensures
        r@ == chars@.subrange(from as int, to as int),
{
    let mut out = String::new();
    let mut i: usize = from;
    while i < to
        invariant
            from <= i <= to <= chars@.len(),
            out@ == chars@.subrange(from as int, i as int),
        decreases to - i,
    {
        out.push(chars[i]);
        proof {
            assert(chars@.subrange(from as int, i as int).push(chars@[i as int])
                == chars@.subrange(from as int, i + 1));
        }
        i = i + 1;
    }
    out
}

/// Two texts hold the same characters.
pub fn same(a: &str, b: &str) -> (r: bool)
    ensures
        r == (a@ == b@),
{
    let x = chars_of(a);
    let y = chars_of(b);
    same_chars(&x, &y)
}

/// Two character slices hold the same characters.
fn same_chars(x: &[char], y: &[char]) -> (r: bool)
    ensures
        r == (x@ == y@),
{
    if x.len() != y.len() {
        return false;
    }
    let mut i: usize = 0;
    while i < x.len()
        invariant
            i <= x@.len(),
            x@.len() == y@.len(),
            forall|j: int| 0 <= j < i ==> x@[j] == y@[j],
        decreases x@.len() - i,
    {
        if x[i] != y[i] {
            return false;
        }
        i = i + 1;
    }
    proof {
        assert(x@ =~= y@);
    }
    true
}

/// An owned copy of a text.
pub fn owned(s: &str) -> (r: String)
    ensures
        r@ == s@,
{
    s.to_owned()
}

/// The characters with Unicode's `White_Space` property.
pub open spec fn is_space(c: char) -> bool {
    ||| '\u{9}' <= c <= '\u{d}'
    ||| c == ' '
    ||| c == '\u{85}'
    ||| c == '\u{a0}'
    ||| c == '\u{1680}'
    ||| '\u{2000}' <= c <= '\u{200a}'
    ||| c == '\u{2028}'
    ||| c == '\u{2029}'
    ||| c == '\u{202f}'
    ||| c == '\u{205f}'
    ||| c == '\u{3000}'
}

fn space(c: char) -> (r: bool)
    ensures
        r == is_space(c),
{
    ('\u{9}' <= c && c <= '\u{d}') || c == ' ' || c == '\u{85}' || c == '\u{a0}' || c == '\u{1680}'
        || ('\u{2000}' <= c && c <= '\u{200a}') || c == '\u{2028}' || c == '\u{2029}' || c
        == '\u{202f}' || c == '\u{205f}' || c == '\u{3000}'
}

/// `s` without its leading white space.
pub open spec fn trim_start(s: Seq<char>) -> Seq<char>
    decreases s.len(),
{
    if s.len() > 0 && is_space(s[0]) {
        trim_start(s.skip(1))
    } else {
        s
    }
}

/// `s` without its trailing white space.
pub open spec fn trim_end(s: Seq<char>) -> Seq<char>
    decreases s.len(),
{
    if s.len() > 0 && is_space(s.last()) {
        trim_end(s.drop_last())
    } else {
        s
    }
}

/// `s` without white space around it.
pub open spec fn trimmed(s: Seq<char>) -> Seq<char> {
    trim_end(trim_start(s))
}

/// Cuts the white space around a text.
pub fn trim(s: &str) -> (r: String)
    ensures
        r@ == trimmed(s@),
{
    let x = chars_of(s);
    let mut i: usize = 0;
    proof {
        assert(s@.skip(0) == s@);
    }
    while i < x.len() && space(x[i])
        invariant
            x@ == s@,
            i <= s@.len(),
            trim_start(s@) == trim_start(s@.skip(i as int)),
        decreases s@.len() - i,
    {
        proof {
            assert(s@.skip(i as int).skip(1) == s@.skip(i + 1));
        }
        i = i + 1;
    }
    let mut j: usize = x.len();
    proof {
        assert(trim_start(s@) == s@.skip(i as int));
        assert(s@.subrange(i as int, j as int) == s@.skip(i as int));
    }
    while j > i && space(x[j - 1])
        invariant
            x@ == s@,
            i <= j <= s@.len(),
            trimmed(s@) == trim_end(s@.subrange(i as int, j as int)),
        decreases j,
    {
        proof {
            assert(s@.subrange(i as int, j as int).drop_last() == s@.subrange(i as int, j - 1));
        }
        j = j - 1;
    }
    string_of(&x, i, j)
}

/// `s` without the run of `c` that it starts with.
pub open spec fn trim_start_char(s: Seq<char>, c: char) -> Seq<char>
    decreases s.len(),
{
    if s.len() > 0 && s[0] == c {
        trim_start_char(s.skip(1), c)
    } else {
        s
    }
}

/// Cuts the run of `c` that a text starts with.
pub fn strip_leading(s: &str, c: char) -> (r: String)
    ensures
        r@ == trim_start_char(s@, c),
{
    let x = chars_of(s);
    let mut i: usize = 0;
    proof {
        assert(s@.skip(0) == s@);
    }
    while i < x.len() && x[i] == c
        invariant
            x@ == s@,
            i <= s@.len(),
            trim_start_char(s@, c) == trim_start_char(s@.skip(i as int), c),
        decreases s@.len() - i,
    {
        proof {
            assert(s@.skip(i as int).skip(1) == s@.skip(i + 1));
        }
        i = i + 1;
    }
    proof {
        assert(s@.subrange(i as int, s@.len() as int) == s@.skip(i as int));
    }
    string_of(&x, i, x.len())
}

/// `s` without the run of `c` that it ends with.
pub open spec fn trim_end_char(s: Seq<char>, c: char) -> Seq<char>
    decreases s.len(),
{
    if s.len() > 0 && s.last() == c {
        trim_end_char(s.drop_last(), c)
    } else {
        s
    }
}

/// Cuts the run of `c` that a text ends with.
pub fn strip_trailing(s: &str, c: char) -> (r: String)
    ensures
        r@ == trim_end_char(s@, c),
{
    let x = chars_of(s);
    let mut j: usize = x.len();
    proof {
        assert(s@.take(j as int) == s@);
    }
    while j > 0 && x[j - 1] == c
        invariant
            x@ == s@,
            j <= s@.len(),
            trim_end_char(s@, c) == trim_end_char(s@.take(j as int), c),
        decreases j,
    {
        proof {
            assert(s@.take(j as int).drop_last() == s@.take(j - 1));
        }
        j = j - 1;
    }
    proof {
        assert(s@.subrange(0, j as int) == s@.take(j as int));
    }
    string_of(&x, 0, j)
}

/// `chars[at..]` starts with `p`.
fn starts_at(chars: &[char], at: usize, p: &[char]) -> (r: bool)
    requires
        at <= chars@.len(),
    ensures
        r == p@.is_prefix_of(chars@.skip(at as int)),
{
    let n: usize = chars.len();
    if p.len() > n - at {
        return false;
    }
    let mut i: usize = 0;
    while i < p.len()
        invariant
            i <= p@.len(),
            n == chars@.len(),
            at + p@.len() <= n,
            forall|j: int| 0 <= j < i ==> p@[j] == chars@[at + j],
        decreases p@.len() - i,
    {
        if chars[at + i] != p[i] {
            proof {
                assert(chars@.skip(at as int).subrange(0, p@.len() as int)[i as int]
                    == chars@[at + i]);
            }
            return false;
        }
        i = i + 1;
    }
    proof {
        assert(p@ =~= chars@.skip(at as int).subrange(0, p@.len() as int));
    }
    true
}

/// A text starts with `p`.
pub fn starts_with(s: &str, p: &str) -> (r: bool)
    ensures
        r == p@.is_prefix_of(s@),
{
    let x = chars_of(s);
    let y = chars_of(p);
    proof {
        assert(s@.skip(0) == s@);
    }
    starts_at(&x, 0, &y)
}

/// A text ends with `p`.
pub fn ends_with(s: &str, p: &str) -> (r: bool)
    ensures
        r == p@.is_suffix_of(s@),
{
    let x = chars_of(s);
    let y = chars_of(p);
    if y.len() > x.len() {
        return false;
    }
    let at: usize = x.len() - y.len();
    proof {
        assert(s@.skip(at as int).subrange(0, p@.len() as int) == s@.subrange(
            s@.len() - p@.len(),
            s@.len() as int,
        ));
    }
    starts_at(&x, at, &y)
}

/// `s` without the leading repetitions of `p`.
pub open spec fn trim_start_str(s: Seq<char>, p: Seq<char>) -> Seq<char>
    decreases s.len(),
{
    if p.len() > 0 && p.is_prefix_of(s) {
        trim_start_str(s.skip(p.len() as int), p)
    } else {
        s
    }
}

/// Cuts the repetitions of `p` that a text starts with.
pub fn strip_leading_str(s: &str, p: &str) -> (r: String)
    ensures
        r@ == trim_start_str(s@, p@),
{
    let x = chars_of(s);
    let y = chars_of(p);
    let n: usize = x.len();
    let mut i: usize = 0;
    proof {
        assert(s@.skip(0) == s@);
    }
    while y.len() > 0 && starts_at(&x, i, &y)
        invariant
            n == s@.len(),
            x@ == s@,
            y@ == p@,
            i <= s@.len(),
            trim_start_str(s@, p@) == trim_start_str(s@.skip(i as int), p@),
        decreases s@.len() - i,
    {
        proof {
            assert(s@.skip(i as int).skip(p@.len() as int) == s@.skip(i + p@.len()));
        }
        i = i + y.len();
    }
    proof {
        assert(s@.subrange(i as int, s@.len() as int) == s@.skip(i as int));
    }
    string_of(&x, i, x.len())
}

/// The rest of `s` after `p`, where it starts with `p`.
pub open spec fn after_prefix(s: Seq<char>, p: Seq<char>) -> Option<Seq<char>> {
    if p.is_prefix_of(s) {
        Some(s.skip(p.len() as int))
    } else {
        None
    }
}

/// Cuts `p` off the start of a text that starts with it.
pub fn strip_prefix(s: &str, p: &str) -> (r: Option<String>)
    ensures
        match r {
            Some(rest) => after_prefix(s@, p@) == Some(rest@),
            None => after_prefix(s@, p@) is None,
        },
{
    let x = chars_of(s);
    let y = chars_of(p);
    proof {
        assert(s@.skip(0) == s@);
    }
    if starts_at(&x, 0, &y) {
        proof {
            assert(s@.subrange(p@.len() as int, s@.len() as int) == s@.skip(p@.len() as int));
        }
        Some(string_of(&x, y.len(), x.len()))
    } else {
        None
    }
}

/// The position of the first `c` in `s`, or the length of `s` where it holds none.
pub open spec fn find_char(s: Seq<char>, c: char) -> int
    decreases s.len(),
{
    if s.len() == 0 || s[0] == c {
        0
    } else {
        1 + find_char(s.skip(1), c)
    }
}

/// What `find_char` gives is the only position with no `c` before it that is
/// at a `c` or at the end.
pub proof fn lemma_find_char(s: Seq<char>, c: char, i: int)
    requires
        0 <= i <= s.len(),
        forall|j: int| 0 <= j < i ==> s[j] != c,
        i < s.len() ==> s[i] == c,
    ensures
        find_char(s, c) == i,
    decreases s.len(),
{
    if i > 0 {
        assert(s[0] != c);
        let t = s.skip(1);
        assert forall|j: int| 0 <= j < i - 1 implies t[j] != c by {
            assert(t[j] == s[j + 1]);
        }
        lemma_find_char(t, c, i - 1);
    }
}

/// `find_char` stays within the text, and no `c` stands before it.
pub proof fn lemma_find_char_bounds(s: Seq<char>, c: char)
    ensures
        0 <= find_char(s, c) <= s.len(),
        forall|j: int| 0 <= j < find_char(s, c) ==> s[j] != c,
        find_char(s, c) < s.len() ==> s[find_char(s, c)] == c,
    decreases s.len(),
{
    if s.len() > 0 && s[0] != c {
        let t = s.skip(1);
        lemma_find_char_bounds(t, c);
        assert forall|j: int| 0 <= j < find_char(s, c) implies s[j] != c by {
            if j > 0 {
                assert(t[j - 1] == s[j]);
            }
        }
    }
}

/// The first position from `from` on that holds `c`, or the length.
fn index_of(chars: &[char], from: usize, c: char) -> (r: usize)
    requires
        from <= chars@.len(),
    ensures
        from <= r <= chars@.len(),
        r == from + find_char(chars@.skip(from as int), c),
{
    let mut i: usize = from;
    while i < chars.len() && chars[i] != c
        invariant
            from <= i <= chars@.len(),
            forall|j: int| from <= j < i ==> chars@[j] != c,
        decreases chars@.len() - i,
    {
        i = i + 1;
    }
    proof {
        let t = chars@.skip(from as int);
        assert forall|j: int| 0 <= j < i - from implies t[j] != c by {
            assert(t[j] == chars@[from + j]);
        }
        lemma_find_char(t, c, i - from);
    }
    i
}

/// A text holds the character `c`.
pub fn has_char(s: &str, c: char) -> (r: bool)
    ensures
        r == s@.contains(c),
{
    let x = chars_of(s);
    proof {
        assert(s@.skip(0) == s@);
        lemma_find_char_bounds(s@, c);
    }
    index_of(&x, 0, c) < x.len()
}

/// The two sides of the first `c` in `s`.
pub open spec fn split_once(s: Seq<char>, c: char) -> Option<(Seq<char>, Seq<char>)> {
    let i = find_char(s, c);
    if i < s.len() {
        Some((s.take(i), s.skip(i + 1)))
    } else {
        None
    }
}

/// Cuts a text at its first `c`.
pub fn cut_at_first(s: &str, c: char) -> (r: Option<(String, String)>)
    ensures
        match r {
            Some((a, b)) => split_once(s@, c) == Some((a@, b@)),
            None => split_once(s@, c) is None,
        },
{
    let x = chars_of(s);
    proof {
        assert(s@.skip(0) == s@);
    }
    let i: usize = index_of(&x, 0, c);
    if i < x.len() {
        proof {
            assert(s@.subrange(0, i as int) == s@.take(i as int));
            assert(s@.subrange(i + 1, s@.len() as int) == s@.skip(i + 1));
        }
        Some((string_of(&x, 0, i), string_of(&x, i + 1, x.len())))
    } else {
        None
    }
}

/// The part of `s` before its first `c`: all of it where it holds none.
pub open spec fn before_char(s: Seq<char>, c: char) -> Seq<char> {
    s.take(find_char(s, c))
}

/// Cuts a text off at its first `c`.
pub fn until_char(s: &str, c: char) -> (r: String)
    ensures
        r@ == before_char(s@, c),
{
    let x = chars_of(s);
    proof {
        assert(s@.skip(0) == s@);
    }
    let i: usize = index_of(&x, 0, c);
    proof {
        assert(s@.subrange(0, i as int) == s@.take(i as int));
    }
    string_of(&x, 0, i)
}

/// The position of the last `c` in `s`, or -1 where it holds none.
pub open spec fn rfind_char(s: Seq<char>, c: char) -> int
    decreases s.len(),
{
    if s.len() == 0 {
        -1
    } else if s.last() == c {
        s.len() - 1
    } else {
        rfind_char(s.drop_last(), c)
    }
}

/// `rfind_char` is at a `c` with no `c` behind it, or -1 where there is none.
pub proof fn lemma_rfind_char_bounds(s: Seq<char>, c: char)
    ensures
        -1 <= rfind_char(s, c) < s.len(),
        rfind_char(s, c) >= 0 ==> s[rfind_char(s, c)] == c,
        forall|j: int| rfind_char(s, c) < j < s.len() ==> s[j] != c,
    decreases s.len(),
{
    if s.len() > 0 && s.last() != c {
        lemma_rfind_char_bounds(s.drop_last(), c);
        assert forall|j: int| rfind_char(s, c) < j < s.len() implies s[j] != c by {
            if j < s.len() - 1 {
                assert(s.drop_last()[j] == s[j]);
            }
        }
    }
}

/// The two sides of the last `c` in `s`.
pub open spec fn rsplit_once(s: Seq<char>, c: char) -> Option<(Seq<char>, Seq<char>)> {
    let i = rfind_char(s, c);
    if i >= 0 {
        Some((s.take(i), s.skip(i + 1)))
    } else {
        None
    }
}

/// Cuts a text at its last `c`.
pub fn cut_at_last(s: &str, c: char) -> (r: Option<(String, String)>)
    ensures
        match r {
            Some((a, b)) => rsplit_once(s@, c) == Some((a@, b@)),
            None => rsplit_once(s@, c) is None,
        },
{
    let x = chars_of(s);
    let mut i: usize = x.len();
    proof {
        assert(s@.take(s@.len() as int) == s@);
    }
    while i > 0
        invariant
            x@ == s@,
            i <= s@.len(),
            rfind_char(s@, c) == rfind_char(s@.take(i as int), c),
        decreases i,
    {
        proof {
            assert(s@.take(i as int).last() == s@[i - 1]);
            assert(s@.take(i as int).drop_last() == s@.take(i - 1));
        }
        if x[i - 1] == c {
            proof {
                assert(s@.subrange(0, i - 1) == s@.take(i - 1));
                assert(s@.subrange(i as int, s@.len() as int) == s@.skip(i as int));
            }
            return Some((string_of(&x, 0, i - 1), string_of(&x, i, x.len())));
        }
        i = i - 1;
    }
    None
}

/// The characters of each text of a list.
pub open spec fn views(v: Seq<String>) -> Seq<Seq<char>> {
    v.map_values(|s: String| s@)
}

/// The fields of `s` between the occurrences of `c`.
pub open spec fn split(s: Seq<char>, c: char) -> Seq<Seq<char>>
    decreases s.len(),
{
    proof {
        lemma_find_char_bounds(s, c);
    }
    let i = find_char(s, c);
    if i < s.len() {
        seq![s.take(i)] + split(s.skip(i + 1), c)
    } else {
        seq![s]
    }
}

/// Cuts a text at every `c`.
pub fn fields(s: &str, c: char) -> (r: Vec<String>)
    ensures
        views(r@) == split(s@, c),
{
    let x = chars_of(s);
    let mut out: Vec<String> = Vec::new();
    let mut start: usize = 0;
    proof {
        assert(s@.skip(0) == s@);
        assert(views(out@) + split(s@, c) == split(s@, c));
    }
    loop
        invariant
            x@ == s@,
            start <= s@.len(),
            views(out@) + split(s@.skip(start as int), c) == split(s@, c),
        decreases s@.len() - start,
    {
        let i: usize = index_of(&x, start, c);
        let ghost before = out@;
        let piece = string_of(&x, start, i);
        let ghost rest = s@.skip(start as int);
        proof {
            assert(piece@ == rest.take(i - start));
        }
        out.push(piece);
        proof {
            assert(views(out@) == views(before).push(piece@));
        }
        if i == x.len() {
            proof {
                assert(piece@ == rest);
                assert(views(out@) == views(before) + seq![rest]);
            }
            return out;
        }
        proof {
            assert(rest.skip(i - start + 1) == s@.skip(i + 1));
            assert(views(out@) + split(s@.skip(i + 1), c) == views(before) + (seq![piece@]
                + split(s@.skip(i + 1), c)));
        }
        start = i + 1;
    }
}

/// The length of the run without white space that `s` starts with.
pub open spec fn word_len(s: Seq<char>) -> nat
    decreases s.len(),
{
    if s.len() == 0 || is_space(s[0]) {
        0
    } else {
        1 + word_len(s.skip(1))
    }
}

/// `word_len` stays within the text, and is positive where the text starts with a word.
pub proof fn lemma_word_len_bounds(s: Seq<char>)
    ensures
        word_len(s) <= s.len(),
        s.len() > 0 && !is_space(s[0]) ==> word_len(s) > 0,
    decreases s.len(),
{
    if s.len() > 0 && !is_space(s[0]) {
        lemma_word_len_bounds(s.skip(1));
    }
}

/// `trim_start` never makes a text longer.
pub proof fn lemma_trim_start_len(s: Seq<char>)
    ensures
        trim_start(s).len() <= s.len(),
        trim_start(s).len() > 0 ==> !is_space(trim_start(s)[0]),
    decreases s.len(),
{
    if s.len() > 0 && is_space(s[0]) {
        lemma_trim_start_len(s.skip(1));
    }
}

/// The words of `s`: its runs without white space.
pub open spec fn split_words(s: Seq<char>) -> Seq<Seq<char>>
    decreases s.len(),
{
    proof {
        lemma_trim_start_len(s);
        lemma_word_len_bounds(trim_start(s));
    }
    let t = trim_start(s);
    if t.len() == 0 {
        seq![]
    } else {
        seq![t.take(word_len(t) as int)] + split_words(t.skip(word_len(t) as int))
    }
}

/// Cuts a text into its words.
pub fn words(s: &str) -> (r: Vec<String>)
    ensures
        views(r@) == split_words(s@),
{
    let x = chars_of(s);
    let mut out: Vec<String> = Vec::new();
    let mut i: usize = 0;
    proof {
        assert(s@.skip(0) == s@);
        assert(views(out@) + split_words(s@) == split_words(s@));
    }
    loop
        invariant
            x@ == s@,
            i <= s@.len(),
            views(out@) + split_words(s@.skip(i as int)) == split_words(s@),
        decreases s@.len() - i,
    {
        let ghost rest = s@.skip(i as int);
        let ghost from = i;
        while i < x.len() && space(x[i])
            invariant
                x@ == s@,
                from <= i <= s@.len(),
                trim_start(rest) == trim_start(s@.skip(i as int)),
            decreases s@.len() - i,
        {
            proof {
                assert(s@.skip(i as int).skip(1) == s@.skip(i + 1));
            }
            i = i + 1;
        }
        let ghost t = s@.skip(i as int);
        proof {
            assert(trim_start(rest) == t);
        }
        if i == x.len() {
            proof {
                assert(t.len() == 0);
                assert(views(out@) + split_words(rest) == views(out@));
            }
            return out;
        }
        let start: usize = i;
        proof {
            assert(t.skip(0) == t);
        }
        while i < x.len() && !space(x[i])
            invariant
                x@ == s@,
                t == s@.skip(start as int),
                start <= i <= s@.len(),
                word_len(t) == i - start + word_len(s@.skip(i as int)),
            decreases s@.len() - i,
        {
            proof {
                assert(s@.skip(i as int).skip(1) == s@.skip(i + 1));
            }
            i = i + 1;
        }
        let ghost before = out@;
        let piece = string_of(&x, start, i);
        out.push(piece);
        proof {
            assert(word_len(t) == i - start);
            lemma_word_len_bounds(t);
            assert(piece@ == t.take(word_len(t) as int));
            assert(t.skip(word_len(t) as int) == s@.skip(i as int));
            assert(views(out@) == views(before).push(piece@));
            assert(views(out@) + split_words(s@.skip(i as int)) == views(before) + (seq![piece@]
                + split_words(s@.skip(i as int))));
        }
    }
}

/// The position of the first occurrence of `p` in `s`, or -1 where there is none.
pub open spec fn find_str(s: Seq<char>, p: Seq<char>) -> int
    decreases s.len(),
{
    if p.is_prefix_of(s) {
        0
    } else if s.len() == 0 {
        -1
    } else {
        let i = find_str(s.skip(1), p);
        if i < 0 {
            -1
        } else {
            i + 1
        }
    }
}

/// Where `p` occurs, an occurrence fits into the text.
pub proof fn lemma_find_str_bounds(s: Seq<char>, p: Seq<char>)
    ensures
        find_str(s, p) >= -1,
        find_str(s, p) >= 0 ==> find_str(s, p) + p.len() <= s.len(),
        find_str(s, p) >= 0 ==> s.subrange(find_str(s, p), find_str(s, p) + p.len()) == p,
    decreases s.len(),
{
    if !p.is_prefix_of(s) && s.len() > 0 {
        let t = s.skip(1);
        lemma_find_str_bounds(t, p);
        let i = find_str(t, p);
        if i >= 0 {
            assert(s.subrange(i + 1, i + 1 + p.len()) == t.subrange(i, i + p.len()));
        }
    }
}

/// Where `p` does not occur, no stretch of the text equals it.
pub proof fn lemma_find_str_none(s: Seq<char>, p: Seq<char>, at: int)
    requires
        find_str(s, p) < 0,
        0 <= at,
        at + p.len() <= s.len(),
    ensures
        s.subrange(at, at + p.len()) != p,
    decreases s.len(),
{
    if at == 0 {
        assert(s.subrange(0, p.len() as int) != p);
    } else {
        let t = s.skip(1);
        lemma_find_str_bounds(t, p);
        lemma_find_str_none(t, p, at - 1);
        assert(s.subrange(at, at + p.len()) == t.subrange(at - 1, at - 1 + p.len()));
    }
}

/// Looks for `p` in a text.
fn index_of_str(s: &[char], p: &[char]) -> (r: Option<usize>)
    ensures
        match r {
            Some(i) => find_str(s@, p@) == i && i + p@.len() <= s@.len(),
            None => find_str(s@, p@) < 0,
        },
{
    let n: usize = s.len();
    let mut i: usize = 0;
    proof {
        assert(s@.skip(0) == s@);
        lemma_find_str_bounds(s@, p@);
    }
    while i < n
        invariant
            n == s@.len(),
            i <= n,
            find_str(s@, p@) >= -1,
            find_str(s@, p@) >= 0 ==> find_str(s@, p@) + p@.len() <= n,
            find_str(s@.skip(i as int), p@) >= 0 ==> find_str(s@, p@) == i + find_str(
                s@.skip(i as int),
                p@,
            ),
            find_str(s@.skip(i as int), p@) < 0 ==> find_str(s@, p@) < 0,
        decreases n - i,
    {
        if starts_at(s, i, p) {
            return Some(i);
        }
        proof {
            assert(s@.skip(i as int).skip(1) == s@.skip(i + 1));
        }
        i = i + 1;
    }
    if starts_at(s, i, p) {
        Some(i)
    } else {
        None
    }
}

/// A text holds `p`.
pub fn has_str(s: &str, p: &str) -> (r: bool)
    ensures
        r == (find_str(s@, p@) >= 0),
{
    let x = chars_of(s);
    let y = chars_of(p);
    index_of_str(&x, &y).is_some()
}

/// The two sides of the first occurrence of `p` in `s`.
pub open spec fn split_once_str(s: Seq<char>, p: Seq<char>) -> Option<(Seq<char>, Seq<char>)> {
    let i = find_str(s, p);
    if i >= 0 {
        Some((s.take(i), s.skip(i + p.len())))
    } else {
        None
    }
}

/// Cuts a text at the first occurrence of `p`.
pub fn cut_at_str(s: &str, p: &str) -> (r: Option<(String, String)>)
    ensures
        match r {
            Some((a, b)) => split_once_str(s@, p@) == Some((a@, b@)),
            None => split_once_str(s@, p@) is None,
        },
{
    let x = chars_of(s);
    let y = chars_of(p);
    let n: usize = x.len();
    match index_of_str(&x, &y) {
        Some(i) => {
            proof {
                assert(s@.subrange(0, i as int) == s@.take(i as int));
                assert(s@.subrange(i + p@.len(), s@.len() as int) == s@.skip(i + p@.len()));
            }
            Some((string_of(&x, 0, i), string_of(&x, i + y.len(), n)))
        },
        None => None,
    }
}

/// `s` with every `c` replaced by `with`.
pub open spec fn replaced(s: Seq<char>, c: char, with: Seq<char>) -> Seq<char>
    decreases s.len(),
{
    if s.len() == 0 {
        s
    } else {
        replaced(s.drop_last(), c, with) + (if s.last() == c {
            with
        } else {
            seq![s.last()]
        })
    }
}

/// Replaces every `c` in a text by `with`.
pub fn replace(s: &str, c: char, with: &str) -> (r: String)
    ensures
        r@ == replaced(s@, c, with@),
{
    let x = chars_of(s);
    let mut out = String::new();
    let mut i: usize = 0;
    while i < x.len()
        invariant
            x@ == s@,
            i <= s@.len(),
            out@ == replaced(s@.take(i as int), c, with@),
        decreases s@.len() - i,
    {
        proof {
            assert(s@.take(i + 1).drop_last() == s@.take(i as int));
            assert(s@.take(i + 1).last() == s@[i as int]);
        }
        if x[i] == c {
            out.append(with);
        } else {
            out.push(x[i]);
            proof {
                assert(out@ == replaced(s@.take(i as int), c, with@) + seq![s@[i as int]]);
            }
        }
        i = i + 1;
    }
    proof {
        assert(s@.take(s@.len() as int) == s@);
    }
    out
}

/// At most the first `max` characters of `s`.
pub open spec fn prefix(s: Seq<char>, max: nat) -> Seq<char> {
    if s.len() <= max {
        s
    } else {
        s.take(max as int)
    }
}

/// At most the last `max` characters of `s`.
pub open spec fn suffix(s: Seq<char>, max: nat) -> Seq<char> {
    if s.len() <= max {
        s
    } else {
        s.skip(s.len() - max)
    }
}

/// Keeps at most the first `max` characters of a text.
pub fn truncate_chars(s: &str, max: usize) -> (r: String)
    ensures
        r@ == prefix(s@, max as nat),
{
    let x = chars_of(s);
    if x.len() <= max {
        owned(s)
    } else {
        proof {
            assert(s@.subrange(0, max as int) == s@.take(max as int));
        }
        string_of(&x, 0, max)
    }
}

/// Keeps at most the last `max` characters of a text.
pub fn tail_chars(s: &str, max: usize) -> (r: String)
    ensures
        r@ == suffix(s@, max as nat),
{
    let x = chars_of(s);
    if x.len() <= max {
        owned(s)
    } else {
        let at: usize = x.len() - max;
        proof {
            assert(s@.subrange(at as int, s@.len() as int) == s@.skip(at as int));
        }
        string_of(&x, at, x.len())
    }
}

/// A text without its leading white space is one of its ends, and keeps its
/// last character where that is not white space.
pub proof fn lemma_trim_start_is_end(s: Seq<char>)
    ensures
        trim_start(s).is_suffix_of(s),
        s.len() > 0 && !is_space(s.last()) ==> trim_start(s).len() > 0 && trim_start(s).last()
            == s.last(),
    decreases s.len(),
{
    if s.len() > 0 && is_space(s[0]) {
        lemma_trim_start_is_end(s.skip(1));
    }
}

/// What `trim_end` leaves does not end in white space.
pub proof fn lemma_trim_end_stops(s: Seq<char>)
    ensures
        trim_end(s).len() > 0 ==> !is_space(trim_end(s).last()),
    decreases s.len(),
{
    if s.len() > 0 && is_space(s.last()) {
        lemma_trim_end_stops(s.drop_last());
    }
}

/// Cutting trailing white space takes an end of a text to an end of it.
pub proof fn lemma_trim_end_keeps_ends(t: Seq<char>, s: Seq<char>)
    requires
        t.is_suffix_of(s),
    ensures
        trim_end(t).is_suffix_of(trim_end(s)),
    decreases s.len(),
{
    if t.len() > 0 {
        assert(t.last() == s.last());
        if is_space(s.last()) {
            assert(t.drop_last() == s.drop_last().subrange(
                s.drop_last().len() - t.drop_last().len(),
                s.drop_last().len() as int,
            ));
            lemma_trim_end_keeps_ends(t.drop_last(), s.drop_last());
        }
    }
}

/// The decimal digit of a number below ten.
pub open spec fn digit(d: nat) -> char {
    if d == 0 {
        '0'
    } else if d == 1 {
        '1'
    } else if d == 2 {
        '2'
    } else if d == 3 {
        '3'
    } else if d == 4 {
        '4'
    } else if d == 5 {
        '5'
    } else if d == 6 {
        '6'
    } else if d == 7 {
        '7'
    } else if d == 8 {
        '8'
    } else {
        '9'
    }
}

fn digit_char(d: u64) -> (r: char)
    requires
        d < 10,
    ensures
        r == digit(d as nat),
{
    if d == 0 {
        '0'
    } else if d == 1 {
        '1'
    } else if d == 2 {
        '2'
    } else if d == 3 {
        '3'
    } else if d == 4 {
        '4'
    } else if d == 5 {
        '5'
    } else if d == 6 {
        '6'
    } else if d == 7 {
        '7'
    } else if d == 8 {
        '8'
    } else {
        '9'
    }
}

/// The decimal notation of a number.
pub open spec fn decimal(n: nat) -> Seq<char>
    decreases n,
{
    if n < 10 {
        seq![digit(n)]
    } else {
        decimal(n / 10).push(digit(n % 10))
    }
}

/// Writes a number in decimal.
pub fn to_decimal(n: u64) -> (r: String)
    ensures
        r@ == decimal(n as nat),
    decreases n,
{
    if n < 10 {
        let mut out = String::new();
        out.push(digit_char(n));
        proof {
            assert(out@ == seq![digit(n as nat)]);
        }
        out
    } else {
        let mut out = to_decimal(n / 10);
        out.push(digit_char(n % 10));
        out
    }
}

/// The value of a decimal digit.
pub open spec fn digit_value(c: char) -> nat {
    (c as int - '0' as int) as nat
}

pub open spec fn is_digit(c: char) -> bool {
    '0' <= c <= '9'
}

pub open spec fn all_digits(s: Seq<char>) -> bool {
    forall|i: int| 0 <= i < s.len() ==> is_digit(#[trigger] s[i])
}

/// The number that a run of decimal digits denotes.
pub open spec fn value(s: Seq<char>) -> nat
    decreases s.len(),
{
    if s.len() == 0 {
        0
    } else {
        value(s.drop_last()) * 10 + digit_value(s.last())
    }
}

/// Where a number may carry a plus sign, what follows it.
pub open spec fn unsigned_digits(s: Seq<char>) -> Seq<char> {
    if s.len() > 0 && s[0] == '+' {
        s.skip(1)
    } else {
        s
    }
}

/// The number up to `max` that `s` denotes: decimal digits, at least one, after
/// an optional plus sign.
pub open spec fn parsed(s: Seq<char>, max: nat) -> Option<nat> {
    let d = unsigned_digits(s);
    if d.len() > 0 && all_digits(d) && value(d) <= max {
        Some(value(d))
    } else {
        None
    }
}

/// A longer run of digits denotes no smaller number.
pub proof fn lemma_value_grows(s: Seq<char>, i: int)
    requires
        0 <= i <= s.len(),
    ensures
        value(s.take(i)) <= value(s),
    decreases s.len() - i,
{
    if i < s.len() {
        lemma_value_grows(s, i + 1);
        assert(s.take(i + 1).drop_last() == s.take(i));
    } else {
        assert(s.take(i) == s);
    }
}

/// Reads an unsigned number of at most `max`.
pub fn parse_number(s: &str, max: u32) -> (r: Option<u32>)
    ensures
        match r {
            Some(n) => parsed(s@, max as nat) == Some(n as nat),
            None => parsed(s@, max as nat) is None,
        },
{
    let x = chars_of(s);
    let at: usize = if x.len() > 0 && x[0] == '+' {
        1
    } else {
        0
    };
    let ghost d = unsigned_digits(s@);
    proof {
        assert(d == s@.skip(at as int));
    }
    if at == x.len() {
        return None;
    }
    let mut i: usize = at;
    let mut n: u64 = 0;
    while i < x.len()
        invariant
            x@ == s@,
            d == s@.skip(at as int),
            d == unsigned_digits(s@),
            at <= i <= s@.len(),
            n == value(d.take(i - at)),
            n <= max,
            forall|j: int| 0 <= j < i - at ==> is_digit(#[trigger] d[j]),
        decreases s@.len() - i,
    {
        let c = x[i];
        proof {
            assert(d[i - at] == c);
        }
        if c < '0' || c > '9' {
            return None;
        }
        proof {
            assert(d.take(i - at + 1).drop_last() == d.take(i - at));
            assert(d.take(i - at + 1).last() == c);
        }
        n = n * 10 + ((c as u32 - '0' as u32) as u64);
        if n > max as u64 {
            proof {
                lemma_value_grows(d, i - at + 1);
            }
            return None;
        }
        i = i + 1;
    }
    proof {
        assert(d.take(d.len() as int) == d);
    }
    Some(n as u32)
}

proof fn lemma_digit(d: nat)
    requires
        d < 10,
    ensures
        is_digit(digit(d)),
        digit_value(digit(d)) == d,
{
}

/// What `decimal` writes are digits, and they denote the number it was given.
pub proof fn lemma_decimal_value(n: nat)
    ensures
        decimal(n).len() > 0,
        all_digits(decimal(n)),
        value(decimal(n)) == n,
    decreases n,
{
    if n < 10 {
        lemma_digit(n);
        let s = decimal(n);
        assert(s.drop_last() == Seq::<char>::empty());
        assert(value(s) == value(s.drop_last()) * 10 + digit_value(s.last()));
    } else {
        lemma_decimal_value(n / 10);
        lemma_digit(n % 10);
        assert(decimal(n).drop_last() == decimal(n / 10));
    }
}

/// Reading back a written number gives the number.
pub proof fn decimal_reads_back(n: nat, max: nat)
    requires
        n <= max,
    ensures
        parsed(decimal(n), max) == Some(n),
{
    lemma_decimal_value(n);
    assert(is_digit(decimal(n)[0]));
}

/// Among the ASCII characters white space is the space and what stands between the
/// tab and the carriage return.
pub proof fn ascii_white_space(c: char)
    requires
        c <= '\u{7f}',
    ensures
        is_space(c) <==> c == ' ' || c == '\t' || c == '\n' || c == '\u{b}' || c == '\u{c}' || c
            == '\r',
{
}

/// `t` is what stands in `s` from `a` to `b`, with white space on both sides of it
/// and nothing else.
pub open spec fn inside_white(t: Seq<char>, s: Seq<char>, a: int, b: int) -> bool {
    &&& 0 <= a <= b <= s.len()
    &&& t == s.subrange(a, b)
    &&& forall|k: int| 0 <= k < a ==> is_space(#[trigger] s[k])
    &&& forall|k: int| b <= k < s.len() ==> is_space(#[trigger] s[k])
}

/// `t` is `s` up to white space around it.
pub open spec fn is_core_of(t: Seq<char>, s: Seq<char>) -> bool {
    exists|a: int, b: int| inside_white(t, s, a, b)
}

proof fn lemma_trim_start_cuts(s: Seq<char>) -> (a: int)
    ensures
        0 <= a <= s.len(),
        trim_start(s) == s.skip(a),
        forall|k: int| 0 <= k < a ==> is_space(#[trigger] s[k]),
    decreases s.len(),
{
    if s.len() > 0 && is_space(s[0]) {
        let t = s.skip(1);
        let a = lemma_trim_start_cuts(t);
        assert(t.skip(a) == s.skip(a + 1));
        assert forall|k: int| 0 <= k < a + 1 implies is_space(#[trigger] s[k]) by {
            if k > 0 {
                assert(t[k - 1] == s[k]);
            }
        }
        a + 1
    } else {
        assert(s.skip(0) == s);
        0
    }
}

proof fn lemma_trim_end_cuts(s: Seq<char>) -> (b: int)
    ensures
        0 <= b <= s.len(),
        trim_end(s) == s.take(b),
        forall|k: int| b <= k < s.len() ==> is_space(#[trigger] s[k]),
    decreases s.len(),
{
    if s.len() > 0 && is_space(s.last()) {
        let t = s.drop_last();
        let b = lemma_trim_end_cuts(t);
        assert(t.take(b) == s.take(b));
        assert forall|k: int| b <= k < s.len() implies is_space(#[trigger] s[k]) by {
            if k < t.len() {
                assert(t[k] == s[k]);
            }
        }
        b
    } else {
        assert(s.take(s.len() as int) == s);
        s.len() as int
    }
}

/// Trimming takes the white space at both ends of a text, all of it, and nothing
/// else.
pub proof fn trimming_takes_outer_white_space(s: Seq<char>)
    ensures
        exists|a: int, b: int| inside_white(trimmed(s), s, a, b),
        trimmed(s).len() > 0 ==> !is_space(trimmed(s)[0]) && !is_space(trimmed(s).last()),
        trimmed(s).len() == 0 <==> forall|k: int| 0 <= k < s.len() ==> is_space(#[trigger] s[k]),
{
    let a = lemma_trim_start_cuts(s);
    let t = s.skip(a);
    let n = lemma_trim_end_cuts(t);
    assert(t.take(n) == s.subrange(a, a + n));
    assert forall|k: int| a + n <= k < s.len() implies is_space(#[trigger] s[k]) by {
        assert(t[k - a] == s[k]);
    }
    assert(inside_white(trimmed(s), s, a, a + n));
    lemma_trim_start_len(s);
    lemma_trim_end_stops(t);
    if trimmed(s).len() > 0 {
        assert(trimmed(s)[0] == t[0]);
        assert(!is_space(s[a]));
    }
}

/// Cutting a leading run of a character takes the whole run and nothing else.
pub proof fn leading_run_is_cut(s: Seq<char>, c: char)
    ensures
        trim_start_char(s, c).is_suffix_of(s),
        trim_start_char(s, c).len() > 0 ==> trim_start_char(s, c)[0] != c,
        forall|k: int| 0 <= k < s.len() - trim_start_char(s, c).len() ==> #[trigger] s[k] == c,
    decreases s.len(),
{
    if s.len() > 0 && s[0] == c {
        let t = s.skip(1);
        leading_run_is_cut(t, c);
        assert forall|k: int| 0 <= k < s.len() - trim_start_char(s, c).len() implies #[trigger] s[k]
            == c by {
            if k > 0 {
                assert(t[k - 1] == s[k]);
            }
        }
    }
}

/// Cutting a trailing run of a character takes the whole run and nothing else.
pub proof fn trailing_run_is_cut(s: Seq<char>, c: char)
    ensures
        trim_end_char(s, c).is_prefix_of(s),
        trim_end_char(s, c).len() > 0 ==> trim_end_char(s, c).last() != c,
        forall|k: int| trim_end_char(s, c).len() <= k < s.len() ==> #[trigger] s[k] == c,
    decreases s.len(),
{
    if s.len() > 0 && s.last() == c {
        let t = s.drop_last();
        trailing_run_is_cut(t, c);
        assert forall|k: int| trim_end_char(s, c).len() <= k < s.len() implies #[trigger] s[k] == c by {
            if k < t.len() {
                assert(t[k] == s[k]);
            }
        }
    }
}

/// The two sides of the first occurrence make the text up again around it, and
/// the left one holds no other; where there are no sides there is no occurrence.
pub proof fn first_cut_joins_back(s: Seq<char>, c: char)
    ensures
        match split_once(s, c) {
            Some((a, b)) => s == a.push(c) + b && !a.contains(c),
            None => !s.contains(c),
        },
        before_char(s, c).is_prefix_of(s) && !before_char(s, c).contains(c),
        !s.contains(c) ==> before_char(s, c) == s,
{
    lemma_find_char_bounds(s, c);
    let i = find_char(s, c);
    if i < s.len() {
        assert(s == s.take(i).push(c) + s.skip(i + 1));
    }
}

/// The two sides of the last occurrence make the text up again around it, and the
/// right one holds no other; where there are no sides there is no occurrence.
pub proof fn last_cut_joins_back(s: Seq<char>, c: char)
    ensures
        match rsplit_once(s, c) {
            Some((a, b)) => s == a.push(c) + b && !b.contains(c),
            None => !s.contains(c),
        },
{
    lemma_rfind_char_bounds(s, c);
    let i = rfind_char(s, c);
    if i >= 0 {
        assert(s == s.take(i).push(c) + s.skip(i + 1));
        let b = s.skip(i + 1);
        assert forall|k: int| 0 <= k < b.len() implies #[trigger] b[k] != c by {
            assert(s[k + i + 1] != c);
        }
    }
}

/// The fields of a list with `c` between them.
pub open spec fn joined(parts: Seq<Seq<char>>, c: char) -> Seq<char>
    decreases parts.len(),
{
    if parts.len() == 0 {
        seq![]
    } else if parts.len() == 1 {
        parts[0]
    } else {
        parts[0].push(c) + joined(parts.skip(1), c)
    }
}

/// The fields of a text make it up again, and none holds the separator.
pub proof fn fields_join_back(s: Seq<char>, c: char)
    ensures
        split(s, c).len() > 0,
        joined(split(s, c), c) == s,
        forall|i: int| 0 <= i < split(s, c).len() ==> !(#[trigger] split(s, c)[i]).contains(c),
    decreases s.len(),
{
    lemma_find_char_bounds(s, c);
    let i = find_char(s, c);
    let p = split(s, c);
    if i < s.len() {
        let rest = split(s.skip(i + 1), c);
        fields_join_back(s.skip(i + 1), c);
        assert(p.skip(1) == rest);
        assert(s == s.take(i).push(c) + s.skip(i + 1));
        assert forall|k: int| 0 <= k < p.len() implies !(#[trigger] p[k]).contains(c) by {
            if k > 0 {
                assert(p[k] == rest[k - 1]);
            }
        }
    }
}

/// Replacing goes character by character: the wanted one gives way, every other
/// stays, in order.
pub proof fn replacing_goes_by_character(a: Seq<char>, b: Seq<char>, x: char, c: char, with: Seq<char>)
    ensures
        replaced(a + b, c, with) == replaced(a, c, with) + replaced(b, c, with),
        replaced(seq![c], c, with) == with,
        x != c ==> replaced(seq![x], c, with) == seq![x],
    decreases b.len(),
{
    let none = Seq::<char>::empty();
    assert(seq![c].drop_last() == none);
    assert(seq![x].drop_last() == none);
    assert(replaced(none, c, with) == none);
    assert(none + with == with);
    assert(none + seq![x] == seq![x]);
    if b.len() > 0 {
        assert((a + b).drop_last() == a + b.drop_last());
        replacing_goes_by_character(a, b.drop_last(), x, c, with);
    } else {
        assert(a + b == a);
    }
}

/// A cut text is a beginning of the text, or an end of it, and is as long as it
/// may be.
pub proof fn cut_texts_are_ends(s: Seq<char>, max: nat)
    ensures
        prefix(s, max).is_prefix_of(s),
        suffix(s, max).is_suffix_of(s),
        prefix(s, max).len() == if s.len() <= max {
            s.len()
        } else {
            max
        },
        suffix(s, max).len() == prefix(s, max).len(),
{
}

/// Whatever reads as a number consists of digits, after a plus sign at most, and
/// stays within the limit.
pub proof fn numbers_are_digits(s: Seq<char>, max: nat, n: nat)
    requires
        parsed(s, max) == Some(n),
    ensures
        n <= max,
        s.len() > 0,
        forall|i: int| 0 < i < s.len() ==> '0' <= #[trigger] s[i] <= '9',
        '0' <= s[0] <= '9' || (s[0] == '+' && s.len() > 1),
{
    let d = unsigned_digits(s);
    assert forall|i: int| 0 < i < s.len() implies '0' <= #[trigger] s[i] <= '9' by {
        if s[0] == '+' {
            assert(is_digit(d[i - 1]));
        } else {
            assert(is_digit(d[i]));
        }
    }
    if s[0] != '+' {
        assert(is_digit(d[0]));
    }
}

/// A text that neither begins nor ends in white space is what trimming leaves of
/// it with white space around.
pub proof fn lemma_white_core(t: Seq<char>, s: Seq<char>, a: int, b: int)
    requires
        inside_white(t, s, a, b),
        t.len() > 0,
        !is_space(t[0]),
        !is_space(t.last()),
    ensures
        trimmed(s) == t,
{
    trimming_takes_outer_white_space(s);
    let (x, y) = choose|x: int, y: int| inside_white(trimmed(s), s, x, y);
    assert(t[0] == s[a]);
    assert(t.last() == s[b - 1]);
    assert(!is_space(s[a]) && !is_space(s[b - 1]));
    if x > a {
        assert(is_space(s[a]));
    }
    if y < b {
        assert(is_space(s[b - 1]));
    }
    assert(trimmed(s)[0] == s[x]);
    assert(trimmed(s).last() == s[y - 1]);
    if x < a {
        assert(is_space(s[x]));
    }
    if y > b {
        assert(is_space(s[y - 1]));
    }
}

/// The fields of two texts with the separator between them are those of the one,
/// then those of the other; a text without the separator is its only field.
pub proof fn fields_go_text_by_text(a: Seq<char>, b: Seq<char>, c: char)
    ensures
        split(a.push(c) + b, c) == split(a, c) + split(b, c),
        !a.contains(c) ==> split(a, c) == seq![a],
    decreases a.len(),
{
    let s = a.push(c) + b;
    lemma_find_char_bounds(a, c);
    let i = find_char(a, c);
    assert forall|j: int| 0 <= j < i implies s[j] != c by {
        assert(s[j] == a[j]);
    }
    assert(s[i] == c);
    lemma_find_char(s, c, i);
    assert(s.take(i) == a.take(i));
    if i < a.len() {
        assert(a.contains(a[i]));
        fields_go_text_by_text(a.skip(i + 1), b, c);
        assert(s.skip(i + 1) == a.skip(i + 1).push(c) + b);
        assert(seq![a.take(i)] + (split(a.skip(i + 1), c) + split(b, c)) == (seq![a.take(i)] + split(
            a.skip(i + 1),
            c,
        )) + split(b, c));
    } else {
        assert(s.skip(i + 1) == b);
        assert(a.take(i) == a);
    }
}

proof fn lemma_word_len(w: Seq<char>, rest: Seq<char>)
    requires
        forall|i: int| 0 <= i < w.len() ==> !is_space(#[trigger] w[i]),
        rest.len() == 0 || is_space(rest[0]),
    ensures
        word_len(w + rest) == w.len(),
    decreases w.len(),
{
    let s = w + rest;
    if w.len() > 0 {
        assert(!is_space(w[0]));
        let t = w.skip(1);
        assert forall|i: int| 0 <= i < t.len() implies !is_space(#[trigger] t[i]) by {
            assert(t[i] == w[i + 1]);
        }
        lemma_word_len(t, rest);
        assert(s.skip(1) == t + rest);
    } else {
        assert(s == rest);
    }
}

/// A word with white space behind it is the first word, and the words of the rest
/// follow; white space in front counts for nothing.
pub proof fn words_come_one_by_one(w: Seq<char>, c: char, rest: Seq<char>)
    requires
        w.len() > 0,
        forall|i: int| 0 <= i < w.len() ==> !is_space(#[trigger] w[i]),
        is_space(c),
    ensures
        split_words(w.push(c) + rest) == seq![w] + split_words(rest),
        split_words(w) == seq![w],
        split_words(seq![c] + rest) == split_words(rest),
{
    assert(!is_space(w[0]));
    let s = w.push(c) + rest;
    let tail = seq![c] + rest;
    assert(tail.skip(1) == rest);
    assert(trim_start(tail) == trim_start(rest));
    assert(split_words(tail) == split_words(rest));
    assert(s == w + tail);
    lemma_word_len(w, tail);
    assert(trim_start(s) == s);
    assert(s.take(w.len() as int) == w);
    assert(s.skip(w.len() as int) == tail);
    let none = Seq::<char>::empty();
    assert(w == w + none);
    lemma_word_len(w, none);
    assert(trim_start(w) == w);
    assert(w.take(w.len() as int) == w);
    assert(w.skip(w.len() as int) == none);
    assert(split_words(none) == Seq::<Seq<char>>::empty());
    assert(seq![w] + Seq::<Seq<char>>::empty() == seq![w]);
}

/// The first place where `p` stands in `s` is the one that is found.
pub proof fn first_occurrence_is_found(s: Seq<char>, p: Seq<char>, i: int)
    requires
        0 <= i,
        i + p.len() <= s.len(),
        s.subrange(i, i + p.len()) == p,
        forall|j: int| 0 <= j < i ==> #[trigger] s.subrange(j, j + p.len()) != p,
    ensures
        find_str(s, p) == i,
    decreases s.len(),
{
    if i > 0 {
        assert(s.subrange(0, 0 + p.len() as int) != p);
        let t = s.skip(1);
        assert(t.subrange(i - 1, i - 1 + p.len()) == s.subrange(i, i + p.len()));
        assert forall|j: int| 0 <= j < i - 1 implies #[trigger] t.subrange(j, j + p.len()) != p by {
            assert(t.subrange(j, j + p.len()) == s.subrange(j + 1, j + 1 + p.len()));
        }
        first_occurrence_is_found(t, p, i - 1);
    }
}

/// What is searched for is found exactly where it stands somewhere in the text.
pub proof fn occurrences_are_found(s: Seq<char>, p: Seq<char>)
    ensures
        find_str(s, p) >= 0 <==> exists|i: int|
            0 <= i <= s.len() - p.len() && #[trigger] s.subrange(i, i + p.len()) == p,
{
    lemma_find_str_bounds(s, p);
    if find_str(s, p) >= 0 {
        let i = find_str(s, p);
        assert(s.subrange(i, i + p.len()) == p);
    }
    if exists|i: int| 0 <= i <= s.len() - p.len() && #[trigger] s.subrange(i, i + p.len()) == p {
        let i = choose|i: int| 0 <= i <= s.len() - p.len() && #[trigger] s.subrange(i, i + p.len()) == p;
        if find_str(s, p) < 0 {
            lemma_find_str_none(s, p, i);
        }
    }
}

/// What follows a beginning makes the text up with it; without the beginning there
/// is nothing that follows.
pub proof fn beginnings_are_cut_off(s: Seq<char>, p: Seq<char>)
    ensures
        match after_prefix(s, p) {
            Some(rest) => s == p + rest,
            None => !p.is_prefix_of(s),
        },
        match split_once_str(s, p) {
            Some((a, b)) => s == a + p + b,
            None => find_str(s, p) < 0,
        },
        !p.is_prefix_of(s) ==> trim_start_str(s, p) == s,
        p.len() > 0 ==> trim_start_str(p + s, p) == trim_start_str(s, p),
{
    lemma_find_str_bounds(s, p);
    let i = find_str(s, p);
    if i >= 0 {
        assert(s =~= s.take(i) + p + s.skip(i + p.len()));
    }
    if p.is_prefix_of(s) {
        assert(s =~= p + s.skip(p.len() as int));
    }
    let t = p + s;
    assert(p =~= t.subrange(0, p.len() as int));
    assert(t.skip(p.len() as int) =~= s);
}

} // verus!

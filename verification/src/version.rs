//! Dotted version numbers: which text is one, and which of two is newer.
use vstd::prelude::*;

use crate::text::{fields, parse_number, trim};

verus! {

broadcast use vstd::string::group_string_axioms;

/// Oldest kimi CLI paired with the official web bundle shipped by this build.
pub const MIN_KIMI_VERSION: &'static str = "0.39.1";

/// The fields of a version that are numbers, in order.
pub open spec fn numbers(parts: Seq<Seq<char>>) -> Seq<nat>
    decreases parts.len(),
{
    if parts.len() == 0 {
        seq![]
    } else {
        match crate::text::parsed(parts.last(), u32::MAX as nat) {
            Some(n) => numbers(parts.drop_last()).push(n),
            None => numbers(parts.drop_last()),
        }
    }
}

/// What a version is compared by: the numbers between its dots.
pub open spec fn version_key(v: Seq<char>) -> Seq<nat> {
    numbers(crate::text::split(v, '.'))
}

/// `a` comes before `b`: they differ first in a smaller number, or `b` goes on
/// where `a` ends.
pub open spec fn precedes(a: Seq<nat>, b: Seq<nat>) -> bool
    decreases a.len(),
{
    if b.len() == 0 {
        false
    } else if a.len() == 0 {
        true
    } else if a[0] == b[0] {
        precedes(a.skip(1), b.skip(1))
    } else {
        a[0] < b[0]
    }
}

/// `older` is a version before `newer`.
pub open spec fn older_than(older: Seq<char>, newer: Seq<char>) -> bool {
    precedes(version_key(older), version_key(newer))
}

fn key_of(v: &str) -> (r: Vec<u32>)
    ensures
        r@.len() == version_key(v@).len(),
        forall|i: int| 0 <= i < r@.len() ==> r@[i] == #[trigger] version_key(v@)[i],
{
    let parts = fields(v, '.');
    let mut out: Vec<u32> = Vec::new();
    let mut i: usize = 0;
    let ghost views = crate::text::views(parts@);
    while i < parts.len()
        invariant
            views == crate::text::views(parts@),
            i <= parts@.len(),
            out@.len() == numbers(views.take(i as int)).len(),
            forall|k: int|
                0 <= k < out@.len() ==> out@[k] == #[trigger] numbers(views.take(i as int))[k],
        decreases parts@.len() - i,
    {
        proof {
            assert(views.take(i + 1).drop_last() == views.take(i as int));
            assert(views.take(i + 1).last() == parts@[i as int]@);
        }
        match parse_number(parts[i].as_str(), u32::MAX) {
            Some(n) => {
                out.push(n);
            },
            None => {},
        }
        i = i + 1;
    }
    proof {
        assert(views.take(views.len() as int) == views);
    }
    out
}

/// `latest` is a newer version than `current`.
pub fn version_newer(latest: &str, current: &str) -> (r: bool)
    ensures
        r == older_than(current@, latest@),
{
    let a = key_of(current);
    let b = key_of(latest);
    let ghost ka = version_key(current@);
    let ghost kb = version_key(latest@);
    let mut i: usize = 0;
    proof {
        assert(ka.skip(0) == ka && kb.skip(0) == kb);
    }
    while i < a.len() && i < b.len()
        invariant
            i <= a@.len(),
            i <= b@.len(),
            a@.len() == ka.len(),
            b@.len() == kb.len(),
            forall|k: int| 0 <= k < a@.len() ==> a@[k] == #[trigger] ka[k],
            forall|k: int| 0 <= k < b@.len() ==> b@[k] == #[trigger] kb[k],
            precedes(ka, kb) == precedes(ka.skip(i as int), kb.skip(i as int)),
            ka == version_key(current@),
            kb == version_key(latest@),
        decreases a@.len() - i,
    {
        proof {
            assert(ka.skip(i as int)[0] == ka[i as int]);
            assert(kb.skip(i as int)[0] == kb[i as int]);
            assert(ka.skip(i as int).skip(1) == ka.skip(i + 1));
            assert(kb.skip(i as int).skip(1) == kb.skip(i + 1));
        }
        if a[i] != b[i] {
            return a[i] < b[i];
        }
        i = i + 1;
    }
    i < b.len()
}

/// `v` is an older version than `min`; an equal one is not.
pub fn version_older(v: &str, min: &str) -> (r: bool)
    ensures
        r == older_than(v@, min@),
{
    version_newer(min, v)
}

/// A bare version: decimal digits in fields between dots, none of them empty.
pub open spec fn is_bare_version(v: Seq<char>) -> bool {
    forall|i: int|
        0 <= i < crate::text::split(v, '.').len() ==> {
            let part = #[trigger] crate::text::split(v, '.')[i];
            part.len() > 0 && crate::text::all_digits(part)
        }
}

/// The bare version that a program printed, and nothing fancier.
pub open spec fn printed_version(stdout: Seq<char>) -> Option<Seq<char>> {
    if is_bare_version(crate::text::trimmed(stdout)) {
        Some(crate::text::trimmed(stdout))
    } else {
        None
    }
}

fn only_digits(s: &str) -> (r: bool)
    ensures
        r == (s@.len() > 0 && crate::text::all_digits(s@)),
{
    let x = crate::text::chars_of(s);
    let mut i: usize = 0;
    while i < x.len()
        invariant
            x@ == s@,
            i <= s@.len(),
            forall|j: int| 0 <= j < i ==> crate::text::is_digit(#[trigger] s@[j]),
        decreases s@.len() - i,
    {
        if x[i] < '0' || x[i] > '9' {
            proof {
                assert(!crate::text::is_digit(s@[i as int]));
            }
            return false;
        }
        i = i + 1;
    }
    x.len() > 0
}

/// Reads a bare version from `--version` output; rejects anything fancier.
pub fn parse_kimi_version(stdout: &str) -> (r: Option<String>)
    ensures
        match r {
            Some(v) => printed_version(stdout@) == Some(v@),
            None => printed_version(stdout@) is None,
        },
{
    let v = trim(stdout);
    let parts = fields(v.as_str(), '.');
    let ghost spec_parts = crate::text::split(v@, '.');
    proof {
        assert(spec_parts == crate::text::views(parts@));
    }
    let mut i: usize = 0;
    while i < parts.len()
        invariant
            v@ == crate::text::trimmed(stdout@),
            spec_parts == crate::text::split(v@, '.'),
            spec_parts == crate::text::views(parts@),
            i <= parts@.len(),
            forall|j: int|
                0 <= j < i ==> (#[trigger] spec_parts[j]).len() > 0 && crate::text::all_digits(
                    spec_parts[j],
                ),
        decreases parts@.len() - i,
    {
        proof {
            assert(spec_parts[i as int] == parts@[i as int]@);
        }
        if !only_digits(parts[i].as_str()) {
            return None;
        }
        i = i + 1;
    }
    Some(v)
}

/// The version that `kimi --version` reports, where it ran and succeeded.
pub fn cli_version(success: bool, stdout: &[u8]) -> (r: Option<String>)
    ensures
        crate::web::opt_text(r) == if success {
            printed_version(crate::http::utf8_lossy(stdout@))
        } else {
            None
        },
{
    if success {
        parse_kimi_version(crate::http::decode_lossy(stdout).as_str())
    } else {
        None
    }
}

/// A daemon is stale where both versions are known, a number can be read from
/// each, and its own is the older one.
pub open spec fn is_stale(host_version: Option<Seq<char>>, cli_version: Option<Seq<char>>) -> bool {
    match (host_version, cli_version) {
        (Some(d), Some(c)) => version_key(d).len() > 0 && version_key(c).len() > 0 && older_than(
            d,
            c,
        ),
        _ => false,
    }
}

/// The view of an optional text.
pub open spec fn opt_view(s: Option<&str>) -> Option<Seq<char>> {
    match s {
        Some(s) => Some(s@),
        None => None,
    }
}

fn has_number(v: &str) -> (r: bool)
    ensures
        r == (version_key(v@).len() > 0),
{
    key_of(v).len() > 0
}

/// A daemon is stale when we positively know both versions and the daemon's
/// `host_version` is older than the installed CLI. With a version unknown, or
/// without a number in it, it is not: only a proven downgrade counts.
pub fn daemon_stale(host_version: Option<&str>, cli_version: Option<&str>) -> (r: bool)
    ensures
        r == is_stale(opt_view(host_version), opt_view(cli_version)),
{
    match (host_version, cli_version) {
        (Some(d), Some(c)) => has_number(d) && has_number(c) && version_older(d, c),
        _ => false,
    }
}

/// No key precedes itself.
pub proof fn lemma_precedes_irreflexive(a: Seq<nat>)
    ensures
        !precedes(a, a),
    decreases a.len(),
{
    if a.len() > 0 {
        lemma_precedes_irreflexive(a.skip(1));
    }
}

/// `precedes` is transitive.
pub proof fn lemma_precedes_transitive(a: Seq<nat>, b: Seq<nat>, c: Seq<nat>)
    requires
        precedes(a, b),
        precedes(b, c),
    ensures
        precedes(a, c),
    decreases a.len(),
{
    if a.len() > 0 && b.len() > 0 && c.len() > 0 {
        if a[0] == b[0] && b[0] == c[0] {
            lemma_precedes_transitive(a.skip(1), b.skip(1), c.skip(1));
        }
    }
}

/// Of two different keys one precedes the other.
pub proof fn lemma_precedes_total(a: Seq<nat>, b: Seq<nat>)
    requires
        a != b,
    ensures
        precedes(a, b) || precedes(b, a),
    decreases a.len(),
{
    if a.len() > 0 && b.len() > 0 && a[0] == b[0] {
        if a.skip(1) == b.skip(1) {
            assert(a =~= b) by {
                assert(a.len() == a.skip(1).len() + 1);
                assert(b.len() == b.skip(1).len() + 1);
                assert forall|i: int| 0 <= i < a.len() implies a[i] == b[i] by {
                    if i > 0 {
                        assert(a[i] == a.skip(1)[i - 1]);
                        assert(b[i] == b.skip(1)[i - 1]);
                    }
                }
            }
        }
        lemma_precedes_total(a.skip(1), b.skip(1));
    } else if a.len() == 0 && b.len() == 0 {
        assert(a =~= b);
    }
}

/// No version is older than itself.
pub proof fn equal_is_not_older(v: Seq<char>)
    ensures
        !older_than(v, v),
{
    lemma_precedes_irreflexive(version_key(v));
}

/// An older version of an older version is an older version.
pub proof fn older_is_transitive(a: Seq<char>, b: Seq<char>, c: Seq<char>)
    requires
        older_than(a, b),
        older_than(b, c),
    ensures
        older_than(a, c),
{
    lemma_precedes_transitive(version_key(a), version_key(b), version_key(c));
}

/// Two versions with different numbers are in one order, and only in one.
pub proof fn older_is_total(a: Seq<char>, b: Seq<char>)
    requires
        version_key(a) != version_key(b),
    ensures
        older_than(a, b) != older_than(b, a),
{
    lemma_precedes_total(version_key(a), version_key(b));
    if older_than(a, b) && older_than(b, a) {
        lemma_precedes_transitive(version_key(a), version_key(b), version_key(a));
        lemma_precedes_irreflexive(version_key(a));
    }
}

/// Only a proven downgrade makes a daemon stale: not equal versions, not a
/// missing one, and not one that no number can be read from, on either side.
pub proof fn stale_needs_proof(v: Seq<char>, other: Option<Seq<char>>)
    ensures
        !is_stale(Some(v), Some(v)),
        !is_stale(None, other),
        !is_stale(other, None),
        version_key(v).len() == 0 ==> !is_stale(Some(v), other),
        version_key(v).len() == 0 ==> !is_stale(other, Some(v)),
{
    equal_is_not_older(v);
}

/// Between versions with numbers in them the older one is stale, be there more in
/// it than numbers or not.
pub proof fn older_numbers_are_stale(d: Seq<char>, c: Seq<char>)
    requires
        version_key(d).len() > 0,
    ensures
        is_stale(Some(d), Some(c)) == precedes(version_key(d), version_key(c)),
{
}

/// A version written with numbers between dots.
pub open spec fn dotted(ns: Seq<nat>) -> Seq<char> {
    crate::text::joined(ns.map_values(|n: nat| crate::text::decimal(n)), '.')
}

proof fn lemma_fields_of_joined(parts: Seq<Seq<char>>)
    requires
        parts.len() > 0,
        forall|i: int| 0 <= i < parts.len() ==> !(#[trigger] parts[i]).contains('.'),
    ensures
        crate::text::split(crate::text::joined(parts, '.'), '.') == parts,
    decreases parts.len(),
{
    let s = crate::text::joined(parts, '.');
    let n = parts[0].len() as int;
    assert(!parts[0].contains('.'));
    assert forall|j: int| 0 <= j < n implies s[j] != '.' by {
        assert(parts[0].contains(parts[0][j]));
        assert(s[j] == parts[0][j]);
    }
    crate::text::lemma_find_char(s, '.', n);
    if parts.len() > 1 {
        let rest = parts.skip(1);
        assert forall|i: int| 0 <= i < rest.len() implies !(#[trigger] rest[i]).contains('.') by {
            assert(rest[i] == parts[i + 1]);
        }
        lemma_fields_of_joined(rest);
        assert(s.take(n) == parts[0]);
        assert(s.skip(n + 1) == crate::text::joined(rest, '.'));
        assert(seq![parts[0]] + rest == parts);
    } else {
        assert(seq![parts[0]] == parts);
    }
}

proof fn lemma_numbers(parts: Seq<Seq<char>>, ns: Seq<nat>)
    requires
        parts.len() == ns.len(),
        forall|i: int|
            0 <= i < parts.len() ==> crate::text::parsed(#[trigger] parts[i], u32::MAX as nat) == Some(
                ns[i],
            ),
    ensures
        numbers(parts) == ns,
    decreases parts.len(),
{
    if parts.len() > 0 {
        let p = parts.drop_last();
        let m = ns.drop_last();
        assert forall|i: int| 0 <= i < p.len() implies crate::text::parsed(
            #[trigger] p[i],
            u32::MAX as nat,
        ) == Some(m[i]) by {
            assert(p[i] == parts[i]);
        }
        lemma_numbers(p, m);
        assert(parts.last() == parts[parts.len() - 1]);
        assert(m.push(ns.last()) == ns);
    } else {
        assert(ns =~= Seq::<nat>::empty());
    }
}

/// A version written with numbers between dots is compared by these numbers, all
/// of them and in order.
pub proof fn dotted_versions_are_their_numbers(ns: Seq<nat>)
    requires
        ns.len() > 0,
        forall|i: int| 0 <= i < ns.len() ==> #[trigger] ns[i] <= u32::MAX,
    ensures
        version_key(dotted(ns)) == ns,
{
    let parts = ns.map_values(|n: nat| crate::text::decimal(n));
    assert forall|i: int| 0 <= i < parts.len() implies !(#[trigger] parts[i]).contains('.')
        && crate::text::parsed(parts[i], u32::MAX as nat) == Some(ns[i]) by {
        assert(ns[i] <= u32::MAX);
        crate::text::lemma_decimal_value(ns[i]);
        crate::text::decimal_reads_back(ns[i], u32::MAX as nat);
        assert forall|k: int| 0 <= k < parts[i].len() implies parts[i][k] != '.' by {
            assert(crate::text::is_digit(parts[i][k]));
        }
    }
    lemma_fields_of_joined(parts);
    lemma_numbers(parts, ns);
}

/// `a` and `b` agree before position `i`, where `b` has the greater number or `a`
/// has ended.
pub open spec fn differ_first_at(a: Seq<nat>, b: Seq<nat>, i: int) -> bool {
    &&& 0 <= i <= a.len()
    &&& i < b.len()
    &&& forall|k: int| 0 <= k < i ==> a[k] == b[k]
    &&& i < a.len() ==> a[i] < b[i]
}

/// One version is older than another where the first number in which they differ
/// is smaller, or where the other goes on behind an equal beginning.
pub proof fn first_difference_decides(a: Seq<nat>, b: Seq<nat>)
    ensures
        precedes(a, b) <==> exists|i: int| differ_first_at(a, b, i),
    decreases a.len(),
{
    if b.len() > 0 && a.len() > 0 && a[0] == b[0] {
        let x = a.skip(1);
        let y = b.skip(1);
        first_difference_decides(x, y);
        if precedes(a, b) {
            let i = choose|i: int| differ_first_at(x, y, i);
            assert forall|k: int| 0 <= k < i + 1 implies a[k] == b[k] by {
                if k > 0 {
                    assert(x[k - 1] == y[k - 1]);
                }
            }
            assert(differ_first_at(a, b, i + 1));
        }
        if exists|i: int| differ_first_at(a, b, i) {
            let i = choose|i: int| differ_first_at(a, b, i);
            assert forall|k: int| 0 <= k < i - 1 implies x[k] == y[k] by {
                assert(a[k + 1] == b[k + 1]);
            }
            assert(differ_first_at(x, y, i - 1));
        }
    } else {
        if precedes(a, b) {
            assert(differ_first_at(a, b, 0));
        }
        if exists|i: int| differ_first_at(a, b, i) {
            let i = choose|i: int| differ_first_at(a, b, i);
            if i > 0 {
                assert(a[0] == b[0]);
            }
        }
    }
}

/// A daemon whose written version is older than the CLI's by the first number in
/// which they differ is stale, and one that is not is not.
pub proof fn staleness_goes_by_the_first_difference(d: Seq<nat>, c: Seq<nat>)
    requires
        d.len() > 0,
        c.len() > 0,
        forall|i: int| 0 <= i < d.len() ==> #[trigger] d[i] <= u32::MAX,
        forall|i: int| 0 <= i < c.len() ==> #[trigger] c[i] <= u32::MAX,
    ensures
        is_stale(Some(dotted(d)), Some(dotted(c))) <==> exists|i: int| differ_first_at(d, c, i),
{
    dotted_versions_are_their_numbers(d);
    dotted_versions_are_their_numbers(c);
    first_difference_decides(d, c);
}

/// What a program prints is taken for its version where it is digits with single
/// dots between them and white space around at most, without the white space;
/// nothing else is.
pub proof fn printed_versions_are_digits_and_dots(stdout: Seq<char>, i: int)
    ensures
        match printed_version(stdout) {
            Some(v) => {
                &&& v.len() > 0
                &&& exists|a: int, b: int| crate::text::inside_white(v, stdout, a, b)
                &&& 0 <= i < v.len() ==> v[i] == '.' || '0' <= v[i] <= '9'
                &&& v[0] != '.'
                &&& 0 <= i < v.len() && v[i] == '.' ==> i + 1 < v.len() && v[i + 1] != '.'
            },
            None => true,
        },
{
    let v = crate::text::trimmed(stdout);
    crate::text::trimming_takes_outer_white_space(stdout);
    if is_bare_version(v) {
        crate::text::fields_join_back(v, '.');
        let parts = crate::text::split(v, '.');
        assert forall|k: int| 0 <= k < parts.len() implies (#[trigger] parts[k]).len() > 0
            && crate::text::all_digits(parts[k]) by {}
        lemma_joined_digits(parts);
    }
}

proof fn lemma_joined_digits(parts: Seq<Seq<char>>)
    requires
        parts.len() > 0,
        forall|k: int|
            0 <= k < parts.len() ==> (#[trigger] parts[k]).len() > 0 && crate::text::all_digits(
                parts[k],
            ),
    ensures
        crate::text::joined(parts, '.').len() > 0,
        forall|i: int|
            0 <= i < crate::text::joined(parts, '.').len() ==> #[trigger] crate::text::joined(
                parts,
                '.',
            )[i] == '.' || '0' <= crate::text::joined(parts, '.')[i] <= '9',
        crate::text::joined(parts, '.')[0] != '.',
        forall|i: int|
            0 <= i < crate::text::joined(parts, '.').len() && #[trigger] crate::text::joined(
                parts,
                '.',
            )[i] == '.' ==> i + 1 < crate::text::joined(parts, '.').len() && crate::text::joined(
                parts,
                '.',
            )[i + 1] != '.',
    decreases parts.len(),
{
    let s = crate::text::joined(parts, '.');
    let first = parts[0];
    assert(first.len() > 0 && crate::text::all_digits(first));
    let rest = parts.skip(1);
    if parts.len() > 1 {
        assert forall|k: int| 0 <= k < rest.len() implies (#[trigger] rest[k]).len() > 0
            && crate::text::all_digits(rest[k]) by {
            assert(rest[k] == parts[k + 1]);
        }
        lemma_joined_digits(rest);
    }
    assert forall|i: int| 0 <= i < s.len() implies #[trigger] s[i] == '.' || '0' <= s[i] <= '9' by {
        if i < first.len() {
            assert(crate::text::is_digit(first[i]));
            assert(s[i] == first[i]);
        } else if i > first.len() {
            assert(s[i] == crate::text::joined(rest, '.')[i - first.len() - 1]);
        }
    }
    assert(crate::text::is_digit(first[0]));
    assert(s[0] == first[0]);
    assert forall|i: int| 0 <= i < s.len() && #[trigger] s[i] == '.' implies i + 1 < s.len() && s[i + 1]
        != '.' by {
        let n = first.len() as int;
        if i < n {
            assert(crate::text::is_digit(first[i]));
        } else if i == n {
            assert(s[i + 1] == crate::text::joined(rest, '.')[0]);
        } else {
            assert(s[i] == crate::text::joined(rest, '.')[i - n - 1]);
            assert(s[i + 1] == crate::text::joined(rest, '.')[i - n]);
        }
    }
}

/// A version of numbers and dots is read from what a program prints, whatever
/// white space stands around it.
pub proof fn printed_version_is_read(ns: Seq<nat>, stdout: Seq<char>, a: int, b: int)
    requires
        ns.len() > 0,
        crate::text::inside_white(dotted(ns), stdout, a, b),
    ensures
        printed_version(stdout) == Some(dotted(ns)),
{
    let parts = ns.map_values(|n: nat| crate::text::decimal(n));
    assert forall|i: int| 0 <= i < parts.len() implies (#[trigger] parts[i]).len() > 0
        && crate::text::all_digits(parts[i]) && !parts[i].contains('.') by {
        crate::text::lemma_decimal_value(ns[i]);
        assert forall|k: int| 0 <= k < parts[i].len() implies parts[i][k] != '.' by {
            assert(crate::text::is_digit(parts[i][k]));
        }
    }
    lemma_fields_of_joined(parts);
    lemma_joined_digits(parts);
    let v = dotted(ns);
    let n = v.len() as int;
    assert(v[0] == '.' || '0' <= v[0] <= '9');
    assert(v[n - 1] == '.' || '0' <= v[n - 1] <= '9');
    crate::text::lemma_white_core(v, stdout, a, b);
}

/// An optional text is viewed as the text, or as none.
pub proof fn optional_texts_are_viewed_as_they_are(s: &str)
    ensures
        opt_view(Some(s)) == Some(s@),
        opt_view(None) is None,
{
}

} // verus!

//! Where a download goes: a file name under ~/Downloads that is not taken.
use vstd::prelude::*;

use crate::text::{
    cut_at_last, decimal, has_char, is_digit, lemma_decimal_value, lemma_rfind_char_bounds, owned,
    rfind_char, rsplit_once, to_decimal, value,
};
use crate::web::{slash_free, WebUrl};

verus! {

broadcast use vstd::string::group_string_axioms;

/// The file name for the last segment of a URL's path.
pub open spec fn download_name(segment: Option<Seq<char>>) -> Seq<char> {
    match segment {
        Some(s) => if s.len() > 0 && !s.contains(':') {
            s
        } else {
            "download.bin"@
        },
        None => "download.bin"@,
    }
}

/// The name for the `n`th copy: "name (n).ext"; the plain name for none.
pub open spec fn copy_name(name: Seq<char>, n: nat) -> Seq<char> {
    if n == 0 {
        name
    } else {
        match rsplit_once(name, '.') {
            Some((stem, ext)) => stem + " ("@ + decimal(n) + ")."@ + ext,
            None => name + " ("@ + decimal(n) + ")"@,
        }
    }
}

fn copy_text(name: &str, n: u64) -> (r: String)
    ensures
        r@ == copy_name(name@, n as nat),
{
    if n == 0 {
        return owned(name);
    }
    match cut_at_last(name, '.') {
        Some((stem, ext)) => {
            let mut out = stem;
            out.append(" (");
            out.append(to_decimal(n).as_str());
            out.append(").");
            out.append(ext.as_str());
            out
        },
        None => {
            let mut out = owned(name);
            out.append(" (");
            out.append(to_decimal(n).as_str());
            out.append(")");
            out
        },
    }
}

/// A search for a free name: those before `copy` are taken.
pub enum Destination {
    /// Look whether `candidate`, the name of this copy, is taken.
    Check { name: String, copy: u64, candidate: String },
    /// Save under this name.
    Take(String),
    /// Every name that can be counted is taken: there is none to save under.
    NoName,
}

/// What a search says.
#[verifier::ext_equal]
pub enum DestinationView {
    Check(Seq<char>, u64, Seq<char>),
    Take(Seq<char>),
    NoName,
}

impl Destination {
    pub open spec fn view(self) -> DestinationView {
        match self {
            Destination::Check { name, copy, candidate } => DestinationView::Check(
                name@,
                copy,
                candidate@,
            ),
            Destination::Take(name) => DestinationView::Take(name@),
            Destination::NoName => DestinationView::NoName,
        }
    }
}

/// The search at a copy.
pub open spec fn check_at(name: Seq<char>, copy: u64) -> DestinationView {
    DestinationView::Check(name, copy, copy_name(name, copy as nat))
}

/// Begins the search for the destination of a download from `url`.
pub fn download_destination(url: &WebUrl) -> (r: Destination)
    ensures
        r@ == check_at(download_name(url@.last_segment), 0),
{
    let name = match &url.last_segment {
        Some(s) => if !s.as_str().is_empty() && !has_char(s.as_str(), ':') {
            owned(s.as_str())
        } else {
            owned("download.bin")
        },
        None => owned("download.bin"),
    };
    Destination::Check { candidate: copy_text(name.as_str(), 0), name, copy: 0 }
}

/// The search once its candidate was looked for: no name is taken unseen.
pub open spec fn destination_after(d: DestinationView, taken: bool) -> DestinationView {
    match d {
        DestinationView::Check(name, copy, candidate) => if !taken {
            DestinationView::Take(candidate)
        } else if copy < u64::MAX {
            check_at(name, (copy + 1) as u64)
        } else {
            DestinationView::NoName
        },
        _ => d,
    }
}

/// Goes on with the search once its candidate was looked for.
pub fn destination_next(d: Destination, taken: bool) -> (r: Destination)
    ensures
        r@ == destination_after(d@, taken),
{
    match d {
        Destination::Check { name, copy, candidate } => if !taken {
            Destination::Take(candidate)
        } else if copy < u64::MAX {
            Destination::Check {
                candidate: copy_text(name.as_str(), copy + 1),
                name,
                copy: copy + 1,
            }
        } else {
            Destination::NoName
        },
        d => d,
    }
}

/// Where the search stands after at most `fuel` looks into a folder with the
/// files `taken`.
pub open spec fn destination_end(d: DestinationView, taken: Set<Seq<char>>, fuel: nat) -> DestinationView
    decreases fuel,
{
    match d {
        DestinationView::Check(_, _, candidate) => if fuel == 0 {
            d
        } else {
            destination_end(destination_after(d, taken.contains(candidate)), taken, (fuel - 1) as nat)
        },
        _ => d,
    }
}

proof fn lemma_destination_from(name: Seq<char>, copy: u64, taken: Set<Seq<char>>, k: u64, fuel: nat)
    requires
        copy <= k,
        !taken.contains(copy_name(name, k as nat)),
        forall|i: nat| copy <= i < k ==> taken.contains(#[trigger] copy_name(name, i)),
        fuel > k - copy,
    ensures
        destination_end(check_at(name, copy), taken, fuel) == DestinationView::Take(
            copy_name(name, k as nat),
        ),
    decreases k - copy,
{
    reveal_with_fuel(destination_end, 2);
    if copy < k {
        assert(taken.contains(copy_name(name, copy as nat)));
        lemma_destination_from(name, (copy + 1) as u64, taken, k, (fuel - 1) as nat);
    }
}

/// A download is saved under the first of its names that is not taken.
pub proof fn first_free_name_is_taken(segment: Option<Seq<char>>, taken: Set<Seq<char>>, k: u64)
    requires
        !taken.contains(copy_name(download_name(segment), k as nat)),
        forall|i: nat|
            i < k ==> taken.contains(#[trigger] copy_name(download_name(segment), i)),
    ensures
        destination_end(check_at(download_name(segment), 0), taken, (k + 1) as nat)
            == DestinationView::Take(copy_name(download_name(segment), k as nat)),
{
    lemma_destination_from(download_name(segment), 0, taken, k, (k + 1) as nat);
}

proof fn lemma_nothing_overwritten(name: Seq<char>, copy: u64, taken: Set<Seq<char>>, fuel: nat)
    ensures
        match destination_end(check_at(name, copy), taken, fuel) {
            DestinationView::Take(n) => !taken.contains(n),
            _ => true,
        },
    decreases fuel,
{
    reveal_with_fuel(destination_end, 2);
    if fuel > 0 && taken.contains(copy_name(name, copy as nat)) && copy < u64::MAX {
        lemma_nothing_overwritten(name, (copy + 1) as u64, taken, (fuel - 1) as nat);
    }
}

/// A download overwrites nothing: however the search goes, the name it ends on
/// is none of those in the folder.
pub proof fn nothing_is_overwritten(segment: Option<Seq<char>>, taken: Set<Seq<char>>, fuel: nat)
    ensures
        match destination_end(check_at(download_name(segment), 0), taken, fuel) {
            DestinationView::Take(n) => !taken.contains(n),
            _ => true,
        },
{
    lemma_nothing_overwritten(download_name(segment), 0, taken, fuel);
}

/// The copies of a file have names of their own.
pub proof fn copy_names_differ(name: Seq<char>, a: nat, b: nat)
    requires
        a != b,
    ensures
        copy_name(name, a) != copy_name(name, b),
{
    lemma_decimal_value(a);
    lemma_decimal_value(b);
    reveal_strlit(" (");
    reveal_strlit(")");
    reveal_strlit(").");
    lemma_rfind_char_bounds(name, '.');
    if copy_name(name, a) == copy_name(name, b) {
        let (head, tail) = match rsplit_once(name, '.') {
            Some((stem, ext)) => (stem + " ("@, ")."@ + ext),
            None => (name + " ("@, ")"@),
        };
        if a > 0 {
            assert(copy_name(name, a) == head + decimal(a) + tail);
        }
        if b > 0 {
            assert(copy_name(name, b) == head + decimal(b) + tail);
        }
        if a > 0 && b > 0 {
            let whole = head + decimal(a) + tail;
            let end = whole.len() - tail.len();
            assert(whole.subrange(head.len() as int, end) == decimal(a));
            assert(whole.subrange(head.len() as int, end) == decimal(b));
            assert(value(decimal(a)) == value(decimal(b)));
        }
    }
}

proof fn lemma_some_copy_is_free(name: Seq<char>, taken: Set<Seq<char>>, n: nat) -> (k: nat)
    requires
        taken.finite(),
        taken.len() <= n,
    ensures
        k <= n,
        !taken.contains(copy_name(name, k)),
    decreases n,
{
    let last = copy_name(name, n);
    if !taken.contains(last) {
        n
    } else {
        let k = lemma_some_copy_is_free(name, taken.remove(last), (n - 1) as nat);
        copy_names_differ(name, k, n);
        k
    }
}

proof fn lemma_search_ends(name: Seq<char>, copy: u64, taken: Set<Seq<char>>, k: u64, fuel: nat)
    requires
        copy <= k,
        !taken.contains(copy_name(name, k as nat)),
        fuel > k - copy,
    ensures
        destination_end(check_at(name, copy), taken, fuel) is Take,
    decreases k - copy,
{
    reveal_with_fuel(destination_end, 2);
    if taken.contains(copy_name(name, copy as nat)) {
        lemma_search_ends(name, (copy + 1) as u64, taken, k, (fuel - 1) as nat);
    }
}

/// A folder always has room for one more: the search finds a name within one
/// look more than there are files.
pub proof fn a_free_name_is_found(segment: Option<Seq<char>>, taken: Set<Seq<char>>)
    requires
        taken.finite(),
        taken.len() <= u64::MAX,
    ensures
        destination_end(check_at(download_name(segment), 0), taken, taken.len() + 1) is Take,
{
    let k = lemma_some_copy_is_free(download_name(segment), taken, taken.len());
    lemma_search_ends(download_name(segment), 0, taken, k as u64, taken.len() + 1);
}

proof fn lemma_copy_slash_free(name: Seq<char>, n: nat)
    requires
        !name.contains('/'),
    ensures
        !copy_name(name, n).contains('/'),
{
    reveal_strlit(" (");
    reveal_strlit(")");
    reveal_strlit(").");
    lemma_decimal_value(n);
    lemma_rfind_char_bounds(name, '.');
    let at = rfind_char(name, '.');
    let c = copy_name(name, n);
    assert forall|i: int| 0 <= i < name.len() implies #[trigger] name[i] != '/' by {
        assert(name.contains(name[i]));
    }
    assert forall|i: int| 0 <= i < decimal(n).len() implies #[trigger] decimal(n)[i] != '/' by {
        assert(is_digit(decimal(n)[i]));
    }
    assert forall|i: int| 0 <= i < c.len() implies #[trigger] c[i] != '/' by {
        if n > 0 {
            let stem = if at >= 0 {
                at
            } else {
                name.len() as int
            };
            let d = i - stem - 2;
            if i < stem {
                assert(c[i] == name[i]);
            } else if 0 <= d < decimal(n).len() {
                assert(c[i] == decimal(n)[d]);
            } else if at >= 0 && d >= decimal(n).len() + 2 {
                assert(c[i] == name[at + 1 + d - decimal(n).len() - 2]);
            }
        }
    }
}

proof fn lemma_take_slash_free(name: Seq<char>, copy: u64, taken: Set<Seq<char>>, fuel: nat)
    requires
        !name.contains('/'),
    ensures
        match destination_end(check_at(name, copy), taken, fuel) {
            DestinationView::Take(n) => !n.contains('/'),
            _ => true,
        },
    decreases fuel,
{
    reveal_with_fuel(destination_end, 2);
    lemma_copy_slash_free(name, copy as nat);
    if fuel > 0 && taken.contains(copy_name(name, copy as nat)) && copy < u64::MAX {
        lemma_take_slash_free(name, (copy + 1) as u64, taken, (fuel - 1) as nat);
    }
}

/// A download stays in its folder: the name that it is saved under holds no
/// slash, as the last segment of a URL holds none.
pub proof fn downloads_stay_in_the_folder(segment: Option<Seq<char>>, taken: Set<Seq<char>>, fuel: nat)
    requires
        slash_free(segment),
    ensures
        match destination_end(check_at(download_name(segment), 0), taken, fuel) {
            DestinationView::Take(n) => !n.contains('/'),
            _ => true,
        },
{
    reveal_strlit("download.bin");
    lemma_take_slash_free(download_name(segment), 0, taken, fuel);
}

/// A download is saved under its URL's last segment as it is, where that is a name
/// and the folder does not hold it; under a name of its own where the segment is
/// empty, missing or has a colon in it.
pub proof fn downloads_keep_their_name(segment: Option<Seq<char>>, taken: Set<Seq<char>>, fuel: nat)
    requires
        fuel > 0,
    ensures
        match segment {
            Some(s) => s.len() > 0 && !s.contains(':') && !taken.contains(s) ==> destination_end(
                check_at(download_name(segment), 0),
                taken,
                fuel,
            ) == DestinationView::Take(s),
            None => true,
        },
        (segment is None || segment->0.len() == 0 || segment->0.contains(':')) && !taken.contains(
            "download.bin"@,
        ) ==> destination_end(check_at(download_name(segment), 0), taken, fuel)
            == DestinationView::Take("download.bin"@),
{
    reveal_with_fuel(destination_end, 2);
}

/// A copy is numbered before the ending of its name: "stem (n).ending", and at the
/// end of a name without an ending.
pub proof fn copies_are_numbered_before_the_ending(stem: Seq<char>, ending: Seq<char>, n: nat)
    requires
        n > 0,
        !ending.contains('.'),
    ensures
        copy_name(stem + "."@ + ending, n) == stem + " ("@ + decimal(n) + ")."@ + ending,
        copy_name(ending, n) == ending + " ("@ + decimal(n) + ")"@,
{
    reveal_strlit(".");
    let name = stem + "."@ + ending;
    lemma_rfind_char_bounds(name, '.');
    lemma_rfind_char_bounds(ending, '.');
    assert(name[stem.len() as int] == '.');
    let at = rfind_char(name, '.');
    if at > stem.len() {
        assert(name[at] == ending[at - stem.len() - 1]);
        assert(ending.contains('.'));
    }
    assert(name.take(stem.len() as int) == stem);
    assert(name.skip(stem.len() as int + 1) == ending);
    if rfind_char(ending, '.') >= 0 {
        assert(ending.contains(ending[rfind_char(ending, '.')]));
    }
}

} // verus!

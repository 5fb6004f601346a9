//! The web bundle embedded into the executable.
use vstd::prelude::*;

verus! {

/// A folder of embedded files.
#[verifier::ext_equal]
pub struct Folder {
    /// The files that stand in the folder itself, each with its path from the
    /// root of the bundle.
    pub files: Seq<(Seq<char>, Seq<u8>)>,
    /// The folders in the folder.
    pub folders: Seq<Folder>,
}

/// Every file below a folder: its own, then those of its folders, in order.
pub open spec fn files_below(f: Folder) -> Seq<(Seq<char>, Seq<u8>)>
    decreases f,
{
    f.files + files_of_all(f.folders)
}

/// Every file below one of the folders.
pub open spec fn files_of_all(folders: Seq<Folder>) -> Seq<(Seq<char>, Seq<u8>)>
    decreases folders,
{
    if folders.len() == 0 {
        seq![]
    } else {
        files_of_all(folders.drop_last()) + files_below(folders.last())
    }
}

/// The views of a list of files.
pub open spec fn embedded_views(v: Seq<(String, &'static [u8])>) -> Seq<(Seq<char>, Seq<u8>)> {
    v.map_values(|f: (String, &'static [u8])| (f.0@, f.1@))
}

/// `include_dir::Dir`, which only this module looks into.
#[verifier::external_type_specification]
#[verifier::external_body]
pub struct ExDir<'a>(include_dir::Dir<'a>);

/// What an `include_dir::Dir` holds.
pub uninterp spec fn embedded(dir: include_dir::Dir<'static>) -> Folder;

/// `include_dir::Dir::files`: the files of this folder, not of those below it,
/// each as `File::path` and `File::contents` give it.
#[verifier::external_body]
fn files_in(dir: &'static include_dir::Dir<'static>) -> (r: Vec<(String, &'static [u8])>)
    ensures
        embedded_views(r@) == embedded(*dir).files,
{
    dir.files().map(|f| (f.path().to_string_lossy().into_owned(), f.contents())).collect()
}

/// `include_dir::Dir::dirs`: the folders of this folder, in order.
#[verifier::external_body]
fn folders_in(dir: &'static include_dir::Dir<'static>) -> (r: Vec<
    &'static include_dir::Dir<'static>,
>)
    ensures
        r@.len() == embedded(*dir).folders.len(),
        forall|i: int|
            0 <= i < r@.len() ==> embedded(*#[trigger] r@[i]) == embedded(*dir).folders[i],
{
    dir.dirs().collect()
}

/// Collects the files of an embedded folder, those of its subfolders included.
pub fn collect_embedded(
    dir: &'static include_dir::Dir<'static>,
    out: &mut Vec<(String, &'static [u8])>,
)
    ensures
        embedded_views(final(out)@) == embedded_views(old(out)@) + files_below(embedded(*dir)),
    decreases embedded(*dir),
{
    let files = files_in(dir);
    let mut i: usize = 0;
    while i < files.len()
        invariant
            i <= files@.len(),
            embedded_views(out@) == embedded_views(old(out)@) + embedded_views(files@).take(
                i as int,
            ),
        decreases files@.len() - i,
    {
        let ghost before = out@;
        out.push((files[i].0.clone(), files[i].1));
        proof {
            assert(embedded_views(out@) == embedded_views(before).push(
                (files@[i as int].0@, files@[i as int].1@),
            ));
            assert(embedded_views(files@).take(i + 1) == embedded_views(files@).take(i as int).push(
                (files@[i as int].0@, files@[i as int].1@),
            ));
        }
        i = i + 1;
    }
    let folders = folders_in(dir);
    let ghost own = embedded(*dir).files;
    let ghost all = embedded(*dir).folders;
    proof {
        assert(embedded_views(files@).take(i as int) == own);
        assert(embedded_views(out@) == embedded_views(old(out)@) + own + files_of_all(all.take(0)));
    }
    let mut k: usize = 0;
    while k < folders.len()
        invariant
            k <= folders@.len(),
            folders@.len() == all.len(),
            all == embedded(*dir).folders,
            forall|j: int| 0 <= j < all.len() ==> embedded(*#[trigger] folders@[j]) == all[j],
            embedded_views(out@) == embedded_views(old(out)@) + own + files_of_all(
                all.take(k as int),
            ),
        decreases folders@.len() - k,
    {
        proof {
            assert(embedded(*folders@[k as int]) == all[k as int]);
            assert(decreases_to!(embedded(*dir) => embedded(*dir).folders));
            assert(decreases_to!(all => all[k as int]));
            assert(all.take(k + 1).drop_last() == all.take(k as int));
            assert(all.take(k + 1).last() == all[k as int]);
        }
        collect_embedded(folders[k], out);
        proof {
            assert(embedded_views(out@) == embedded_views(old(out)@) + own + files_of_all(
                all.take(k + 1),
            ));
        }
        k = k + 1;
    }
    proof {
        assert(all.take(k as int) == all);
        assert(embedded_views(out@) == embedded_views(old(out)@) + files_below(embedded(*dir)));
    }
}

/// No file of a subfolder is left out, however deep the folder.
pub proof fn nested_files_are_collected(f: Folder, i: int, file: (Seq<char>, Seq<u8>))
    requires
        0 <= i < f.folders.len(),
        files_below(f.folders[i]).contains(file),
    ensures
        files_below(f).contains(file),
{
    lemma_files_of_all(f.folders, i, file);
    let all = files_of_all(f.folders);
    let k = choose|k: int| 0 <= k < all.len() && all[k] == file;
    assert(files_below(f)[f.files.len() + k] == file);
}

proof fn lemma_files_of_all(folders: Seq<Folder>, i: int, file: (Seq<char>, Seq<u8>))
    requires
        0 <= i < folders.len(),
        files_below(folders[i]).contains(file),
    ensures
        files_of_all(folders).contains(file),
    decreases folders.len(),
{
    let rest = files_of_all(folders.drop_last());
    let last = files_below(folders.last());
    if i < folders.len() - 1 {
        lemma_files_of_all(folders.drop_last(), i, file);
        let k = choose|k: int| 0 <= k < rest.len() && rest[k] == file;
        assert(files_of_all(folders)[k] == file);
    } else {
        let k = choose|k: int| 0 <= k < last.len() && last[k] == file;
        assert(files_of_all(folders)[rest.len() + k] == file);
    }
}

/// Folders are collected one after the other in order, a folder's own files before
/// those of the folders in it, and nothing else is.
pub proof fn files_are_collected_in_order(a: Seq<Folder>, b: Seq<Folder>, f: Folder)
    ensures
        files_of_all(a + b) == files_of_all(a) + files_of_all(b),
        files_of_all(seq![f]) == files_below(f),
        f.files.is_prefix_of(files_below(f)),
        files_below(f).skip(f.files.len() as int) == files_of_all(f.folders),
        f.folders.len() == 0 ==> files_below(f) == f.files,
    decreases b.len(),
{
    if b.len() > 0 {
        assert((a + b).drop_last() == a + b.drop_last());
        files_are_collected_in_order(a, b.drop_last(), f);
        assert(files_of_all(a) + (files_of_all(b.drop_last()) + files_below(b.last())) == (files_of_all(a)
            + files_of_all(b.drop_last())) + files_below(b.last()));
    } else {
        assert(a + b == a);
        assert(files_of_all(a) + Seq::<(Seq<char>, Seq<u8>)>::empty() == files_of_all(a));
    }
    let none = Seq::<Folder>::empty();
    let nothing = Seq::<(Seq<char>, Seq<u8>)>::empty();
    assert(seq![f].drop_last() == none);
    assert(files_of_all(none) == nothing);
    assert(nothing + files_below(f) == files_below(f));
    assert(f.files =~= files_below(f).subrange(0, f.files.len() as int));
    assert(files_below(f).skip(f.files.len() as int) =~= files_of_all(f.folders));
    if f.folders.len() == 0 {
        assert(f.folders =~= none);
        assert(f.files + nothing == f.files);
    }
}

} // verus!

//! Change detection: which paths differ between two revisions of a workspace.

use vstd::prelude::*;
use vstd::string::StringExecFns;

verus! {

/// One file of a revision: its path below the workspace root and a text that
/// identifies its content, equal for two files exactly when their contents
/// are equal.
#[derive(Clone, PartialEq, Eq, Debug)]
pub struct FileEntry {
    pub path: String,
    pub blob: String,
}

/// One revision of the workspace: its identifier and the files it holds.
#[derive(Clone, PartialEq, Eq, Debug)]
pub struct Revision {
    pub id: String,
    pub files: Vec<FileEntry>,
}

/// What could be read of the history of a workspace.
#[derive(Clone, PartialEq, Eq, Debug)]
pub enum HistoryStore {
    /// The store could not be read.
    Unreadable,
    /// The revisions that the store holds.
    Readable(Vec<Revision>),
}

/// Why no change set could be computed.
#[derive(Clone, Copy, PartialEq, Eq, Debug, Hash, Structural)]
pub enum HistoryError {
    /// One of the two revisions is not in the store.
    RevisionNotFound,
    /// The store could not be read.
    HistoryUnavailable,
}

/// Entry `i` is the first of `files` with the path `path`.
pub open spec fn is_first_entry(files: Seq<FileEntry>, path: Seq<char>, i: int) -> bool {
    &&& 0 <= i < files.len()
    &&& files[i].path@ == path
    &&& forall|j: int| 0 <= j < i ==> (#[trigger] files[j]).path@ != path
}

/// The content that `files` holds at `path`, if any.
pub open spec fn content_at(files: Seq<FileEntry>, path: Seq<char>) -> Option<Seq<char>> {
    if exists|i: int| is_first_entry(files, path, i) {
        Some(files[choose|i: int| is_first_entry(files, path, i)].blob@)
    } else {
        None
    }
}

/// The file at `path` was added, deleted or modified between the two
/// listings.
pub open spec fn differs(before: Seq<FileEntry>, after: Seq<FileEntry>, path: Seq<char>) -> bool {
    content_at(before, path) != content_at(after, path)
}

/// The `k`-th path to look at: those of `before` in their order, followed by those of
/// `after`.
pub open spec fn candidate_path(before: Seq<FileEntry>, after: Seq<FileEntry>, k: int) -> Seq<
    char,
> {
    if k < before.len() {
        before[k].path@
    } else {
        after[k - before.len()].path@
    }
}

/// The paths among the first `k` candidates that differ, each listed once, at
/// the place of its first occurrence.
pub open spec fn changed_upto(before: Seq<FileEntry>, after: Seq<FileEntry>, k: int) -> Seq<
    Seq<char>,
>
    decreases k,
{
    if k <= 0 {
        Seq::empty()
    } else {
        let earlier = changed_upto(before, after, k - 1);
        let path = candidate_path(before, after, k - 1);
        if differs(before, after, path) && !earlier.contains(path) {
            earlier.push(path)
        } else {
            earlier
        }
    }
}

/// The paths, below the workspace root, that differ between two listings:
/// first those of `before` that were deleted or modified, in the order of
/// `before`, followed by those that `after` added, in the order of `after`; none
/// twice.
pub open spec fn changed_paths(before: Seq<FileEntry>, after: Seq<FileEntry>) -> Seq<Seq<char>> {
    changed_upto(before, after, (before.len() + after.len()) as int)
}

/// The path `relative` below `root`: the root, a slash, the relative path.
pub open spec fn absolute(root: Seq<char>, relative: Seq<char>) -> Seq<char> {
    root + seq!['/'] + relative
}

/// Revision `i` is the first of `revisions` with the identifier `id`.
pub open spec fn is_first_revision(revisions: Seq<Revision>, id: Seq<char>, i: int) -> bool {
    &&& 0 <= i < revisions.len()
    &&& revisions[i].id@ == id
    &&& forall|j: int| 0 <= j < i ==> (#[trigger] revisions[j]).id@ != id
}

/// The store holds a revision with the identifier `id`.
pub open spec fn has_revision(revisions: Seq<Revision>, id: Seq<char>) -> bool {
    exists|i: int| is_first_revision(revisions, id, i)
}

/// The files of the revision with the identifier `id`.
pub open spec fn files_of(revisions: Seq<Revision>, id: Seq<char>) -> Seq<FileEntry> {
    revisions[choose|i: int| is_first_revision(revisions, id, i)].files@
}

/// What change detection answers: the error, or the changed paths made
/// absolute.
pub open spec fn detected_changes(
    root: Seq<char>,
    store: HistoryStore,
    before: Seq<char>,
    after: Seq<char>,
) -> Result<Seq<Seq<char>>, HistoryError> {
    match store {
        HistoryStore::Unreadable => Err(HistoryError::HistoryUnavailable),
        HistoryStore::Readable(revisions) => {
            if has_revision(revisions@, before) && has_revision(revisions@, after) {
                Ok(
                    changed_paths(
                        files_of(revisions@, before),
                        files_of(revisions@, after),
                    ).map_values(|relative: Seq<char>| absolute(root, relative)),
                )
            } else {
                Err(HistoryError::RevisionNotFound)
            }
        },
    }
}

/// The texts that a vector of strings holds.
pub open spec fn texts(strings: Seq<String>) -> Seq<Seq<char>> {
    strings.map_values(|s: String| s@)
}

proof fn lemma_first_entry_unique(files: Seq<FileEntry>, path: Seq<char>, i: int)
    requires
        is_first_entry(files, path, i),
    ensures
        content_at(files, path) == Some(files[i].blob@),
{
    let c = choose|c: int| is_first_entry(files, path, c);
    assert(is_first_entry(files, path, c));
    if c < i {
        assert(files[c].path@ != path);
    }
    if i < c {
        assert(files[i].path@ != path);
    }
}

proof fn lemma_first_revision_unique(revisions: Seq<Revision>, id: Seq<char>, i: int)
    requires
        is_first_revision(revisions, id, i),
    ensures
        has_revision(revisions, id),
        files_of(revisions, id) == revisions[i].files@,
{
    let c = choose|c: int| is_first_revision(revisions, id, c);
    assert(is_first_revision(revisions, id, c));
    if c < i {
        assert(revisions[c].id@ != id);
    }
    if i < c {
        assert(revisions[i].id@ != id);
    }
}

/// A changed path is listed once, and a path is listed exactly when it is one
/// of the first `k` candidates and its content differs.
pub proof fn lemma_changed_upto_characterized(
    before: Seq<FileEntry>,
    after: Seq<FileEntry>,
    k: int,
)
    requires
        0 <= k <= before.len() + after.len(),
    ensures
        changed_upto(before, after, k).no_duplicates(),
        forall|path: Seq<char>| #[trigger]
            changed_upto(before, after, k).contains(path) <==> differs(before, after, path) && exists|
                c: int,
            |
                0 <= c < k && #[trigger] candidate_path(before, after, c) == path,
    decreases k,
{
    if k > 0 {
        lemma_changed_upto_characterized(before, after, k - 1);
        let earlier = changed_upto(before, after, k - 1);
        let now = changed_upto(before, after, k);
        let latest = candidate_path(before, after, k - 1);
        assert forall|path: Seq<char>| #[trigger]
            now.contains(path) <==> differs(before, after, path) && exists|c: int|
                0 <= c < k && #[trigger] candidate_path(before, after, c) == path by {
            if now.contains(path) {
                let m = choose|m: int| 0 <= m < now.len() && now[m] == path;
                if m < earlier.len() {
                    assert(earlier[m] == path);
                    assert(earlier.contains(path));
                    let c = choose|c: int|
                        0 <= c < k - 1 && #[trigger] candidate_path(before, after, c) == path;
                    assert(candidate_path(before, after, c) == path);
                } else {
                    assert(path == latest);
                    assert(candidate_path(before, after, k - 1) == path);
                }
            }
            if differs(before, after, path) && exists|c: int|
                0 <= c < k && #[trigger] candidate_path(before, after, c) == path {
                let c = choose|c: int|
                    0 <= c < k && #[trigger] candidate_path(before, after, c) == path;
                if c < k - 1 {
                    assert(earlier.contains(path));
                    let m = choose|m: int| 0 <= m < earlier.len() && earlier[m] == path;
                    assert(now[m] == path);
                } else if earlier.contains(path) {
                    let m = choose|m: int| 0 <= m < earlier.len() && earlier[m] == path;
                    assert(now[m] == path);
                } else {
                    assert(now[now.len() - 1] == path);
                }
            }
        }
        assert forall|a: int, b: int| 0 <= a < now.len() && 0 <= b < now.len() && a != b implies now[a]
            != now[b] by {
            if a < earlier.len() && b < earlier.len() {
                assert(earlier[a] != earlier[b]);
            } else if a < earlier.len() {
                assert(earlier.contains(earlier[a]));
            } else if b < earlier.len() {
                assert(earlier.contains(earlier[b]));
            }
        }
    } else {
        assert forall|path: Seq<char>| !(#[trigger] changed_upto(before, after, k).contains(path)) by {}
    }
}

/// The change set holds no path twice, and holds a path exactly when its
/// content differs between the two listings.
pub proof fn lemma_changed_paths_characterized(before: Seq<FileEntry>, after: Seq<FileEntry>)
    ensures
        changed_paths(before, after).no_duplicates(),
        forall|path: Seq<char>| #[trigger]
            changed_paths(before, after).contains(path) <==> differs(before, after, path),
{
    let k = (before.len() + after.len()) as int;
    lemma_changed_upto_characterized(before, after, k);
    assert forall|path: Seq<char>| differs(before, after, path) implies exists|c: int|
        0 <= c < k && #[trigger] candidate_path(before, after, c) == path by {
        if content_at(before, path) is Some {
            let i = choose|i: int| is_first_entry(before, path, i);
            assert(candidate_path(before, after, i) == path);
        } else {
            assert(content_at(after, path) is Some);
            let i = choose|i: int| is_first_entry(after, path, i);
            assert(candidate_path(before, after, before.len() + i) == path);
        }
    }
}

/// Between a listing and itself nothing has changed.
pub proof fn lemma_identical_listings_no_changes(files: Seq<FileEntry>)
    ensures
        changed_paths(files, files) == Seq::<Seq<char>>::empty(),
{
    lemma_unchanged_upto(files, (files.len() + files.len()) as int);
}

proof fn lemma_unchanged_upto(files: Seq<FileEntry>, k: int)
    requires
        0 <= k,
    ensures
        changed_upto(files, files, k) == Seq::<Seq<char>>::empty(),
    decreases k,
{
    if k > 0 {
        lemma_unchanged_upto(files, k - 1);
    }
}

/// Change detection between a revision and itself answers with an empty
/// change set, whatever the store holds for it.
pub proof fn lemma_identical_revisions_no_changes(
    root: Seq<char>,
    revisions: Vec<Revision>,
    id: Seq<char>,
)
    requires
        has_revision(revisions@, id),
    ensures
        detected_changes(root, HistoryStore::Readable(revisions), id, id) == Ok::<
            Seq<Seq<char>>,
            HistoryError,
        >(Seq::empty()),
{
    let files = files_of(revisions@, id);
    lemma_identical_listings_no_changes(files);
    assert(changed_paths(files, files).map_values(|relative: Seq<char>| absolute(root, relative))
        =~= Seq::<Seq<char>>::empty());
}

fn find_entry(files: &Vec<FileEntry>, path: &String) -> (r: Option<usize>)
    ensures
        match r {
            Some(i) => is_first_entry(files@, path@, i as int),
            None => forall|j: int| 0 <= j < files@.len() ==> (#[trigger] files@[j]).path@ != path@,
        },
{
    let n = files.len();
    let mut i: usize = 0;
    while i < n
        invariant
            n == files@.len(),
            i <= n,
            forall|j: int| 0 <= j < i ==> (#[trigger] files@[j]).path@ != path@,
        decreases n - i,
    {
        if files[i].path == *path {
            return Some(i);
        }
        i += 1;
    }
    None
}

fn path_differs(before: &Vec<FileEntry>, after: &Vec<FileEntry>, path: &String) -> (r: bool)
    ensures
        r == differs(before@, after@, path@),
{
    let old_entry = find_entry(before, path);
    let new_entry = find_entry(after, path);
    proof {
        if let Some(i) = old_entry {
            lemma_first_entry_unique(before@, path@, i as int);
        }
        if let Some(i) = new_entry {
            lemma_first_entry_unique(after@, path@, i as int);
        }
    }
    match (old_entry, new_entry) {
        (None, None) => false,
        (Some(_), None) => true,
        (None, Some(_)) => true,
        (Some(i), Some(j)) => !(before[i].blob == after[j].blob),
    }
}

fn is_listed(paths: &Vec<String>, path: &String) -> (r: bool)
    ensures
        r == texts(paths@).contains(path@),
{
    let n = paths.len();
    let mut i: usize = 0;
    while i < n
        invariant
            n == paths@.len(),
            i <= n,
            forall|j: int| 0 <= j < i ==> (#[trigger] paths@[j])@ != path@,
        decreases n - i,
    {
        if paths[i] == *path {
            assert(texts(paths@)[i as int] == path@);
            return true;
        }
        i += 1;
    }
    proof {
        if texts(paths@).contains(path@) {
            let m = choose|m: int| 0 <= m < texts(paths@).len() && texts(paths@)[m] == path@;
            assert(paths@[m]@ == path@);
        }
    }
    false
}

/// Looks at the paths of `entries`, which are the candidates from `offset` on,
/// and appends to `paths` those that differ and are not yet listed.
fn note_changed(
    before: &Vec<FileEntry>,
    after: &Vec<FileEntry>,
    entries: &Vec<FileEntry>,
    paths: &mut Vec<String>,
    Ghost(offset): Ghost<int>,
)
    requires
        offset == 0 && entries@ == before@ || offset == before@.len() && entries@ == after@,
        texts(old(paths)@) == changed_upto(before@, after@, offset),
    ensures
        texts(final(paths)@) == changed_upto(before@, after@, offset + entries@.len()),
{
    let n = entries.len();
    let mut k: usize = 0;
    while k < n
        invariant
            n == entries@.len(),
            k <= n,
            offset == 0 && entries@ == before@ || offset == before@.len() && entries@ == after@,
            texts(paths@) == changed_upto(before@, after@, offset + k),
        decreases n - k,
    {
        let path = &entries[k].path;
        assert(candidate_path(before@, after@, offset + k) == path@);
        if path_differs(before, after, path) && !is_listed(paths, path) {
            let ghost earlier = paths@;
            paths.push(path.clone());
            assert(texts(paths@) =~= texts(earlier).push(path@));
        }
        k += 1;
    }
}

fn find_revision(revisions: &Vec<Revision>, id: &String) -> (r: Option<usize>)
    ensures
        match r {
            Some(i) => is_first_revision(revisions@, id@, i as int),
            None => !has_revision(revisions@, id@),
        },
{
    let n = revisions.len();
    let mut i: usize = 0;
    while i < n
        invariant
            n == revisions@.len(),
            i <= n,
            forall|j: int| 0 <= j < i ==> (#[trigger] revisions@[j]).id@ != id@,
        decreases n - i,
    {
        if revisions[i].id == *id {
            return Some(i);
        }
        i += 1;
    }
    proof {
        if has_revision(revisions@, id@) {
            let c = choose|c: int| is_first_revision(revisions@, id@, c);
            assert(revisions@[c].id@ == id@);
        }
    }
    None
}

/// The paths that differ between two listings of files, relative to the
/// workspace root: deleted and modified paths in the order of `before`, followed by
/// added paths in the order of `after`.
pub fn changed_between(before: &Vec<FileEntry>, after: &Vec<FileEntry>) -> (r: Vec<String>)
    ensures
        texts(r@) == changed_paths(before@, after@),
        texts(r@).no_duplicates(),
        forall|path: Seq<char>| #[trigger]
            texts(r@).contains(path) <==> differs(before@, after@, path),
        before@ == after@ ==> r@.len() == 0,
{
    let mut paths: Vec<String> = Vec::new();
    assert(texts(paths@) =~= changed_upto(before@, after@, 0));
    note_changed(before, after, before, &mut paths, Ghost(0));
    note_changed(before, after, after, &mut paths, Ghost(before@.len() as int));
    proof {
        lemma_changed_paths_characterized(before@, after@);
        if before@ == after@ {
            lemma_identical_listings_no_changes(before@);
        }
    }
    paths
}

/// The paths that differ between the revisions `before` and `after` of the
/// workspace at `root`, as absolute paths, each once. Additions, deletions
/// and modifications all count. Fails with `HistoryUnavailable` if the store
/// could not be read, and with `RevisionNotFound` if it holds no revision
/// of one of the two identifiers.
pub fn changed_files(root: &String, store: &HistoryStore, before: &String, after: &String) -> (r:
    Result<Vec<String>, HistoryError>)
    ensures
        match r {
            Ok(paths) => detected_changes(root@, *store, before@, after@) == Ok::<
                Seq<Seq<char>>,
                HistoryError,
            >(texts(paths@)),
            Err(e) => detected_changes(root@, *store, before@, after@) == Err::<
                Seq<Seq<char>>,
                HistoryError,
            >(e),
        },
        before@ == after@ ==> match r {
            Ok(paths) => paths@.len() == 0,
            Err(_) => true,
        },
{
    let revisions = match store {
        HistoryStore::Unreadable => {
            return Err(HistoryError::HistoryUnavailable);
        },
        HistoryStore::Readable(revisions) => revisions,
    };
    let old_files = match find_revision(revisions, before) {
        Some(i) => {
            proof {
                lemma_first_revision_unique(revisions@, before@, i as int);
            }
            &revisions[i].files
        },
        None => {
            return Err(HistoryError::RevisionNotFound);
        },
    };
    let new_files = match find_revision(revisions, after) {
        Some(i) => {
            proof {
                lemma_first_revision_unique(revisions@, after@, i as int);
            }
            &revisions[i].files
        },
        None => {
            return Err(HistoryError::RevisionNotFound);
        },
    };
    let relative = changed_between(old_files, new_files);
    let ghost to_absolute = |path: Seq<char>| absolute(root@, path);
    let mut paths: Vec<String> = Vec::new();
    let mut k: usize = 0;
    while k < relative.len()
        invariant
            k <= relative@.len(),
            to_absolute == (|path: Seq<char>| absolute(root@, path)),
            texts(paths@) == texts(relative@).take(k as int).map_values(to_absolute),
        decreases relative.len() - k,
    {
        let mut path = String::from_str(root.as_str());
        path.append("/");
        path.append(relative[k].as_str());
        proof {
            reveal_strlit("/");
            assert("/"@ =~= seq!['/']);
            assert(path@ == absolute(root@, relative@[k as int]@));
        }
        let ghost earlier = paths@;
        paths.push(path);
        proof {
            assert(texts(relative@).take(k + 1) =~= texts(relative@).take(k as int).push(
                relative@[k as int]@,
            ));
            assert(texts(paths@) =~= texts(earlier).push(path@));
            assert(texts(relative@).take(k + 1).map_values(to_absolute) =~= texts(relative@).take(
                k as int,
            ).map_values(to_absolute).push(to_absolute(relative@[k as int]@)));
        }
        k += 1;
    }
    proof {
        assert(texts(relative@).take(k as int) =~= texts(relative@));
        if before@ == after@ {
            assert(old_files@ == new_files@);
        }
    }
    Ok(paths)
}

} // verus!

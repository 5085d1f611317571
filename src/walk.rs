//! Finding the `pyproject.toml` manifests of a directory tree.
//!
//! A tree is a list of entries in the order they were listed, depth first,
//! with the root first; each other entry names the index of the directory
//! that holds it. A directory whose name is among the skipped names is not
//! entered, nor is anything beneath it.

use vstd::prelude::*;
use crate::config::string_views;
use crate::document::str_eq;

verus! {

/// What a directory entry is.
#[derive(Clone, Copy, Debug, PartialEq, Eq, Structural)]
pub enum EntryKind {
    File,
    Dir,
    /// Anything else (a dangling link, a device, ...).
    Other,
}

/// One entry of a directory tree.
#[derive(Clone, Debug, PartialEq, Eq)]
pub struct DirEntry {
    /// The entry's full path.
    pub path: String,
    /// The entry's base name, where it is valid UTF-8.
    pub name: Option<String>,
    pub kind: EntryKind,
    /// The index of the directory that holds the entry (unused for the
    /// root).
    pub parent: usize,
}

/// The base name of the manifests looked for.
pub open spec fn manifest_name() -> Seq<char> {
    "pyproject.toml"@
}

/// Whether the walk enters the directory at index `i`: the root where it is
/// a directory, and every directory with a name that is not skipped inside
/// an entered one.
pub open spec fn walked(es: Seq<DirEntry>, skip: Seq<Seq<char>>, i: int) -> bool
    decreases i,
{
    if i < 0 || i >= es.len() {
        false
    } else if i == 0 {
        es[0].kind == EntryKind::Dir
    } else {
        let p = es[i].parent as int;
        &&& p < i
        &&& walked(es, skip, p)
        &&& es[i].kind == EntryKind::Dir
        &&& es[i].name is Some
        &&& !skip.contains(es[i].name->0@)
    }
}

/// Whether the entry at index `i` is a manifest that the walk finds: a file
/// of that name directly inside an entered directory.
pub open spec fn is_found(es: Seq<DirEntry>, skip: Seq<Seq<char>>, i: int) -> bool {
    &&& 0 < i < es.len()
    &&& (es[i].parent as int) < i
    &&& walked(es, skip, es[i].parent as int)
    &&& es[i].kind == EntryKind::File
    &&& es[i].name matches Some(n) && n@ == manifest_name()
}

/// The paths of the manifests found among the first `n` entries, in entry
/// order.
pub open spec fn found_upto(es: Seq<DirEntry>, skip: Seq<Seq<char>>, n: int) -> Seq<Seq<char>>
    decreases n,
{
    if n <= 0 {
        Seq::empty()
    } else {
        found_upto(es, skip, n - 1) + if is_found(es, skip, n - 1) {
            seq![es[n - 1].path@]
        } else {
            Seq::empty()
        }
    }
}

/// Whether a directory name is among the skipped ones (exact,
/// case-sensitive match).
pub fn is_skipped(name: &str, skip_dirs: &Vec<String>) -> (r: bool)
    ensures
        r == string_views(skip_dirs@).contains(name@),
{
    let mut i: usize = 0;
    while i < skip_dirs.len()
        invariant
            0 <= i <= skip_dirs@.len(),
            forall|j: int| 0 <= j < i ==> skip_dirs@[j]@ != name@,
        decreases skip_dirs@.len() - i,
    {
        if str_eq(skip_dirs[i].as_str(), name) {
            assert(string_views(skip_dirs@)[i as int] == name@);
            return true;
        }
        i = i + 1;
    }
    assert(!string_views(skip_dirs@).contains(name@)) by {
        if string_views(skip_dirs@).contains(name@) {
            let j = choose|j: int| 0 <= j < skip_dirs@.len() && string_views(skip_dirs@)[j] == name@;
            assert(skip_dirs@[j]@ != name@);
        }
    }
    false
}

/// The paths of all manifests in the tree, in entry order: none where the
/// root is not a directory.
pub fn find_pyproject_files(tree: &Vec<DirEntry>, skip_dirs: &Vec<String>) -> (r: Vec<String>)
    ensures
        string_views(r@) == found_upto(tree@, string_views(skip_dirs@), tree@.len() as int),
{
    let ghost skip = string_views(skip_dirs@);
    let mut entered: Vec<bool> = Vec::new();
    let mut found: Vec<String> = Vec::new();
    let n = tree.len();
    let mut i: usize = 0;
    while i < n
        invariant
            n == tree@.len(),
            skip == string_views(skip_dirs@),
            0 <= i <= n,
            entered@.len() == i,
            forall|j: int| 0 <= j < i ==> entered@[j] == walked(tree@, skip, j),
            string_views(found@) == found_upto(tree@, skip, i as int),
        decreases n - i,
    {
        let e = &tree[i];
        let p = e.parent;
        let inside = i > 0 && p < i && entered[p];
        let is_dir = e.kind == EntryKind::Dir;
        let mut enters = false;
        if i == 0 {
            enters = is_dir;
        } else if inside && is_dir {
            match &e.name {
                Some(nm) => {
                    enters = !is_skipped(nm.as_str(), skip_dirs);
                },
                None => {},
            }
        }
        assert(enters == walked(tree@, skip, i as int));
        entered.push(enters);
        let ghost before = found@;
        let mut hit = false;
        if inside && e.kind == EntryKind::File {
            match &e.name {
                Some(nm) => {
                    if str_eq(nm.as_str(), "pyproject.toml") {
                        hit = true;
                    }
                },
                None => {},
            }
        }
        assert(hit == is_found(tree@, skip, i as int));
        if hit {
            found.push(e.path.clone());
            assert(string_views(found@) =~= string_views(before).push(e.path@));
        } else {
            assert(found@ == before);
        }
        i = i + 1;
    }
    found
}

/// Of each entry whose path the walk returns: the walk returns exactly the
/// paths of the manifests directly inside entered directories, and, where
/// no two entries share a path, each of them once.
pub proof fn lemma_found_exactly(es: Seq<DirEntry>, skip: Seq<Seq<char>>, n: int)
    requires
        0 <= n <= es.len(),
    ensures
        forall|p: Seq<char>|
            #![trigger found_upto(es, skip, n).contains(p)]
            found_upto(es, skip, n).contains(p) <==> exists|i: int|
                0 <= i < n && is_found(es, skip, i) && es[i].path@ == p,
        (forall|i: int, j: int|
            0 <= i < j < es.len() ==> es[i].path@ != es[j].path@) ==> found_upto(
            es,
            skip,
            n,
        ).no_duplicates(),
    decreases n,
{
    if n > 0 {
        lemma_found_exactly(es, skip, n - 1);
        let prev = found_upto(es, skip, n - 1);
        let cur = found_upto(es, skip, n);
        assert forall|p: Seq<char>| cur.contains(p) <==> exists|i: int|
            0 <= i < n && is_found(es, skip, i) && es[i].path@ == p by {
            if cur.contains(p) {
                let k = choose|k: int| 0 <= k < cur.len() && cur[k] == p;
                if k < prev.len() {
                    assert(prev[k] == p);
                    assert(prev.contains(p));
                    let i = choose|i: int| 0 <= i < n - 1 && is_found(es, skip, i) && es[i].path@ == p;
                    assert(0 <= i < n && is_found(es, skip, i) && es[i].path@ == p);
                } else {
                    assert(is_found(es, skip, n - 1) && es[n - 1].path@ == p);
                }
            }
            if exists|i: int| 0 <= i < n && is_found(es, skip, i) && es[i].path@ == p {
                let i = choose|i: int| 0 <= i < n && is_found(es, skip, i) && es[i].path@ == p;
                if i < n - 1 {
                    assert(prev.contains(p));
                    let k = choose|k: int| 0 <= k < prev.len() && prev[k] == p;
                    assert(cur[k] == p);
                } else {
                    assert(cur[cur.len() - 1] == p);
                }
            }
        }
        if forall|i: int, j: int| 0 <= i < j < es.len() ==> es[i].path@ != es[j].path@ {
            if is_found(es, skip, n - 1) {
                assert(!prev.contains(es[n - 1].path@));
                assert forall|a: int, b: int| 0 <= a < cur.len() && 0 <= b < cur.len() && a != b implies cur[a] != cur[b] by {
                    if a < prev.len() && b < prev.len() {
                        assert(cur[a] == prev[a] && cur[b] == prev[b]);
                    } else if a < prev.len() {
                        assert(cur[a] == prev[a]);
                        assert(prev.contains(cur[a]));
                    } else if b < prev.len() {
                        assert(cur[b] == prev[b]);
                        assert(prev.contains(cur[b]));
                    }
                }
            } else {
                assert(cur =~= prev);
            }
        }
    }
}

/// The indices of the manifests found among the first `n` entries.
pub open spec fn found_indices(es: Seq<DirEntry>, skip: Seq<Seq<char>>, n: int) -> Seq<int>
    decreases n,
{
    if n <= 0 {
        Seq::empty()
    } else if is_found(es, skip, n - 1) {
        found_indices(es, skip, n - 1).push(n - 1)
    } else {
        found_indices(es, skip, n - 1)
    }
}

/// Each path the walk returns comes from its own matching entry: the
/// entries behind the returned paths are distinct and in listing order, so
/// no entry is returned twice.
pub proof fn lemma_found_once_each(es: Seq<DirEntry>, skip: Seq<Seq<char>>, n: int)
    requires
        0 <= n <= es.len(),
    ensures
        found_indices(es, skip, n).len() == found_upto(es, skip, n).len(),
        forall|a: int, b: int|
            0 <= a < b < found_indices(es, skip, n).len() ==> found_indices(es, skip, n)[a]
                < found_indices(es, skip, n)[b],
        forall|k: int|
            #![trigger found_indices(es, skip, n)[k]]
            0 <= k < found_indices(es, skip, n).len() ==> {
                let i = found_indices(es, skip, n)[k];
                &&& 0 <= i < n
                &&& is_found(es, skip, i)
                &&& found_upto(es, skip, n)[k] == es[i].path@
            },
    decreases n,
{
    if n > 0 {
        lemma_found_once_each(es, skip, n - 1);
        let prev = found_upto(es, skip, n - 1);
        let pidx = found_indices(es, skip, n - 1);
        if is_found(es, skip, n - 1) {
            assert(found_upto(es, skip, n) == prev + seq![es[n - 1].path@]);
            let idx = found_indices(es, skip, n);
            assert forall|k: int| 0 <= k < idx.len() implies {
                let i = #[trigger] idx[k];
                &&& 0 <= i < n
                &&& is_found(es, skip, i)
                &&& found_upto(es, skip, n)[k] == es[i].path@
            } by {
                if k < pidx.len() {
                    assert(idx[k] == pidx[k]);
                    assert(pidx[k] == found_indices(es, skip, n - 1)[k]);
                }
            }
            assert forall|a: int, b: int| 0 <= a < b < idx.len() implies idx[a] < idx[b] by {
                assert(idx[a] == pidx[a]);
                if b < pidx.len() {
                    assert(idx[b] == pidx[b]);
                } else {
                    assert(found_indices(es, skip, n - 1)[a] < n - 1);
                }
            }
        } else {
            assert(found_upto(es, skip, n) == prev + Seq::<Seq<char>>::empty());
            assert(found_upto(es, skip, n) =~= prev);
        }
    }
}

} // verus!

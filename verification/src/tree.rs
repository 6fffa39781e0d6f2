//! The destination directory tree, modelled as a value: a recursive
//! structure of files and directories. The search walks it depth first and
//! returns the parent directory of the first file whose name contains the
//! query; insertion mirrors what moving a file into a directory does to
//! the tree.

use vstd::prelude::*;
use vstd::string::*;

use crate::text::contains_str;
use crate::text::has_substring;

verus! {

/// One node of the destination tree: a plain file, or a directory with
/// its children in traversal order.
pub enum Entry {
    File { name: String },
    Dir { name: String, entries: Vec<Entry> },
}

/// The mathematical shape of an `Entry`.
pub ghost enum Tree {
    File { name: Seq<char> },
    Dir { name: Seq<char>, entries: Seq<Tree> },
}

/// The shape of an entry: file and directory names as character
/// sequences, children as a sequence of shapes.
pub open spec fn tree_of(e: Entry) -> Tree
    decreases e, 0int,
    via tree_of_decreases
{
    match e {
        Entry::File { name } => Tree::File { name: name@ },
        Entry::Dir { name, entries } => Tree::Dir { name: name@, entries: trees_of(entries@) },
    }
}

/// The shapes of a sequence of entries, in order.
pub open spec fn trees_of(es: Seq<Entry>) -> Seq<Tree>
    decreases es, 1int,
{
    if es.len() == 0 {
        Seq::empty()
    } else {
        seq![tree_of(es[0])] + trees_of(es.drop_first())
    }
}

#[via_fn]
proof fn tree_of_decreases(e: Entry) {
    match e {
        Entry::File { name } => {},
        Entry::Dir { name, entries } => {
            assert(decreases_to!(e => e->Dir_entries));
            assert(e->Dir_entries == entries);
            assert(decreases_to!(entries => entries@));
        },
    }
}

/// `trees_of` read off at one index.
pub proof fn lemma_trees_of_index(es: Seq<Entry>, i: int)
    requires
        0 <= i < es.len(),
    ensures
        trees_of(es).len() == es.len(),
        trees_of(es)[i] == tree_of(es[i]),
    decreases es.len(),
{
    lemma_trees_of_len(es);
    if i > 0 {
        lemma_trees_of_index(es.drop_first(), i - 1);
    }
}

pub proof fn lemma_trees_of_len(es: Seq<Entry>)
    ensures
        trees_of(es).len() == es.len(),
    decreases es.len(),
{
    if es.len() > 0 {
        lemma_trees_of_len(es.drop_first());
    }
}

impl View for Entry {
    type V = Tree;

    open spec fn view(&self) -> Tree {
        tree_of(*self)
    }
}

/// A file somewhere in the tree: the path of the directory holding it,
/// and its name.
pub ghost struct FileRec {
    pub dir: Seq<Seq<char>>,
    pub name: Seq<char>,
}

/// Every file of `t` in depth-first order, each with the path of its
/// parent directory; `parent` is the path of the directory holding `t`.
pub open spec fn dfs_files(t: Tree, parent: Seq<Seq<char>>) -> Seq<FileRec>
    decreases t, 0int,
{
    match t {
        Tree::File { name } => seq![FileRec { dir: parent, name }],
        Tree::Dir { name, entries } => dfs_files_from(entries, parent.push(name), 0),
    }
}

/// The files of the subtrees `ts[from..]`, in depth-first order.
pub open spec fn dfs_files_from(ts: Seq<Tree>, parent: Seq<Seq<char>>, from: int) -> Seq<FileRec>
    decreases ts, ts.len() - from,
{
    if 0 <= from < ts.len() {
        dfs_files(ts[from], parent) + dfs_files_from(ts, parent, from + 1)
    } else {
        Seq::empty()
    }
}

/// The parent directory of the first record whose file name contains
/// `key`, scanning in order; `None` when no file name contains `key`.
pub open spec fn first_match(fs: Seq<FileRec>, key: Seq<char>) -> Option<Seq<Seq<char>>>
    decreases fs.len(),
{
    if fs.len() == 0 {
        None
    } else if has_substring(fs[0].name, key) {
        Some(fs[0].dir)
    } else {
        first_match(fs.drop_first(), key)
    }
}

/// The first match over a concatenation: the left part wins when it has a
/// match, otherwise the right part decides.
pub proof fn lemma_first_match_concat(a: Seq<FileRec>, b: Seq<FileRec>, key: Seq<char>)
    ensures
        first_match(a + b, key) == if first_match(a, key) is Some {
            first_match(a, key)
        } else {
            first_match(b, key)
        },
    decreases a.len(),
{
    if a.len() == 0 {
        assert(a + b =~= b);
    } else {
        assert((a + b).drop_first() =~= a.drop_first() + b);
        lemma_first_match_concat(a.drop_first(), b, key);
    }
}

/// A found match is sound: when the scan answers a directory, some file
/// in the scanned records sits in exactly that directory and its name
/// contains the key; when it answers nothing, no file name contains the
/// key.
pub proof fn law_match_returns_holder(fs: Seq<FileRec>, key: Seq<char>)
    ensures
        match first_match(fs, key) {
            Some(p) => exists|i: int|
                0 <= i < fs.len() && fs[i].dir == p && has_substring(#[trigger] fs[i].name, key),
            None => forall|i: int| 0 <= i < fs.len() ==> !has_substring(#[trigger] fs[i].name, key),
        },
    decreases fs.len(),
{
    if fs.len() != 0 && !has_substring(fs[0].name, key) {
        law_match_returns_holder(fs.drop_first(), key);
        match first_match(fs, key) {
            Some(p) => {
                let i = choose|i: int|
                    0 <= i < fs.drop_first().len() && fs.drop_first()[i].dir == p && has_substring(
                        #[trigger] fs.drop_first()[i].name,
                        key,
                    );
                assert(fs[i + 1] == fs.drop_first()[i]);
                assert(fs[i + 1].dir == p && has_substring(fs[i + 1].name, key));
            },
            None => {
                assert forall|i: int| 0 <= i < fs.len() implies !has_substring(
                    #[trigger] fs[i].name,
                    key,
                ) by {
                    if i > 0 {
                        assert(fs.drop_first()[i - 1] == fs[i]);
                    }
                }
            },
        }
    }
}

pub proof fn lemma_dfs_from_contains(
    ts: Seq<Tree>,
    parent: Seq<Seq<char>>,
    i: int,
    j: int,
    rec: FileRec,
)
    requires
        0 <= i <= j < ts.len(),
        dfs_files(ts[j], parent).contains(rec),
    ensures
        dfs_files_from(ts, parent, i).contains(rec),
    decreases j - i,
{
    let a = dfs_files(ts[i], parent);
    let b = dfs_files_from(ts, parent, i + 1);
    if i == j {
        let k = choose|k: int| 0 <= k < a.len() && a[k] == rec;
        assert((a + b)[k] == rec);
    } else {
        lemma_dfs_from_contains(ts, parent, i + 1, j, rec);
        let k = choose|k: int| 0 <= k < b.len() && b[k] == rec;
        assert((a + b)[a.len() + k] == rec);
    }
}

/// The walk descends into directories however deep: every file of a
/// subdirectory's subtree is seen among the files of the directory
/// itself.
pub proof fn law_dfs_descends(
    name: Seq<char>,
    entries: Seq<Tree>,
    j: int,
    parent: Seq<Seq<char>>,
    rec: FileRec,
)
    requires
        0 <= j < entries.len(),
        dfs_files(entries[j], parent.push(name)).contains(rec),
    ensures
        dfs_files(Tree::Dir { name, entries }, parent).contains(rec),
{
    lemma_dfs_from_contains(entries, parent.push(name), 0, j, rec);
}

/// The result of searching `t`, held in the directory `parent`, for a
/// file whose name contains `key`.
pub open spec fn spec_search(t: Tree, parent: Seq<Seq<char>>, key: Seq<char>) -> Option<
    Seq<Seq<char>>,
> {
    first_match(dfs_files(t, parent), key)
}

/// The search is complete: as soon as any file of the tree, at whatever
/// depth, has the key in its name, the search answers some directory.
pub proof fn law_search_complete(t: Tree, parent: Seq<Seq<char>>, key: Seq<char>, rec: FileRec)
    requires
        dfs_files(t, parent).contains(rec),
        has_substring(rec.name, key),
    ensures
        spec_search(t, parent, key) is Some,
{
    law_match_returns_holder(dfs_files(t, parent), key);
    if spec_search(t, parent, key) is None {
        let k = choose|k: int|
            0 <= k < dfs_files(t, parent).len() && dfs_files(t, parent)[k] == rec;
        assert(!has_substring(dfs_files(t, parent)[k].name, key));
    }
}

/// A copy of a path, component by component.
pub fn clone_path(p: &Vec<String>) -> (r: Vec<String>)
    ensures
        r@ == p@,
        r.deep_view() == p.deep_view(),
{
    let mut r: Vec<String> = Vec::new();
    let mut i: usize = 0;
    while i < p.len()
        invariant
            0 <= i <= p@.len(),
            r@.len() == i,
            forall|j: int| 0 <= j < i ==> r@[j] == p@[j],
        decreases p@.len() - i,
    {
        r.push(p[i].clone());
        i = i + 1;
    }
    proof {
        assert(r@ =~= p@);
    }
    r
}

/// Depth-first search of `entry`, held in the directory `parent`, for the
/// first file whose name contains `key`; returns the path of that file's
/// parent directory.
pub(crate) fn search(entry: &Entry, parent: &Vec<String>, key: &str) -> (r: Option<Vec<String>>)
    ensures
        match r {
            Some(p) => spec_search(entry@, parent.deep_view(), key@) == Some(p.deep_view()),
            None => spec_search(entry@, parent.deep_view(), key@) is None,
        },
    decreases *entry,
{
    match entry {
        Entry::File { name } => {
            proof {
                let fs = dfs_files(entry@, parent.deep_view());
                assert(fs == seq![FileRec { dir: parent.deep_view(), name: name@ }]);
                assert(fs.drop_first() =~= Seq::<FileRec>::empty());
            }
            if contains_str(name.as_str(), key) {
                Some(clone_path(parent))
            } else {
                proof {
                    assert(first_match(Seq::<FileRec>::empty(), key@) is None);
                }
                None
            }
        },
        Entry::Dir { name, entries } => {
            let mut child_parent = clone_path(parent);
            child_parent.push(name.clone());
            let ghost kids = trees_of(entries@);
            let ghost cpd = parent.deep_view().push(name@);
            proof {
                lemma_trees_of_len(entries@);
                assert(entry@ == (Tree::Dir { name: name@, entries: kids }));
                assert(child_parent.deep_view() =~= cpd);
            }
            let n = entries.len();
            let mut i: usize = 0;
            while i < n
                invariant
                    0 <= i <= n,
                    *entry is Dir,
                    (*entry)->Dir_entries == *entries,
                    n == entries@.len(),
                    n == kids.len(),
                    child_parent.deep_view() == cpd,
                    kids == trees_of(entries@),
                    entry@ == (Tree::Dir { name: name@, entries: kids }),
                    first_match(dfs_files(entry@, parent.deep_view()), key@) == first_match(
                        dfs_files_from(kids, cpd, i as int),
                        key@,
                    ),
                decreases n - i,
            {
                proof {
                    assert(decreases_to!(*entry => (*entry)->Dir_entries));
                    assert((*entry)->Dir_entries == *entries);
                    assert(decreases_to!(*entries => entries@));
                    assert(decreases_to!(entries@ => entries@[i as int]));
                }
                let r = search(&entries[i], &child_parent, key);
                proof {
                    lemma_trees_of_index(entries@, i as int);
                    assert(kids[i as int] == entries@[i as int]@);
                    assert(dfs_files_from(kids, cpd, i as int) == dfs_files(
                        kids[i as int],
                        cpd,
                    ) + dfs_files_from(kids, cpd, i as int + 1));
                    lemma_first_match_concat(
                        dfs_files(kids[i as int], cpd),
                        dfs_files_from(kids, cpd, i as int + 1),
                        key@,
                    );
                }
                match r {
                    Some(p) => {
                        return Some(p);
                    },
                    None => {},
                }
                i = i + 1;
            }
            proof {
                assert(dfs_files_from(kids, cpd, n as int) =~= Seq::<FileRec>::empty());
                assert(first_match(Seq::<FileRec>::empty(), key@) is None);
            }
            None
        },
    }
}

/// The name a tree node bears, file or directory alike.
pub open spec fn tree_name(t: Tree) -> Seq<char> {
    match t {
        Tree::File { name } => name,
        Tree::Dir { name, entries } => name,
    }
}

/// First index among `ts` holding a directory named `nm`, or `ts.len()`
/// when there is none.
pub open spec fn first_dir_ix(ts: Seq<Tree>, nm: Seq<char>) -> int
    decreases ts.len(),
{
    if ts.len() == 0 {
        0
    } else if ts[0] is Dir && ts[0]->Dir_name == nm {
        0
    } else {
        1 + first_dir_ix(ts.drop_first(), nm)
    }
}

pub proof fn lemma_first_dir_ix_is(ts: Seq<Tree>, nm: Seq<char>, k: int)
    requires
        0 <= k <= ts.len(),
        forall|j: int| 0 <= j < k ==> !(ts[j] is Dir && ts[j]->Dir_name == nm),
        k == ts.len() || (ts[k] is Dir && ts[k]->Dir_name == nm),
    ensures
        first_dir_ix(ts, nm) == k,
    decreases ts.len(),
{
    if ts.len() != 0 && !(ts[0] is Dir && ts[0]->Dir_name == nm) {
        lemma_first_dir_ix_is(ts.drop_first(), nm, k - 1);
    }
}

/// Whether some entry among `ts`, of either kind, bears the name `nm`.
pub open spec fn has_entry_named(ts: Seq<Tree>, nm: Seq<char>) -> bool {
    exists|i: int| 0 <= i < ts.len() && tree_name(ts[i]) == nm
}

/// The tree after the file `fname` is put into the directory reached by
/// the components `path[d..]`, each selecting the first subdirectory of
/// that name; the file is appended to that directory's children. A path
/// that leads nowhere, or into a file, leaves the tree unchanged.
pub open spec fn tree_insert(t: Tree, path: Seq<Seq<char>>, d: int, fname: Seq<char>) -> Tree
    decreases path.len() - d,
{
    match t {
        Tree::File { name } => t,
        Tree::Dir { name, entries } => {
            if d >= path.len() {
                Tree::Dir { name, entries: entries.push(Tree::File { name: fname }) }
            } else {
                let k = first_dir_ix(entries, path[d]);
                if k < entries.len() {
                    Tree::Dir {
                        name,
                        entries: entries.update(k, tree_insert(entries[k], path, d + 1, fname)),
                    }
                } else {
                    t
                }
            }
        },
    }
}

pub proof fn lemma_trees_of_push(es: Seq<Entry>, e: Entry)
    ensures
        trees_of(es.push(e)) == trees_of(es).push(tree_of(e)),
    decreases es.len(),
{
    if es.len() == 0 {
        assert(es.push(e)[0] == e);
        assert(es.push(e).drop_first() =~= Seq::<Entry>::empty());
        assert(trees_of(Seq::<Entry>::empty()) == Seq::<Tree>::empty());
        assert(trees_of(es.push(e)) =~= trees_of(es).push(tree_of(e)));
    } else {
        assert(es.push(e)[0] == es[0]);
        assert(es.push(e).drop_first() =~= es.drop_first().push(e));
        lemma_trees_of_push(es.drop_first(), e);
        assert(trees_of(es.push(e)) =~= trees_of(es).push(tree_of(e)));
    }
}

pub proof fn lemma_trees_of_update(es: Seq<Entry>, k: int, e: Entry)
    requires
        0 <= k < es.len(),
    ensures
        trees_of(es.update(k, e)) == trees_of(es).update(k, tree_of(e)),
    decreases es.len(),
{
    lemma_trees_of_len(es);
    if k == 0 {
        assert(es.update(0, e)[0] == e);
        assert(es.update(0, e).drop_first() =~= es.drop_first());
        assert(trees_of(es.update(0, e)) =~= trees_of(es).update(0, tree_of(e)));
    } else {
        assert(es.update(k, e)[0] == es[0]);
        assert(es.update(k, e).drop_first() =~= es.drop_first().update(k - 1, e));
        lemma_trees_of_update(es.drop_first(), k - 1, e);
        assert(trees_of(es.update(k, e)) =~= trees_of(es).update(k, tree_of(e)));
    }
}

/// A directory named `key` can be made under the root `t` when the root
/// is a directory, the key is not empty, and no child of the root bears
/// that name already.
pub open spec fn spec_can_create(t: Tree, key: Seq<char>) -> bool {
    &&& t is Dir
    &&& key.len() > 0
    &&& !has_entry_named(t->Dir_entries, key)
}

/// The name `e` bears, file or directory alike.
fn entry_name(e: &Entry) -> (r: &String)
    ensures
        r@ == tree_name(e@),
{
    match e {
        Entry::File { name } => name,
        Entry::Dir { name, entries } => name,
    }
}

/// Whether some child among `entries`, of either kind, bears the name
/// `nm`.
pub fn has_child_named(entries: &Vec<Entry>, nm: &String) -> (r: bool)
    ensures
        r == has_entry_named(trees_of(entries@), nm@),
{
    let ghost kids = trees_of(entries@);
    proof {
        lemma_trees_of_len(entries@);
    }
    let n = entries.len();
    let mut i: usize = 0;
    while i < n
        invariant
            0 <= i <= n,
            n == entries@.len(),
            n == kids.len(),
            kids == trees_of(entries@),
            forall|j: int| 0 <= j < i ==> tree_name(kids[j]) != nm@,
        decreases n - i,
    {
        proof {
            lemma_trees_of_index(entries@, i as int);
        }
        if entry_name(&entries[i]).eq(nm) {
            proof {
                assert(tree_name(kids[i as int]) == nm@);
            }
            return true;
        }
        i = i + 1;
    }
    proof {
        assert forall|j: int| 0 <= j < kids.len() implies tree_name(kids[j]) != nm@ by {}
    }
    false
}

/// Whether `e` is a directory bearing the name `nm`.
fn is_dir_named(e: &Entry, nm: &String) -> (r: bool)
    ensures
        r == (e@ is Dir && e@->Dir_name == nm@),
{
    match e {
        Entry::Dir { name, entries } => name.eq(nm),
        Entry::File { name } => false,
    }
}

/// `e` with the file `fname` inserted into the directory reached by the
/// path components `path[d..]`.
pub fn insert_file(e: Entry, path: &Vec<String>, d: usize, fname: String) -> (r: Entry)
    ensures
        r@ == tree_insert(e@, path.deep_view(), d as int, fname@),
    decreases path@.len() - d,
{
    let ghost t0 = e@;
    let ghost pd = path.deep_view();
    let ghost fn0 = fname@;
    match e {
        Entry::File { name } => Entry::File { name },
        Entry::Dir { name, mut entries } => {
            let ghost es0 = entries@;
            let ghost kids = trees_of(es0);
            proof {
                lemma_trees_of_len(es0);
                assert(t0 == (Tree::Dir { name: name@, entries: kids }));
            }
            if d >= path.len() {
                entries.push(Entry::File { name: fname });
                proof {
                    lemma_trees_of_push(es0, Entry::File { name: fname });
                }
                Entry::Dir { name, entries }
            } else {
                let d1 = d + 1;
                let n = entries.len();
                let mut k: usize = 0;
                while k < n
                    invariant
                        0 <= k <= n,
                        n == entries@.len(),
                        n == kids.len(),
                        es0 == entries@,
                        kids == trees_of(entries@),
                        t0 == (Tree::Dir { name: name@, entries: kids }),
                        e@ == t0,
                        fn0 == fname@,
                        pd == path.deep_view(),
                        d1 == d + 1,
                        (d as int) < pd.len(),
                        pd.len() == path@.len(),
                        pd[d as int] == path@[d as int]@,
                        forall|j: int|
                            0 <= j < k ==> !(kids[j] is Dir && kids[j]->Dir_name == pd[d as int]),
                    decreases n - k,
                {
                    proof {
                        lemma_trees_of_index(es0, k as int);
                    }
                    if is_dir_named(&entries[k], &path[d]) {
                        proof {
                            lemma_first_dir_ix_is(kids, pd[d as int], k as int);
                        }
                        let child = entries.remove(k);
                        let child2 = insert_file(child, path, d1, fname);
                        entries.insert(k, child2);
                        proof {
                            assert(entries@ =~= es0.update(k as int, child2));
                            lemma_trees_of_update(es0, k as int, child2);
                        }
                        return Entry::Dir { name, entries };
                    }
                    k = k + 1;
                }
                proof {
                    lemma_first_dir_ix_is(kids, pd[d as int], n as int);
                }
                Entry::Dir { name, entries }
            }
        },
    }
}

} // verus!

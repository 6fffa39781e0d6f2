//! The placement engine. Given a listing of the source directory and the
//! destination tree, it decides for every file with a configured
//! extension what it is renamed to, which directory receives it, and
//! which directory has to be created first, and it threads the effect of
//! every move through the tree model.

use vstd::prelude::*;
use vstd::string::*;

use crate::config::Config;
use crate::paths::change_file_name;
use crate::paths::spec_change_file_name;
use crate::paths::spec_ext_of;
use crate::paths::spec_set_ext;
use crate::paths::extension_of;
use crate::paths::with_extension;
use crate::text::find_char;
use crate::text::first_ix;
use crate::text::lemma_first_ix;
use crate::text::lemma_first_ix_is;
use crate::text::lemma_trim_idempotent;
use crate::text::trim;
use crate::text::trim_spec;
use crate::text::two_word_key;
use crate::text::two_word_key_of;
use crate::tree::Entry;
use crate::tree::Tree;
use crate::tree::has_child_named;
use crate::tree::search;
use crate::tree::spec_can_create;
use crate::tree::clone_path;
use crate::tree::insert_file;
use crate::tree::lemma_trees_of_len;
use crate::tree::lemma_trees_of_push;
use crate::tree::spec_search;
use crate::tree::tree_insert;
use crate::tree::tree_name;
use crate::tree::tree_of;
use crate::tree::trees_of;

verus! {

/// The placement engine's configuration: source and target directory
/// paths, the extensions a candidate file may have, and whether bracketed
/// prefixes stay on the files.
pub struct Sorter {
    pub src: String,
    pub target: String,
    pub ext: Vec<String>,
    pub keep: bool,
}

/// Where a file was decided to go: an existing directory that holds a
/// similarly named file, or one freshly created from the file's
/// directory key.
pub enum Placement {
    Existing { dir: Vec<String> },
    Created { dir: Vec<String> },
}

/// A file could not be placed: no existing directory matched and none
/// could be created. Carries the file's name, where it sat, and the
/// destination root.
#[derive(Debug)]
pub struct PlaceError {
    pub name: String,
    pub from: String,
    pub target: String,
}

/// One filesystem effect the engine decided on: a rename within the
/// source directory, a directory creation under the target root, or a
/// move of a file into a directory of the tree.
#[derive(Debug)]
pub enum Action {
    Rename { from: String, to: String },
    MkDir { dir: Vec<String> },
    Move { from: String, dir: Vec<String> },
}

/// The mathematical shape of an `Action`.
pub ghost enum ActModel {
    Rename { from: Seq<char>, to: Seq<char> },
    MkDir { dir: Seq<Seq<char>> },
    Move { from: Seq<char>, dir: Seq<Seq<char>> },
}

pub open spec fn act_of(a: Action) -> ActModel {
    match a {
        Action::Rename { from, to } => ActModel::Rename { from: from@, to: to@ },
        Action::MkDir { dir } => ActModel::MkDir { dir: dir.deep_view() },
        Action::Move { from, dir } => ActModel::Move { from: from@, dir: dir.deep_view() },
    }
}

pub open spec fn acts_of(v: Seq<Action>) -> Seq<ActModel> {
    v.map_values(|a: Action| act_of(a))
}

/// The bracketed prefix of a name: the first `[` through the first `]`,
/// present exactly when both occur and the `[` comes first.
pub open spec fn spec_prefix(s: Seq<char>) -> Option<Seq<char>> {
    let o = first_ix(s, '[');
    let c = first_ix(s, ']');
    if o < s.len() && c < s.len() && o < c {
        Some(s.subrange(o, c + 1))
    } else {
        None
    }
}

/// A name with its bracketed prefix removed: when the prefix sits at the
/// very start it is cut off and the rest is trimmed; a prefix elsewhere
/// only triggers trimming; a name without a prefix stays untouched.
pub open spec fn spec_remove_prefix(s: Seq<char>) -> Seq<char> {
    match spec_prefix(s) {
        Some(p) => if first_ix(s, '[') == 0 {
            trim_spec(s.skip(p.len() as int))
        } else {
            trim_spec(s)
        },
        None => s,
    }
}

/// The directory key derived from a name: the text before the first `-`,
/// else before the first `.`, trimmed; the whole name when it has
/// neither.
pub open spec fn spec_dir_key(s: Seq<char>) -> Seq<char> {
    if first_ix(s, '-') < s.len() {
        trim_spec(s.take(first_ix(s, '-')))
    } else if first_ix(s, '.') < s.len() {
        trim_spec(s.take(first_ix(s, '.')))
    } else {
        s
    }
}

/// The key a name is matched with against the destination tree: prefix
/// removed, cut down to the directory key, reduced to its first two
/// words.
pub open spec fn spec_match_key(name: Seq<char>) -> Seq<char> {
    two_word_key(spec_dir_key(spec_remove_prefix(name)))
}

/// Prefix extraction: in a name whose first `[` stands before its first
/// `]`, the prefix is exactly the span from that `[` through that `]`,
/// both included.
pub proof fn law_prefix_extraction(s: Seq<char>, i: int, j: int)
    requires
        0 <= i < s.len() && s[i] == '[',
        forall|k: int| 0 <= k < i ==> s[k] != '[',
        i < j < s.len() && s[j] == ']',
        forall|k: int| 0 <= k < j ==> s[k] != ']',
    ensures
        spec_prefix(s) == Some(s.subrange(i, j + 1)),
{
    lemma_first_ix_is(s, '[', i);
    lemma_first_ix_is(s, ']', j);
}

/// Prefix extraction: a name without a `[`, or without a `]`, has no
/// prefix.
pub proof fn law_prefix_absent(s: Seq<char>)
    requires
        (forall|k: int| 0 <= k < s.len() ==> s[k] != '[') || (forall|k: int|
            0 <= k < s.len() ==> s[k] != ']'),
    ensures
        spec_prefix(s) is None,
{
    lemma_first_ix(s, '[');
    lemma_first_ix(s, ']');
    if forall|k: int| 0 <= k < s.len() ==> s[k] != '[' {
        lemma_first_ix_is(s, '[', s.len() as int);
    } else {
        lemma_first_ix_is(s, ']', s.len() as int);
    }
}

/// Prefix removal is idempotent on every name whose once-stripped form
/// does not itself begin with a bracket pair: removing the prefix a
/// second time changes nothing.
pub proof fn law_strip_idempotent(x: Seq<char>)
    requires
        !(spec_prefix(spec_remove_prefix(x)) is Some && first_ix(spec_remove_prefix(x), '[') == 0),
    ensures
        spec_remove_prefix(spec_remove_prefix(x)) == spec_remove_prefix(x),
{
    let y = spec_remove_prefix(x);
    match spec_prefix(x) {
        None => {
            assert(y == x);
        },
        Some(p) => {
            assert(y == trim_spec(x.skip(p.len() as int)) || y == trim_spec(x));
            match spec_prefix(y) {
                None => {},
                Some(q) => {
                    if first_ix(x, '[') == 0 {
                        lemma_trim_idempotent(x.skip(p.len() as int));
                    } else {
                        lemma_trim_idempotent(x);
                    }
                },
            }
        },
    }
}

/// Whether some action of a step is a rename.
pub open spec fn has_rename(acts: Seq<ActModel>) -> bool {
    exists|k: int| 0 <= k < acts.len() && acts[k] is Rename
}

/// Keeping prefixes means no file is renamed, and the name handled is
/// the original one; stripping them makes the first action of every
/// handled file the rename to its display name.
pub proof fn law_keep_prefix(
    src: Seq<char>,
    exts: Seq<Seq<char>>,
    name: Seq<char>,
    t: Tree,
)
    ensures
        !has_rename(spec_place(src, exts, true, name, t).actions),
        spec_display_name(name, true) == name,
        spec_ext_matches(exts, name) ==> spec_place(src, exts, false, name, t).actions[0]
            == (ActModel::Rename {
            from: src + seq!['/'] + name,
            to: src + seq!['/'] + spec_display_name(name, false),
        }),
{
    let st = spec_place(src, exts, true, name, t);
    if spec_ext_matches(exts, name) {
        let none: Seq<ActModel> = Seq::empty();
        match spec_search(t, Seq::empty(), spec_match_key(name)) {
            Some(p) => {
                assert(st.actions =~= seq![ActModel::Move { from: src + seq!['/'] + name, dir: p }]);
            },
            None => {
                let ck = spec_dir_key(name);
                if spec_can_create(t, ck) {
                    let dirp = seq![tree_name(t), ck];
                    assert(st.actions =~= seq![
                        ActModel::MkDir { dir: dirp },
                        ActModel::Move { from: src + seq!['/'] + name, dir: dirp },
                    ]);
                } else {
                    assert(st.actions =~= none);
                }
            },
        }
        let stf = spec_place(src, exts, false, name, t);
        let disp = spec_display_name(name, false);
        let ren = ActModel::Rename { from: src + seq!['/'] + name, to: src + seq!['/'] + disp };
        assert(stf.actions[0] == ren) by {
            assert((seq![ren] + seq![ActModel::Move {
                from: src + seq!['/'] + disp,
                dir: spec_search(t, Seq::empty(), spec_match_key(disp))->0,
            }])[0] == ren);
        }
    } else {
        assert(st.actions =~= Seq::<ActModel>::empty());
    }
}

/// A run over a listing in which no name carries a configured extension
/// succeeds, moves nothing, decides no action, and leaves the tree as it
/// was.
pub proof fn law_no_matching_extension(
    src: Seq<char>,
    exts: Seq<Seq<char>>,
    keep: bool,
    names: Seq<Seq<char>>,
    i: int,
    t: Tree,
)
    requires
        forall|j: int| 0 <= j < names.len() ==> !spec_ext_matches(exts, #[trigger] names[j]),
    ensures
        ({
            let m = run_model(src, exts, keep, names, i, t);
            &&& m.failed is None
            &&& m.actions == Seq::<ActModel>::empty()
            &&& m.tree == t
            &&& !m.moved_any
        }),
    decreases names.len() - i,
{
    if 0 <= i < names.len() {
        law_no_matching_extension(src, exts, keep, names, i + 1, t);
        assert(Seq::<ActModel>::empty() + Seq::<ActModel>::empty() =~= Seq::<ActModel>::empty());
    }
}

/// Whether `name` carries one of the configured extensions.
pub open spec fn spec_ext_matches(exts: Seq<Seq<char>>, name: Seq<char>) -> bool {
    match spec_ext_of(name) {
        Some(e) => exts.contains(e),
        None => false,
    }
}

/// The name a candidate file bears once it is processed: unchanged when
/// prefixes are kept, else the prefix-stripped name with the original
/// extension re-applied.
pub open spec fn spec_display_name(name: Seq<char>, keep: bool) -> Seq<char> {
    if keep {
        name
    } else {
        match spec_ext_of(name) {
            Some(e) => spec_set_ext(spec_remove_prefix(name), e),
            None => spec_remove_prefix(name),
        }
    }
}

/// What handling one source entry comes to: the actions it implies, the
/// tree afterwards, whether a file was moved, and whether placement
/// failed.
pub ghost struct StepModel {
    pub actions: Seq<ActModel>,
    pub tree: Tree,
    pub moved: bool,
    pub failed: bool,
}

/// The handling of one source entry named `name` against the tree `t`:
/// skipped unless its extension is among `exts`; otherwise renamed to
/// its display name (unless `keep`), then moved into the first matching
/// directory, else into a freshly created one, else failed.
pub open spec fn spec_place(
    src: Seq<char>,
    exts: Seq<Seq<char>>,
    keep: bool,
    name: Seq<char>,
    t: Tree,
) -> StepModel {
    if !spec_ext_matches(exts, name) {
        StepModel { actions: Seq::empty(), tree: t, moved: false, failed: false }
    } else {
        let disp = spec_display_name(name, keep);
        let ren: Seq<ActModel> = if keep {
            Seq::empty()
        } else {
            seq![ActModel::Rename { from: src + seq!['/'] + name, to: src + seq!['/'] + disp }]
        };
        let cur = src + seq!['/'] + disp;
        match spec_search(t, Seq::empty(), spec_match_key(disp)) {
            Some(p) => StepModel {
                actions: ren + seq![ActModel::Move { from: cur, dir: p }],
                tree: tree_insert(t, p, 1, disp),
                moved: true,
                failed: false,
            },
            None => {
                let ck = spec_dir_key(disp);
                if spec_can_create(t, ck) {
                    let dirp = seq![tree_name(t), ck];
                    StepModel {
                        actions: ren + seq![
                            ActModel::MkDir { dir: dirp },
                            ActModel::Move { from: cur, dir: dirp },
                        ],
                        tree: Tree::Dir {
                            name: t->Dir_name,
                            entries: t->Dir_entries.push(
                                Tree::Dir { name: ck, entries: seq![Tree::File { name: disp }] },
                            ),
                        },
                        moved: true,
                        failed: false,
                    }
                } else {
                    StepModel { actions: ren, tree: t, moved: false, failed: true }
                }
            },
        }
    }
}

/// What a whole run comes to, starting at entry `i` of `names` with the
/// tree `t`: the actions of every entry in order, each move threaded
/// through the tree, cut short at the first failed placement.
pub open spec fn run_model(
    src: Seq<char>,
    exts: Seq<Seq<char>>,
    keep: bool,
    names: Seq<Seq<char>>,
    i: int,
    t: Tree,
) -> RunModel
    decreases names.len() - i,
{
    if i < 0 || i >= names.len() {
        RunModel { actions: Seq::empty(), tree: t, moved_any: false, failed: None }
    } else {
        let st = spec_place(src, exts, keep, names[i], t);
        if st.failed {
            RunModel {
                actions: st.actions,
                tree: st.tree,
                moved_any: false,
                failed: Some(spec_display_name(names[i], keep)),
            }
        } else {
            let rest = run_model(src, exts, keep, names, i + 1, st.tree);
            RunModel {
                actions: st.actions + rest.actions,
                tree: rest.tree,
                moved_any: st.moved || rest.moved_any,
                failed: rest.failed,
            }
        }
    }
}

pub ghost struct RunModel {
    pub actions: Seq<ActModel>,
    pub tree: Tree,
    pub moved_any: bool,
    pub failed: Option<Seq<char>>,
}

/// What handling one source entry produced: the implied actions, the
/// tree they leave, whether the entry was moved, and the placement
/// failure when there was one.
pub struct PlaceOutcome {
    pub actions: Vec<Action>,
    pub tree: Entry,
    pub moved: bool,
    pub error: Option<PlaceError>,
}

/// A finished run: every action in order, the final tree, and whether
/// any file at all was moved.
pub struct SortRun {
    pub actions: Vec<Action>,
    pub tree: Entry,
    pub moved_any: bool,
}

/// A run stopped by a failed placement: the failure, and the actions
/// decided before it, which stay in force.
#[derive(Debug)]
pub struct SortError {
    pub error: PlaceError,
    pub actions: Vec<Action>,
}

pub proof fn lemma_acts_of_concat(a: Seq<Action>, b: Seq<Action>)
    ensures
        acts_of(a + b) == acts_of(a) + acts_of(b),
{
    assert(acts_of(a + b) =~= acts_of(a) + acts_of(b));
}

/// `dir` and `name` joined with a single separator.
pub fn join_path(dir: &str, name: &str) -> (r: String)
    ensures
        r@ == dir@ + seq!['/'] + name@,
{
    proof {
        reveal_strlit("/");
    }
    let mut r = String::from_str(dir);
    r.append("/");
    r.append(name);
    proof {
        assert(r@ =~= dir@ + seq!['/'] + name@);
    }
    r
}

/// Whether `v` holds a string equal to `e`.
fn contains_string(v: &Vec<String>, e: &String) -> (r: bool)
    ensures
        r == v.deep_view().contains(e@),
{
    let n = v.len();
    let mut i: usize = 0;
    while i < n
        invariant
            0 <= i <= n,
            n == v@.len(),
            forall|j: int| 0 <= j < i ==> v@[j]@ != e@,
        decreases n - i,
    {
        if v[i].eq(e) {
            proof {
                assert(v.deep_view()[i as int] == e@);
            }
            return true;
        }
        i = i + 1;
    }
    proof {
        assert forall|j: int| 0 <= j < v.deep_view().len() implies v.deep_view()[j] != e@ by {
            assert(v.deep_view()[j] == v@[j]@);
        }
    }
    false
}

impl Sorter {
    /// The bracketed prefix of `value`, when it has one.
    pub fn get_file_prefix(value: &str) -> (r: Option<String>)
        ensures
            match r {
                Some(p) => spec_prefix(value@) == Some(p@),
                None => spec_prefix(value@) is None,
            },
    {
        let n = value.unicode_len();
        let o = find_char(value, '[');
        let c = find_char(value, ']');
        if o < n && c < n && o < c {
            Some(String::from_str(value.substring_char(o, c + 1)))
        } else {
            None
        }
    }

    /// `value` with its bracketed prefix removed and the rest trimmed;
    /// `value` itself when it has no prefix.
    pub fn remove_prefix(value: &str) -> (r: String)
        ensures
            r@ == spec_remove_prefix(value@),
    {
        let n = value.unicode_len();
        let o = find_char(value, '[');
        let c = find_char(value, ']');
        if o < n && c < n && o < c {
            if o == 0 {
                let rest = value.substring_char(c + 1, n);
                proof {
                    assert(rest@ =~= value@.skip(c + 1));
                }
                trim(rest)
            } else {
                trim(value)
            }
        } else {
            String::from_str(value)
        }
    }

    /// The name a freshly created directory gets: the text of `file_name`
    /// before the first `-`, else before the first `.`, trimmed.
    pub fn get_new_dir_name_from(file_name: &str) -> (r: String)
        ensures
            r@ == spec_dir_key(file_name@),
    {
        let n = file_name.unicode_len();
        let d = find_char(file_name, '-');
        if d < n {
            let head = file_name.substring_char(0, d);
            proof {
                assert(head@ =~= file_name@.take(d as int));
            }
            return trim(head);
        }
        let p = find_char(file_name, '.');
        if p < n {
            let head = file_name.substring_char(0, p);
            proof {
                assert(head@ =~= file_name@.take(p as int));
            }
            return trim(head);
        }
        String::from_str(file_name)
    }

    /// `path` with its file name replaced by `name`, keeping the original
    /// extension.
    pub fn get_new_path(path: &str, name: &str) -> (r: String)
        ensures
            r@ == spec_change_file_name(path@, name@),
    {
        change_file_name(path, name)
    }

    /// Depth-first search of the tree `path`, held in the directory
    /// `parent`, for the first file whose name contains `name`; returns
    /// the path of that file's parent directory.
    pub fn find_similarly_named_in(path: &Entry, parent: &Vec<String>, name: &str) -> (r: Option<
        Vec<String>,
    >)
        ensures
            match r {
                Some(p) => spec_search(path@, parent.deep_view(), name@) == Some(p.deep_view()),
                None => spec_search(path@, parent.deep_view(), name@) is None,
            },
    {
        search(path, parent, name)
    }

    /// Searches the destination tree `dir`, held at `base`, for a
    /// directory holding a file similar to `name`: the match key is
    /// `name` with its prefix removed, cut down to the directory key and
    /// reduced to two words.
    pub fn find_in_dir(dir: &Entry, base: &Vec<String>, name: &str) -> (r: Option<Vec<String>>)
        ensures
            match r {
                Some(p) => spec_search(dir@, base.deep_view(), spec_match_key(name@)) == Some(
                    p.deep_view(),
                ),
                None => spec_search(dir@, base.deep_view(), spec_match_key(name@)) is None,
            },
    {
        let stripped = Sorter::remove_prefix(name);
        let dir_name = Sorter::get_new_dir_name_from(stripped.as_str());
        let key = two_word_key_of(dir_name.as_str());
        Sorter::find_similarly_named_in(dir, base, key.as_str())
    }

    /// Decides where the file `name`, currently at `from`, goes in the
    /// destination tree: into the directory holding the first similarly
    /// named file, else into a freshly created directory named after the
    /// file's directory key; fails when neither exists. Returns the
    /// decision and the tree as the move leaves it.
    pub fn move_to_dir(&self, name: &str, from: &str, tree: Entry) -> (r: (
        Result<Placement, PlaceError>,
        Entry,
    ))
        ensures
            ({
                let found = spec_search(tree@, Seq::empty(), spec_match_key(name@));
                let ck = spec_dir_key(name@);
                match r.0 {
                    Ok(Placement::Existing { dir }) => found == Some(dir.deep_view()) && r.1@
                        == tree_insert(tree@, dir.deep_view(), 1, name@),
                    Ok(Placement::Created { dir }) => found is None && spec_can_create(tree@, ck)
                        && dir.deep_view() == seq![tree_name(tree@), ck] && r.1@ == (Tree::Dir {
                        name: tree@->Dir_name,
                        entries: tree@->Dir_entries.push(
                            Tree::Dir { name: ck, entries: seq![Tree::File { name: name@ }] },
                        ),
                    }),
                    Err(e) => found is None && !spec_can_create(tree@, ck) && r.1@ == tree@
                        && e.name@ == name@ && e.from@ == from@ && e.target@ == self.target@,
                }
            }),
    {
        let base: Vec<String> = Vec::new();
        proof {
            assert(base.deep_view() =~= Seq::<Seq<char>>::empty());
        }
        match Sorter::find_in_dir(&tree, &base, name) {
            Some(dir) => {
                let dir2 = clone_path(&dir);
                let t2 = insert_file(tree, &dir2, 1, String::from_str(name));
                (Ok(Placement::Existing { dir }), t2)
            },
            None => {
                let key = Sorter::get_new_dir_name_from(name);
                let ghost ck = key@;
                match tree {
                    Entry::Dir { name: rn, mut entries } => {
                        let ghost es0 = entries@;
                        let ghost kids = trees_of(es0);
                        proof {
                            lemma_trees_of_len(es0);
                        }
                        if key.as_str().unicode_len() > 0 && !has_child_named(&entries, &key) {
                            let mut inner: Vec<Entry> = Vec::new();
                            inner.push(Entry::File { name: String::from_str(name) });
                            proof {
                                assert(tree_of(inner@[0]) == (Tree::File { name: name@ }));
                                assert(inner@.drop_first() =~= Seq::<Entry>::empty());
                                assert(trees_of(Seq::<Entry>::empty()) == Seq::<Tree>::empty());
                                assert(trees_of(inner@) == seq![tree_of(inner@[0])] + trees_of(
                                    inner@.drop_first(),
                                ));
                                assert(trees_of(inner@) =~= seq![Tree::File { name: name@ }]);
                            }
                            let mut dir_path: Vec<String> = Vec::new();
                            dir_path.push(rn.clone());
                            dir_path.push(key.clone());
                            let sub = Entry::Dir { name: key, entries: inner };
                            proof {
                                assert(sub@ == (Tree::Dir {
                                    name: ck,
                                    entries: seq![Tree::File { name: name@ }],
                                }));
                                lemma_trees_of_push(es0, sub);
                                assert(dir_path.deep_view() =~= seq![rn@, ck]);
                            }
                            entries.push(sub);
                            (
                                Ok(Placement::Created { dir: dir_path }),
                                Entry::Dir { name: rn, entries },
                            )
                        } else {
                            (
                                Err(
                                    PlaceError {
                                        name: String::from_str(name),
                                        from: String::from_str(from),
                                        target: self.target.clone(),
                                    },
                                ),
                                Entry::Dir { name: rn, entries },
                            )
                        }
                    },
                    Entry::File { name: root_file } => {
                        (
                            Err(
                                PlaceError {
                                    name: String::from_str(name),
                                    from: String::from_str(from),
                                    target: self.target.clone(),
                                },
                            ),
                            Entry::File { name: root_file },
                        )
                    },
                }
            },
        }
    }

    /// Handles one source entry against the tree: skipped unless its
    /// extension is configured; otherwise the prefix is stripped (unless
    /// prefixes are kept) and a destination is decided, yielding the
    /// filesystem actions this implies and the tree as they leave it.
    pub fn place_file(&self, name: &str, tree: Entry) -> (r: PlaceOutcome)
        ensures
            ({
                let st = spec_place(self.src@, self.ext.deep_view(), self.keep, name@, tree@);
                &&& acts_of(r.actions@) == st.actions
                &&& r.tree@ == st.tree
                &&& r.moved == st.moved
                &&& (r.error is Some <==> st.failed)
                &&& match r.error {
                    Some(e) => e.name@ == spec_display_name(name@, self.keep) && e.from@
                        == self.src@ + seq!['/'] + spec_display_name(name@, self.keep) && e.target@
                        == self.target@,
                    None => true,
                }
            }),
    {
        let ext = extension_of(name);
        let matched = match &ext {
            Some(e) => contains_string(&self.ext, e),
            None => false,
        };
        if !matched {
            proof {
                assert(acts_of(Seq::<Action>::empty()) =~= Seq::<ActModel>::empty());
            }
            return PlaceOutcome { actions: Vec::new(), tree, moved: false, error: None };
        }
        let disp: String;
        if self.keep {
            disp = String::from_str(name);
        } else {
            let stripped = Sorter::remove_prefix(name);
            disp = match &ext {
                Some(e) => with_extension(stripped.as_str(), e.as_str()),
                None => stripped,
            };
        }
        let cur_path = join_path(self.src.as_str(), disp.as_str());
        let mut actions: Vec<Action> = Vec::new();
        if !self.keep {
            let from_path = join_path(self.src.as_str(), name);
            actions.push(Action::Rename { from: from_path, to: cur_path.clone() });
        }
        let ghost ren = acts_of(actions@);
        let (res, t2) = self.move_to_dir(disp.as_str(), cur_path.as_str(), tree);
        match res {
            Ok(Placement::Existing { dir }) => {
                actions.push(Action::Move { from: cur_path, dir });
                proof {
                    assert(acts_of(actions@) =~= ren + seq![acts_of(actions@).last()]);
                }
                PlaceOutcome { actions, tree: t2, moved: true, error: None }
            },
            Ok(Placement::Created { dir }) => {
                let dir2 = clone_path(&dir);
                actions.push(Action::MkDir { dir: dir2 });
                actions.push(Action::Move { from: cur_path, dir });
                proof {
                    let k = acts_of(actions@).len();
                    assert(acts_of(actions@) =~= ren + seq![
                        acts_of(actions@)[k - 2],
                        acts_of(actions@)[k - 1],
                    ]);
                }
                PlaceOutcome { actions, tree: t2, moved: true, error: None }
            },
            Err(e) => PlaceOutcome { actions, tree: t2, moved: false, error: Some(e) },
        }
    }

    /// Processes every name of `listing` in order against the tree:
    /// entries without a configured extension are skipped; every other
    /// file is renamed to its display name (unless prefixes are kept)
    /// and moved where the tree search or directory creation decides,
    /// each move visible to the searches after it. The first file that
    /// can be neither matched nor given a fresh directory stops the run;
    /// the actions decided before it stay in force.
    pub fn sort(&self, listing: &Vec<String>, tree: Entry) -> (r: Result<SortRun, SortError>)
        ensures
            ({
                let m = run_model(
                    self.src@,
                    self.ext.deep_view(),
                    self.keep,
                    listing.deep_view(),
                    0,
                    tree@,
                );
                match r {
                    Ok(run) => m.failed is None && acts_of(run.actions@) == m.actions && run.tree@
                        == m.tree && run.moved_any == m.moved_any,
                    Err(e) => m.failed == Some(e.error.name@) && acts_of(e.actions@) == m.actions
                        && e.error.from@ == self.src@ + seq!['/'] + e.error.name@
                        && e.error.target@ == self.target@,
                }
            }),
    {
        let ghost names = listing.deep_view();
        let ghost tv0 = tree@;
        let mut t = tree;
        let mut actions: Vec<Action> = Vec::new();
        let mut moved_any = false;
        let n = listing.len();
        let mut i: usize = 0;
        proof {
            assert(acts_of(Seq::<Action>::empty()) =~= Seq::<ActModel>::empty());
        }
        while i < n
            invariant
                0 <= i <= n,
                n == listing@.len(),
                names == listing.deep_view(),
                names.len() == n,
                tv0 == tree@,
                ({
                    let m = run_model(self.src@, self.ext.deep_view(), self.keep, names, 0, tv0);
                    let rest = run_model(
                        self.src@,
                        self.ext.deep_view(),
                        self.keep,
                        names,
                        i as int,
                        t@,
                    );
                    &&& m.failed == rest.failed
                    &&& m.actions == acts_of(actions@) + rest.actions
                    &&& m.tree == rest.tree
                    &&& m.moved_any == (moved_any || rest.moved_any)
                }),
            decreases n - i,
        {
            let ghost tprev = t@;
            let step = self.place_file(listing[i].as_str(), t);
            let PlaceOutcome { actions: mut step_actions, tree: t_next, moved, error } = step;
            let ghost sa0 = step_actions@;
            let ghost acts_before = actions@;
            actions.append(&mut step_actions);
            t = t_next;
            proof {
                assert(names[i as int] == listing@[i as int]@);
                let src_v = self.src@;
                let exts = self.ext.deep_view();
                let kp = self.keep;
                let st = spec_place(src_v, exts, kp, names[i as int], tprev);
                let rest_prev = run_model(src_v, exts, kp, names, i as int, tprev);
                let rest_next = run_model(src_v, exts, kp, names, i as int + 1, st.tree);
                lemma_acts_of_concat(acts_before, sa0);
                assert(acts_of(sa0) == st.actions);
                if st.failed {
                    assert(rest_prev == (RunModel {
                        actions: st.actions,
                        tree: st.tree,
                        moved_any: false,
                        failed: Some(spec_display_name(names[i as int], kp)),
                    }));
                } else {
                    assert(rest_prev == (RunModel {
                        actions: st.actions + rest_next.actions,
                        tree: rest_next.tree,
                        moved_any: st.moved || rest_next.moved_any,
                        failed: rest_next.failed,
                    }));
                    assert(acts_of(acts_before) + (st.actions + rest_next.actions) =~= (acts_of(
                        acts_before,
                    ) + st.actions) + rest_next.actions);
                }
            }
            if moved {
                moved_any = true;
            }
            match error {
                Some(e) => {
                    return Err(SortError { error: e, actions });
                },
                None => {},
            }
            i = i + 1;
        }
        proof {
            let rest = run_model(self.src@, self.ext.deep_view(), self.keep, names, n as int, t@);
            assert(rest.actions == Seq::<ActModel>::empty());
            assert(acts_of(actions@) + rest.actions =~= acts_of(actions@));
        }
        Ok(SortRun { actions, tree: t, moved_any })
    }

    /// Builds the engine from a resolved configuration.
    pub fn from_config(config: Config) -> (r: Self)
        ensures
            r.src == config.src,
            r.target == config.target,
            r.ext == config.ext,
            r.keep == config.keep,
    {
        Sorter { src: config.src, target: config.target, ext: config.ext, keep: config.keep }
    }
}

} // verus!

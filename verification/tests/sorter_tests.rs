use media_sorter::config::Config;
use media_sorter::config::Opts;
use media_sorter::sorter::Action;
use media_sorter::sorter::Sorter;
use media_sorter::tree::Entry;

fn file(name: &str) -> Entry {
    Entry::File { name: String::from(name) }
}

fn dir(name: &str, entries: Vec<Entry>) -> Entry {
    Entry::Dir { name: String::from(name), entries }
}

fn path(components: &[&str]) -> Vec<String> {
    components.iter().map(|c| String::from(*c)).collect()
}

/// The names of the entries of the directory reached by `at` (relative
/// to the root itself), in order.
fn names_under<'a>(root: &'a Entry, at: &[&str]) -> Vec<String> {
    let mut node = root;
    for c in at {
        match node {
            Entry::Dir { entries, .. } => {
                node = entries
                    .iter()
                    .find(|e| match e {
                        Entry::Dir { name, .. } => name == c,
                        Entry::File { name } => name == c,
                    })
                    .expect("path component not found");
            },
            Entry::File { .. } => panic!("descended into a file"),
        }
    }
    match node {
        Entry::Dir { entries, .. } => entries
            .iter()
            .map(|e| match e {
                Entry::Dir { name, .. } => name.clone(),
                Entry::File { name } => name.clone(),
            })
            .collect(),
        Entry::File { .. } => panic!("path names a file"),
    }
}

fn sorter(src: &str, target: &str, ext: &[&str], keep: bool) -> Sorter {
    let config = Config::from_opts(
        Opts {
            src: Some(String::from(src)),
            target: Some(String::from(target)),
            ext: Some(ext.iter().map(|e| String::from(*e)).collect()),
            keep,
        },
        None,
        None,
        None,
    )
    .unwrap();
    Sorter::from_config(config)
}

#[test]
fn remove_prefix_when_present() {
    let value = "[dasd]after_bracket";
    let value = Sorter::remove_prefix(value);
    assert_eq!(value, "after_bracket");
}

#[test]
fn remove_prefix_when_not_present() {
    let value = "after_bracket";
    let value = Sorter::remove_prefix(value);
    assert_eq!(value, "after_bracket");
}

#[test]
fn removes_prefix_when_keep_is_false() {
    let value = "[prefix]removes_prefix.txt";
    let s = sorter("temp", "temp", &["txt"], false);
    let run = s.sort(&vec![String::from(value)], dir("removes", vec![])).unwrap();

    // The file is renamed before it is moved, extension preserved.
    match &run.actions[0] {
        Action::Rename { from, to } => {
            assert_eq!(from, "temp/[prefix]removes_prefix.txt");
            assert_eq!(to, "temp/removes_prefix.txt");
        },
        _ => panic!("expected a rename first"),
    }
    // A directory named after the stripped file appears in the tree.
    assert_eq!(names_under(&run.tree, &[]), vec![String::from("removes_prefix")]);
    assert_eq!(
        names_under(&run.tree, &["removes_prefix"]),
        vec![String::from("removes_prefix.txt")]
    );
}

#[test]
fn keeps_prefix_when_keep_is_true() {
    let value = "[prefix]keeps_prefix.txt";
    let s = sorter("temp", "temp", &["txt"], true);
    let run = s.sort(&vec![String::from(value)], dir("keeps", vec![])).unwrap();

    // No rename happens; the new directory carries the full name's key.
    assert!(run.actions.iter().all(|a| !matches!(a, Action::Rename { .. })));
    assert_eq!(names_under(&run.tree, &[]), vec![String::from("[prefix]keeps_prefix")]);
    assert_eq!(
        names_under(&run.tree, &["[prefix]keeps_prefix"]),
        vec![String::from("[prefix]keeps_prefix.txt")]
    );
}

#[test]
fn sorts_multiple_files_with_different_extensions_correctly() {
    let file2 = "[prefix]Cool show e02.mp4";
    let file3 = "[prefix]Cool show e03.mkv";
    let file4 = "[prefix]Other show e07.mp4";

    let tree = dir("tv", vec![dir("some-dir", vec![file("[prefix]Cool show e01.mkv")])]);
    let s = sorter("temp", "temp/tv", &["mkv", "mp4"], false);
    let listing = vec![
        String::from(file2),
        String::from(file3),
        String::from(file4),
        String::from("tv"),
    ];
    let run = s.sort(&listing, tree).unwrap();

    assert!(run.moved_any);
    let files = names_under(&run.tree, &["some-dir"]).len();
    assert_eq!(files, 3);
    // The odd one out gets a fresh directory of its own.
    assert_eq!(
        names_under(&run.tree, &["Other show e07"]),
        vec![String::from("Other show e07.mp4")]
    );
}

#[test]
fn gets_correct_dir_name_from_filename_with_dashes() {
    let name = "filename-withdash.txt";
    let dir_name = Sorter::get_new_dir_name_from(name);
    assert_eq!(dir_name, "filename");
}

#[test]
fn gets_correct_dir_name_from_filename_without_dashes() {
    let name = "filename.txt";
    let dir_name = Sorter::get_new_dir_name_from(name);
    assert_eq!(dir_name, "filename");
}

#[test]
fn gets_correct_dir_name_from_filename_without_extension() {
    let name = "filename";
    let dir_name = Sorter::get_new_dir_name_from(name);
    assert_eq!(dir_name, "filename");
}

#[test]
fn finds_dir_containing_file_with_similar_name() {
    let tree = dir(
        "temp",
        vec![dir("Some long name", vec![file("Some long name that doesn't - 12.txt")])],
    );
    let name =
        "Some long name that doesn't need to fully match! 2nd season - 14 (1920x1080 x264 AAC).txt";

    let found = Sorter::find_in_dir(&tree, &vec![], name);
    assert_eq!(found, Some(path(&["temp", "Some long name"])));
}

#[test]
fn finds_dir_with_random_name_containing_file_with_similar_name() {
    let tree = dir("temp", vec![dir("Random name", vec![file("A very cool series - EP 01.txt")])]);
    let name = "A very cool series - EP 02.txt";

    let found = Sorter::find_in_dir(&tree, &vec![], name);
    assert_eq!(found, Some(path(&["temp", "Random name"])));
}

#[test]
fn finds_nested_dir_with_random_name_containing_file_with_similar_name() {
    let tree = dir(
        "temp",
        vec![dir("TV", vec![dir("2023", vec![dir("WTF", vec![file("Best show - EP 01.txt")])])])],
    );
    let name = "Best show - EP 02.txt";

    let found = Sorter::find_in_dir(&tree, &vec![], name);
    assert_eq!(found, Some(path(&["temp", "TV", "2023", "WTF"])));
}

#[test]
fn gets_correct_prefix_from_filename() {
    let file = "[prefix]filename.txt";
    let prefix = Sorter::get_file_prefix(file);
    assert_eq!(prefix, Some(String::from("[prefix]")));
}

#[test]
fn returns_none_when_filename_has_no_prefix() {
    let file = "filename.txt";
    let prefix = Sorter::get_file_prefix(file);
    assert_eq!(prefix, None);
}

#[test]
fn removes_prefix_from_filename() {
    let file = "[prefix]filename.txt";
    let name = Sorter::remove_prefix(file);
    assert_eq!(name, "filename.txt");
}

#[test]
fn removes_same_filename_when_no_prefix() {
    let file = "filename.txt";
    let name = Sorter::remove_prefix(file);
    assert_eq!(name, "filename.txt");
}

#[test]
fn stripping_twice_equals_stripping_once() {
    let once = Sorter::remove_prefix("[dasd]after_bracket");
    let twice = Sorter::remove_prefix(once.as_str());
    assert_eq!(twice, once);
}

#[test]
fn no_matching_extension_moves_nothing() {
    let tree = dir("tv", vec![dir("kept", vec![file("kept - 01.txt")])]);
    let s = sorter("temp", "temp/tv", &["mp4"], false);
    let run = s.sort(&vec![String::from("notes.txt"), String::from("readme")], tree).unwrap();

    assert!(!run.moved_any);
    assert!(run.actions.is_empty());
    assert_eq!(names_under(&run.tree, &[]), vec![String::from("kept")]);
}

#[test]
fn unusable_derived_key_surfaces_placement_error() {
    // The derived key of "-solo.mp4" is empty, so no directory can be
    // created for it, and nothing in the tree matches it.
    let tree = dir("tv", vec![]);
    let s = sorter("temp", "temp/tv", &["mp4"], false);
    let r = s.sort(&vec![String::from("-solo.mp4")], tree);

    let e = r.err().expect("placement must fail");
    assert_eq!(e.error.name, "-solo.mp4");
    assert_eq!(e.error.from, "temp/-solo.mp4");
    assert_eq!(e.error.target, "temp/tv");
}

#[test]
fn placement_error_aborts_the_run_but_earlier_moves_stand() {
    // An empty directory never matches (only files are inspected), and a
    // clashing entry of the same name makes creation fail.
    let tree = dir("tv", vec![dir("Bad show e02", vec![])]);
    let s = sorter("temp", "temp/tv", &["mp4"], false);
    let r = s.sort(
        &vec![String::from("Good show e01.mp4"), String::from("Bad show e02.mp4")],
        tree,
    );

    let e = r.err().expect("placement must fail");
    // The first file's actions were already decided and stay in force.
    assert!(e.actions.iter().any(|a| matches!(a, Action::Move { .. })));
    assert_eq!(e.error.name, "Bad show e02.mp4");
}

#[test]
fn later_file_joins_directory_created_earlier_in_the_run() {
    let tree = dir("tv", vec![]);
    let s = sorter("temp", "temp/tv", &["mp4"], false);
    let listing = vec![String::from("Other show e07.mp4"), String::from("Other show e08.mp4")];
    let run = s.sort(&listing, tree).unwrap();

    // The second episode matches the file moved by the first one.
    assert_eq!(
        names_under(&run.tree, &["Other show e07"]),
        vec![String::from("Other show e07.mp4"), String::from("Other show e08.mp4")]
    );
}

#[test]
fn move_to_dir_prefers_existing_directory() {
    let tree = dir("tv", vec![dir("shows", vec![file("Cool show e01.mp4")])]);
    let s = sorter("temp", "temp/tv", &["mp4"], false);
    let (placement, t2) = s.move_to_dir("Cool show e02.mp4", "temp/Cool show e02.mp4", tree);

    match placement.unwrap() {
        media_sorter::sorter::Placement::Existing { dir } => {
            assert_eq!(dir, path(&["tv", "shows"]));
        },
        _ => panic!("expected an existing directory"),
    }
    assert_eq!(
        names_under(&t2, &["shows"]),
        vec![String::from("Cool show e01.mp4"), String::from("Cool show e02.mp4")]
    );
}

#[test]
fn get_new_path_keeps_the_original_extension() {
    let p = Sorter::get_new_path("/a/b/[p]x.mkv", "x");
    assert_eq!(p, "/a/b/x.mkv");
}

#[test]
fn get_new_path_replaces_inner_extension() {
    // The replacement's own trailing extension gives way to the original
    // one, so a stripped name with dots is not truncated.
    let p = Sorter::get_new_path("/d/a.b.mkv", "x.y");
    assert_eq!(p, "/d/x.mkv");
}

#[test]
fn change_file_name_without_extension_replaces_wholesale() {
    let p = media_sorter::paths::change_file_name("/a/b/plain", "other");
    assert_eq!(p, "/a/b/other");
}

#[test]
fn two_word_key_reduces_to_two_leading_words() {
    let k = media_sorter::text::two_word_key_of("Some long name that doesn't");
    assert_eq!(k, "Some long ");
    let k1 = media_sorter::text::two_word_key_of("Single");
    assert_eq!(k1, "Single ");
    let k0 = media_sorter::text::two_word_key_of("   ");
    assert_eq!(k0, "");
}

#[test]
fn prefix_anywhere_is_found_but_only_leading_prefix_is_stripped() {
    assert_eq!(Sorter::get_file_prefix("x[a]b"), Some(String::from("[a]")));
    assert_eq!(Sorter::remove_prefix("x[a]b"), "x[a]b");
    // A name whose first `]` comes before its first `[` has no prefix.
    assert_eq!(Sorter::get_file_prefix("]a[b"), None);
}

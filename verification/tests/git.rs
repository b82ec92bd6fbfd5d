use rbld::git::{changed_paths, commit_arguments, workdir, Delta, StatusEntry};

fn delta(new: Option<&str>, old: Option<&str>) -> Option<Delta> {
    Some(Delta { new_file: new.map(str::to_owned), old_file: old.map(str::to_owned) })
}

#[test]
fn both_ends_of_a_rename_are_listed_once_each() {
    let entries = vec![
        StatusEntry { head_to_index: delta(Some("b"), Some("a")), index_to_workdir: None },
        StatusEntry { head_to_index: None, index_to_workdir: delta(Some("b"), Some("b")) },
        StatusEntry { head_to_index: delta(Some("c"), Some("c")), index_to_workdir: delta(Some("c"), Some("c")) },
        StatusEntry { head_to_index: delta(None, Some("d")), index_to_workdir: delta(Some("e"), None) },
        StatusEntry { head_to_index: None, index_to_workdir: None },
    ];
    assert_eq!(changed_paths(&entries), vec!["b", "a", "c", "d", "e"]);
    assert!(changed_paths(&[]).is_empty());
}

#[test]
fn the_work_tree_stands_in_for_itself_or_the_flake() {
    assert_eq!(workdir(Some("/repo/"), "/flake"), "/repo/");
    assert_eq!(workdir(None, "/flake"), "/flake");
}

#[test]
fn a_commit_names_its_one_file_and_skips_the_hooks() {
    assert_eq!(
        commit_arguments("/repo", "build(flake.lock): update", "flake.lock"),
        vec!["-C", "/repo", "commit", "--message", "build(flake.lock): update", "--no-verify", "--", "flake.lock"]
    );
}

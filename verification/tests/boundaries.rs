use rbld::boundaries::{check_boundaries, group, group_by_host, heading, relative_to, sort_by_side};
use rbld::render::{disallowed, Look, RED, YELLOW};

fn owned(paths: &[&str]) -> Vec<String> {
    paths.iter().map(|p| p.to_string()).collect()
}

const BOLD: &str = "\x1b[1m";
const RESET: &str = "\x1b[0m";
const MID: &str = "\x1b[2m\u{251c}\x1b[0m\x1b[2m\u{2500}\u{2500} \x1b[0m";
const LAST: &str = "\x1b[2m\u{2514}\x1b[0m\x1b[2m\u{2500}\u{2500} \x1b[0m";
const BAR: &str = "\x1b[2m\u{2502}\x1b[0m\x1b[2m   \x1b[0m";
const GAP: &str = "\x1b[2m \x1b[0m\x1b[2m   \x1b[0m";

#[test]
fn paths_are_relative_to_their_heading() {
    assert_eq!(relative_to("hosts/alpha", "hosts/alpha/x.nix"), "x.nix");
    assert_eq!(relative_to("hosts/alpha", "hosts/alpha/sub/x.nix"), "sub/x.nix");
    assert_eq!(relative_to(":!hosts", "flake.nix"), "flake.nix");
    assert_eq!(relative_to("hosts/", "hosts/readme"), "readme");
    assert_eq!(relative_to("hosts/alpha", "hosts/alphabet/x"), "alphabet/x");
    assert_eq!(relative_to("hosts/alpha", "other/x"), "other/x");
}

#[test]
fn a_relative_path_comes_back_whole_under_its_heading() {
    for (label, path) in [("hosts/alpha", "hosts/alpha/x/y.nix"), ("hosts", "hosts/readme")] {
        assert_eq!(format!("{label}/{}", relative_to(label, path)), path);
    }
}

#[test]
fn every_grouped_path_comes_back_whole_from_its_line() {
    let paths = owned(&["hosts/a/x", "hosts/b/y/z", "hosts/a/w", "hosts/readme"]);
    for (label, _, members) in group_by_host(&paths) {
        for p in members {
            let back = if label == "hosts/" {
                format!("hosts/{}", relative_to(&label, p))
            } else {
                format!("{label}/{}", relative_to(&label, p))
            };
            assert_eq!(back, p);
        }
    }
}

#[test]
fn foreign_paths_are_grouped_by_host_in_order() {
    let paths = owned(&["hosts/a/x", "hosts/b/y", "hosts/a/z", "hosts/readme", "hosts/c/d/e", "hosts//odd"]);
    let groups = group_by_host(&paths);
    let summary: Vec<(String, &str, Vec<&str>)> = groups;
    assert_eq!(
        summary,
        vec![
            ("hosts/a".to_owned(), "other host", vec!["hosts/a/x", "hosts/a/z"]),
            ("hosts/b".to_owned(), "other host", vec!["hosts/b/y"]),
            ("hosts/".to_owned(), "not a host", vec!["hosts/readme", "hosts//odd"]),
            ("hosts/c".to_owned(), "other host", vec!["hosts/c/d/e"]),
        ]
    );
    assert!(group_by_host(&[]).is_empty());
}

#[test]
fn one_more_path_joins_its_group_or_opens_the_last_one() {
    let paths = owned(&["hosts/a/x", "hosts/b/y"]);
    let mut more = paths.clone();
    more.push("hosts/a/z".to_owned());
    let mut expected = group_by_host(&paths);
    expected[0].2.push("hosts/a/z");
    assert_eq!(group_by_host(&more), expected);

    let mut more = paths.clone();
    more.push("hosts/c/q".to_owned());
    let mut expected = group_by_host(&paths);
    expected.push(("hosts/c".to_owned(), "other host", vec!["hosts/c/q"]));
    assert_eq!(group_by_host(&more), expected);
}

#[test]
fn only_the_host_name_of_a_heading_is_coloured() {
    assert_eq!(heading(Look::on_default(RED), "hosts/beta"), format!("{BOLD}hosts/{RESET}{BOLD}\x1b[31mbeta{RESET}"));
    assert_eq!(heading(Look::on_default(RED), "hosts/"), format!("{BOLD}\x1b[31mhosts/{RESET}"));
    assert_eq!(heading(Look::on_default(YELLOW), ":!hosts"), format!("{BOLD}\x1b[33m:!hosts{RESET}"));
}

#[test]
fn a_group_lists_its_paths_under_its_heading() {
    let tree = group("hosts/beta", "other host", Look::on_default(RED), disallowed(), &["hosts/beta/x.nix", "hosts/beta/y/z"]);
    let expected = format!(
        "{BOLD}hosts/{RESET}{BOLD}\x1b[31mbeta{RESET} \x1b[2m(other host){RESET}\n\
         \u{251c}\u{2500}\u{2500} \x1b[48;5;52mx.nix{RESET}\n\
         \u{2514}\u{2500}\u{2500} {BOLD}\x1b[48;5;52my/{RESET}\x1b[48;5;52mz{RESET}\n"
    );
    assert_eq!(tree.to_string(), expected);
}

#[test]
fn changes_are_sorted_by_side() {
    let changed = owned(&["hosts/beta/x.nix", "hosts/alpha/y.nix", "flake.nix", "hosts/readme", "hosts/alpha"]);
    let (this_host, other, shared) = sort_by_side("alpha", &changed);
    assert_eq!(this_host, owned(&["hosts/alpha/y.nix"]));
    assert_eq!(other, owned(&["hosts/beta/x.nix", "hosts/readme", "hosts/alpha"]));
    assert_eq!(shared, owned(&["flake.nix"]));
}

#[test]
fn commits_that_keep_to_one_side_pass() {
    assert!(check_boundaries("alpha", "/repo", &[]).is_none());
    assert!(check_boundaries("alpha", "/repo", &owned(&["hosts/alpha/a.nix", "hosts/alpha/b/c"])).is_none());
    assert!(check_boundaries("alpha", "/repo", &owned(&["flake.nix", "modules/x.nix"])).is_none());
}

#[test]
fn a_commit_mixing_this_host_and_shared_changes_is_refused() {
    let (headline, tree) = check_boundaries("alpha", "/repo/", &owned(&["hosts/alpha/a.nix", "flake.nix"])).unwrap();
    assert_eq!(headline, format!("{BOLD}this commit mixes host-specific and shared changes{RESET}"));
    let expected = format!(
        "{BOLD}/repo{RESET}\n\
         {MID}{BOLD}hosts/{RESET}{BOLD}\x1b[32malpha{RESET} \x1b[2m(this host){RESET}\n\
         {BAR}{LAST}a.nix\n\
         {LAST}{BOLD}\x1b[33m:!hosts{RESET} \x1b[2m(shared){RESET}\n\
         {GAP}{LAST}flake.nix\n"
    );
    assert_eq!(tree.to_string(), expected);
}

#[test]
fn a_commit_touching_another_host_is_refused() {
    let changed = owned(&["hosts/beta/x.nix", "hosts/alpha/y.nix", "flake.nix", "hosts/readme"]);
    let (headline, tree) = check_boundaries("alpha", "/repo", &changed).unwrap();
    assert_eq!(
        headline,
        format!("{BOLD}this commit touches a host other than{RESET} {BOLD}\x1b[32m`alpha`{RESET}")
    );
    let expected = format!(
        "{BOLD}/repo{RESET}\n\
         {MID}{BOLD}hosts/{RESET}{BOLD}\x1b[31mbeta{RESET} \x1b[2m(other host){RESET}\n\
         {BAR}{LAST}\x1b[48;5;52mx.nix{RESET}\n\
         {MID}{BOLD}\x1b[31mhosts/{RESET} \x1b[2m(not a host){RESET}\n\
         {BAR}{LAST}\x1b[48;5;52mreadme{RESET}\n\
         {MID}{BOLD}hosts/{RESET}{BOLD}\x1b[32malpha{RESET} \x1b[2m(this host){RESET}\n\
         {BAR}{LAST}y.nix\n\
         {LAST}{BOLD}\x1b[33m:!hosts{RESET} \x1b[2m(shared){RESET}\n\
         {GAP}{LAST}flake.nix\n"
    );
    assert_eq!(tree.to_string(), expected);
}

#[test]
fn another_host_alone_is_refused_without_empty_groups() {
    let (_, tree) = check_boundaries("alpha", "/", &owned(&["hosts/beta/x"])).unwrap();
    let expected = format!(
        "{BOLD}/{RESET}\n\
         {LAST}{BOLD}hosts/{RESET}{BOLD}\x1b[31mbeta{RESET} \x1b[2m(other host){RESET}\n\
         {GAP}{LAST}\x1b[48;5;52mx{RESET}\n"
    );
    assert_eq!(tree.to_string(), expected);
}

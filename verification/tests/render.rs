use rbld::render::{
    branches, dir, disallowed, done, error, fatal, file_path, headline, labelled, note, paint,
    rooted, step, Look, GREEN, RED, YELLOW,
};

#[test]
fn plain_text_is_left_untouched() {
    assert_eq!(paint(Look::plain(), "text"), "text");
    assert_eq!(paint(Look::plain(), ""), "");
}

#[test]
fn painted_text_is_closed_with_a_reset() {
    assert_eq!(paint(error(), "error"), "\x1b[1m\x1b[31merror\x1b[0m");
    assert_eq!(paint(fatal(), "fatal"), "\x1b[1m\x1b[91mfatal\x1b[0m");
    assert_eq!(paint(headline(), "h"), "\x1b[1mh\x1b[0m");
    assert_eq!(paint(dir(), "d"), "\x1b[1md\x1b[0m");
    assert_eq!(paint(note(), "n"), "\x1b[2mn\x1b[0m");
    assert_eq!(paint(step(), "s"), "\x1b[1m\x1b[34ms\x1b[0m");
    assert_eq!(paint(done(), "d"), "\x1b[1m\x1b[32md\x1b[0m");
    assert_eq!(paint(disallowed(), "f"), "\x1b[48;5;52mf\x1b[0m");
    assert_eq!(paint(Look::on_default(YELLOW), "y"), "\x1b[33my\x1b[0m");
    assert_eq!(paint(Look::on_default(GREEN).bolded(), "g"), "\x1b[1m\x1b[32mg\x1b[0m");
    assert_eq!(paint(Look::on_default(RED), ""), "\x1b[31m\x1b[0m");
}

#[test]
fn labels_are_styled_and_messages_are_not() {
    assert_eq!(labelled(step(), "step", "updating flake inputs"), "\x1b[1m\x1b[34mstep\x1b[0m: updating flake inputs");
}

#[test]
fn directories_of_a_path_are_bold() {
    assert_eq!(file_path(Look::plain(), "a/b/c.nix"), "\x1b[1ma/b/\x1b[0mc.nix");
    assert_eq!(file_path(Look::plain(), "flake.nix"), "flake.nix");
    assert_eq!(
        file_path(disallowed(), "a/c"),
        "\x1b[1m\x1b[48;5;52ma/\x1b[0m\x1b[48;5;52mc\x1b[0m"
    );
    assert_eq!(file_path(Look::plain(), "dir/"), "\x1b[1mdir/\x1b[0m");
}

#[test]
fn a_listing_is_rooted_at_the_work_tree() {
    assert_eq!(rooted("/repo/").to_string(), "\x1b[1m/repo\x1b[0m\n");
    assert_eq!(rooted("/repo").to_string(), "\x1b[1m/repo\x1b[0m\n");
    assert_eq!(rooted("///").to_string(), "\x1b[1m/\x1b[0m\n");
    assert_eq!(rooted("").to_string(), "\x1b[1m/\x1b[0m\n");
}

#[test]
fn branches_are_dimmed() {
    let glyphs = branches();
    let raw = ["\u{251c}", "\u{2514}", "\u{2500}\u{2500} ", "\u{2502}", " ", "   "];
    assert_eq!(glyphs.len(), 6);
    for (g, r) in glyphs.iter().zip(raw) {
        assert_eq!(g, &format!("\x1b[2m{r}\x1b[0m"));
    }
}

#[test]
fn a_rooted_listing_draws_dimmed_branches() {
    let tree = rooted("/r").with_leaves(["a".to_owned(), "b".to_owned()]);
    assert_eq!(
        tree.to_string(),
        "\x1b[1m/r\x1b[0m\n\
         \x1b[2m\u{251c}\x1b[0m\x1b[2m\u{2500}\u{2500} \x1b[0ma\n\
         \x1b[2m\u{2514}\x1b[0m\x1b[2m\u{2500}\u{2500} \x1b[0mb\n"
    );
}

#[test]
fn a_rooted_listing_draws_the_glyphs_anstyle_paints() {
    let glyphs = branches();
    let tree = rooted("/r").with_leaves(["a".to_owned(), "b".to_owned()]);
    let expected = format!(
        "\x1b[1m/r\x1b[0m\n{}{}a\n{}{}b\n",
        glyphs[0], glyphs[2], glyphs[1], glyphs[2]
    );
    assert_eq!(tree.to_string(), expected);
}

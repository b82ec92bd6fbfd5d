use rbld::update::{
    commit_message, note, note_at, notes_ref, summarise, summarise_plain, summarise_rebuild,
    summarise_rebuild_plain, switch_arguments, update_arguments,
};

fn owned(lines: &[&str]) -> Vec<String> {
    lines.iter().map(|l| l.to_string()).collect()
}

const NIX_OUTPUT: &str = "\x1b[35;1mwarning:\x1b[0m updating lock file '/repo/flake.lock':\n\
\u{2022} Updated input 'nixpkgs':\n    'github:NixOS/nixpkgs/aaaa' (2024-01-01)\n  \u{2192} 'github:NixOS/nixpkgs/bbbb' (2024-02-01)\n\r\x1b[K\n";

#[test]
fn the_summary_starts_at_the_first_input() {
    assert_eq!(
        summarise(NIX_OUTPUT),
        owned(&[
            "\u{2022} Updated input 'nixpkgs':",
            "    'github:NixOS/nixpkgs/aaaa' (2024-01-01)",
            "  \u{2192} 'github:NixOS/nixpkgs/bbbb' (2024-02-01)",
        ])
    );
}

#[test]
fn a_line_drawn_over_keeps_what_stood_last() {
    assert_eq!(
        summarise_plain("[1/2 copied]\r\u{2022} Updated input 'a':\nrest\r\n\n\n"),
        owned(&["\u{2022} Updated input 'a':", "rest"])
    );
}

#[test]
fn nothing_marked_means_nothing_to_summarise() {
    assert!(summarise_plain("warning: nothing\nat all\n").is_empty());
    assert!(summarise("").is_empty());
}

#[test]
fn the_rebuild_summary_runs_from_the_old_generation_to_the_totals() {
    let output = "building the system configuration...\r\r\n\x1b[1m<<<\x1b[0m /run/current-system\r\r\n>>> /nix/store/abc-system\r\r\n\
CHANGED\r\r\n[U.]  hello 2.12 -> 2.13\r\r\nDIFF: 12.0 KiB\r\r\nDo you want to activate? [y/n]\r\r\nactivating\r\r\n";
    assert_eq!(
        summarise_rebuild(output),
        owned(&[
            "<<< /run/current-system",
            ">>> /nix/store/abc-system",
            "CHANGED",
            "[U.]  hello 2.12 -> 2.13",
            "DIFF: 12.0 KiB",
        ])
    );
}

#[test]
fn a_rebuild_summary_without_totals_runs_to_the_end() {
    assert_eq!(summarise_rebuild_plain("x\n<<< a\r\nb\rc\n"), owned(&["<<< a", "c"]));
    assert!(summarise_rebuild_plain("no diff here\n").is_empty());
}

#[test]
fn the_commit_message_leads_with_its_subject() {
    assert_eq!(commit_message(&owned(&["\u{2022} a", "  b"])), "build(flake.lock): update\n\n\u{2022} a\n  b");
    assert_eq!(commit_message(&[]), "build(flake.lock): update\n");
}

#[test]
fn the_note_names_the_host_and_the_time() {
    assert_eq!(
        note_at("alpha", &owned(&["<<< a", "DIFF: 1"]), "2024-05-01T10:00:00+02:00"),
        "build(alpha): apply flake.lock update\n\n<<< a\nDIFF: 1\n\nRebuilt-at: 2024-05-01T10:00:00+02:00"
    );
    assert_eq!(notes_ref("alpha"), "refs/notes/rebuild/alpha");
}

#[test]
fn a_note_is_stamped_with_the_clock() {
    let text = note("alpha", &owned(&["x"]));
    let stamp = text.strip_prefix("build(alpha): apply flake.lock update\n\nx\n\nRebuilt-at: ").unwrap();
    assert_eq!(stamp.len(), "2024-05-01T10:00:00+02:00".len());
    assert_eq!(&stamp[4..5], "-");
    assert_eq!(&stamp[10..11], "T");
    assert!(!stamp.contains('Z'));
    let offset = &stamp[stamp.len() - 6..];
    assert!(offset.starts_with('+') || offset.starts_with('-'));
    assert_eq!(&offset[3..4], ":");
}

#[test]
fn nix_and_nh_are_pointed_at_the_flake() {
    assert_eq!(update_arguments("/etc/nixos"), owned(&["flake", "update", "--flake", "/etc/nixos"]));
    assert_eq!(switch_arguments("/etc/nixos"), owned(&["os", "switch", "--ask", "/etc/nixos"]));
}

use rbld::voice::{fatal, left_standing, refuse, Voice};

const STEP: &str = "\x1b[1m\x1b[34mstep\x1b[0m";
const DONE: &str = "\x1b[1m\x1b[32mdone\x1b[0m";
const ERROR: &str = "\x1b[1m\x1b[31merror\x1b[0m";
const NOTE: &str = "\x1b[2mnote\x1b[0m";

#[test]
fn the_first_step_opens_the_output() {
    let mut voice = Voice::new();
    assert_eq!(voice.step("one"), format!("{STEP}: one"));
    assert_eq!(voice.step("two"), format!("\n{STEP}: two"));
}

#[test]
fn done_is_set_apart_only_from_what_was_left_standing() {
    let mut voice = Voice::new();
    voice.step("updating");
    assert_eq!(voice.done("nothing to do"), format!("{DONE}: nothing to do"));
    voice.step("rebuilding");
    voice.relayed("building...\nready\n");
    assert_eq!(voice.done("rebuilt"), format!("\n{DONE}: rebuilt"));
    assert_eq!(voice.done("again"), format!("{DONE}: again"));
}

#[test]
fn output_that_rubbed_itself_out_leaves_nothing_standing() {
    assert!(!left_standing(""));
    assert!(!left_standing("[1/3]\r[2/3]\r\x1b[K"));
    assert!(!left_standing("  \n\t\r\n"));
    assert!(!left_standing("progress\r\x1b[K\n"));
    assert!(left_standing("done\n"));
    assert!(left_standing("\x1b[1mwarning\x1b[0m"));
    assert!(left_standing("a\rb\r\r\n"));
}

#[test]
fn a_stop_is_set_apart_once_the_run_has_spoken() {
    let mut voice = Voice::new();
    assert_eq!(
        voice.stopped("it broke", "nothing changed"),
        format!("{ERROR}: \x1b[1mit broke\x1b[0m\n{NOTE}: \x1b[2mnothing changed\x1b[0m")
    );
    let mut voice = Voice::new();
    voice.step("x");
    assert!(voice.stopped("h", "n").starts_with('\n'));
    assert!(!voice.spoken);
}

#[test]
fn a_missing_terminal_is_said_before_anything() {
    let mut voice = Voice::new();
    assert_eq!(
        voice.missing_terminal(),
        format!(
            "{ERROR}: \x1b[1mcannot run without a terminal\x1b[0m\n{NOTE}: \x1b[2mthere is a question to answer on the way through, and it is read from a terminal\x1b[0m"
        )
    );
}

#[test]
fn refuses_and_fatals() {
    assert_eq!(refuse("nope", "tree\n"), format!("\n{ERROR}: nope\n\ntree\n"));
    assert_eq!(fatal("no repo"), "\x1b[1m\x1b[91mfatal\x1b[0m: no repo");
}

use rbld::cli::{CheckCommand, Cli, Command, Task};

#[test]
fn checking_boundaries_is_a_task() {
    let cli = Cli { config: None, command: Command::Check { command: CheckCommand::Boundaries }, flake: "/etc/nixos".to_owned() };
    assert_eq!(cli.run(), Task::CheckBoundaries { flake: "/etc/nixos".to_owned() });
}

#[test]
fn only_the_check_can_run() {
    let check = Cli { config: None, command: Command::Check { command: CheckCommand::Boundaries }, flake: "/f".to_owned() };
    assert!(check.is_runnable());
    let update = Cli { config: None, command: Command::Update, flake: "/f".to_owned() };
    assert!(!update.is_runnable());
    let switch = Cli { config: None, command: Command::Switch, flake: "/f".to_owned() };
    assert!(!switch.is_runnable());
}

use std::cell::Cell;

use rbld::config::{ConfigCache, FileConfig};

#[test]
fn a_configuration_is_read_once_per_path() {
    let reads = Cell::new(0);
    let read = |path: &str| {
        reads.set(reads.get() + 1);
        Ok(FileConfig { flake: Some(format!("{path}#flake")) })
    };
    let mut cache = ConfigCache::new();
    let first = FileConfig::load(&mut cache, "a.toml", &read).unwrap();
    assert_eq!(first.flake.as_deref(), Some("a.toml#flake"));
    let second = FileConfig::load(&mut cache, "a.toml", &read).unwrap();
    assert_eq!(second.flake.as_deref(), Some("a.toml#flake"));
    assert_eq!(reads.get(), 1);
    let other = FileConfig::load(&mut cache, "b.toml", &read).unwrap();
    assert_eq!(other.flake.as_deref(), Some("b.toml#flake"));
    assert_eq!(reads.get(), 2);
    let again = FileConfig::load(&mut cache, "a.toml", &read).unwrap();
    assert_eq!(again.flake.as_deref(), Some("a.toml#flake"));
    assert_eq!(reads.get(), 2);
}

#[test]
fn a_failed_read_is_remembered_too() {
    let reads = Cell::new(0);
    let read = |_: &str| {
        reads.set(reads.get() + 1);
        Err::<FileConfig, String>("missing".to_owned())
    };
    let mut cache = ConfigCache::new();
    assert_eq!(FileConfig::load(&mut cache, "x", &read).unwrap_err(), "missing");
    assert_eq!(FileConfig::load(&mut cache, "x", &read).unwrap_err(), "missing");
    assert_eq!(reads.get(), 1);
}

#[test]
fn the_configured_flake_is_the_default() {
    assert_eq!(FileConfig { flake: Some("/etc/nixos".to_owned()) }.default_flake().as_deref(), Some("/etc/nixos"));
    assert_eq!(FileConfig { flake: None }.default_flake(), None);
}

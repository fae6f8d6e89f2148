use sudo_rs::ast::{DefaultValue, Mode};
use sudo_rs::settings::Settings;

fn list(mode: Mode, entries: &[&str]) -> DefaultValue {
    DefaultValue::List(mode, entries.iter().map(|e| e.to_string()).collect())
}

fn entries(settings: &Settings, name: &str) -> Vec<String> {
    let mut all = settings.list(name).cloned().unwrap_or_default();
    all.sort();
    all.dedup();
    all
}

fn names(of: &[&str]) -> Vec<String> {
    of.iter().map(|n| n.to_string()).collect()
}

#[test]
fn flags_are_switched_on_and_off() {
    let mut settings = Settings::new();
    assert!(!settings.flag("use_pty"));
    settings.apply(&"use_pty".to_string(), &DefaultValue::Flag(true));
    assert!(settings.flag("use_pty"));
    assert!(!settings.flag("other"));
    settings.apply(&"use_pty".to_string(), &DefaultValue::Flag(false));
    assert!(!settings.flag("use_pty"));
    settings.apply(&"use_pty".to_string(), &DefaultValue::Flag(true));
    settings.apply(&"other".to_string(), &DefaultValue::Flag(false));
    assert!(settings.flag("use_pty"));
}

#[test]
fn texts_are_assigned() {
    let mut settings = Settings::new();
    assert_eq!(settings.text("secure_path"), None);
    settings.apply(&"secure_path".to_string(), &DefaultValue::Text("/bin".to_string()));
    settings.apply(&"lecture_file".to_string(), &DefaultValue::Text("/etc/l".to_string()));
    assert_eq!(settings.text("secure_path"), Some(&"/bin".to_string()));
    settings.apply(&"secure_path".to_string(), &DefaultValue::Text("/sbin".to_string()));
    assert_eq!(settings.text("secure_path"), Some(&"/sbin".to_string()));
    assert_eq!(settings.text("lecture_file"), Some(&"/etc/l".to_string()));
    assert!(!settings.flag("secure_path"));
    assert_eq!(settings.list("secure_path"), None);
}

#[test]
fn lists_are_assigned_added_to_and_removed_from() {
    let mut settings = Settings::new();
    let name = "env_keep".to_string();
    assert_eq!(settings.list("env_keep"), None);
    settings.apply(&name, &list(Mode::Add, &["A", "B"]));
    assert_eq!(entries(&settings, "env_keep"), names(&["A", "B"]));
    settings.apply(&name, &list(Mode::Add, &["B", "C"]));
    assert_eq!(entries(&settings, "env_keep"), names(&["A", "B", "C"]));
    settings.apply(&name, &list(Mode::Del, &["A", "C", "X"]));
    assert_eq!(entries(&settings, "env_keep"), names(&["B"]));
    assert!(settings.list_holds("env_keep", "B"));
    assert!(!settings.list_holds("env_keep", "A"));
    assert!(!settings.list_holds("env_check", "B"));
    settings.apply(&name, &list(Mode::Assign, &["Y", "Z"]));
    assert_eq!(entries(&settings, "env_keep"), names(&["Y", "Z"]));
    settings.apply(&"env_check".to_string(), &list(Mode::Del, &["Q"]));
    assert_eq!(settings.list("env_check"), Some(&vec![]));
    assert_eq!(entries(&settings, "env_keep"), names(&["Y", "Z"]));
}

#[test]
fn adding_and_then_removing_restores_a_list() {
    let mut settings = Settings::new();
    let name = "env_keep".to_string();
    settings.apply(&name, &list(Mode::Assign, &["A", "B"]));
    settings.apply(&"env_check".to_string(), &list(Mode::Assign, &["C"]));
    let before = entries(&settings, "env_keep");
    settings.apply(&name, &list(Mode::Add, &["C", "D"]));
    assert_eq!(entries(&settings, "env_keep"), names(&["A", "B", "C", "D"]));
    settings.apply(&name, &list(Mode::Del, &["C", "D"]));
    assert_eq!(entries(&settings, "env_keep"), before);
    assert_eq!(entries(&settings, "env_check"), names(&["C"]));
    let mut fresh = Settings::new();
    fresh.apply(&name, &list(Mode::Add, &["C"]));
    fresh.apply(&name, &list(Mode::Del, &["C"]));
    assert_eq!(entries(&fresh, "env_keep"), names(&[]));
}

#[test]
fn removing_takes_away_what_was_there_before_too() {
    let mut settings = Settings::new();
    let name = "env_keep".to_string();
    settings.apply(&name, &list(Mode::Assign, &["A"]));
    settings.apply(&name, &list(Mode::Add, &["A"]));
    settings.apply(&name, &list(Mode::Del, &["A"]));
    assert_eq!(entries(&settings, "env_keep"), names(&[]));
}

#[test]
fn a_copy_of_settings_holds_the_same() {
    let mut settings = Settings::new();
    settings.apply(&"a".to_string(), &DefaultValue::Flag(true));
    settings.apply(&"b".to_string(), &DefaultValue::Text("t".to_string()));
    settings.apply(&"c".to_string(), &list(Mode::Add, &["x"]));
    assert_eq!(settings.duplicate(), settings);
}

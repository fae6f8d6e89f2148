use sudo_rs::ast::{DefaultValue, Mode};
use sudo_rs::env::{build_environment, Context, Environment};
use sudo_rs::evaluate::{Group, User};
use sudo_rs::settings::Settings;
use std::collections::HashSet;

const TESTS: &str = "
> env
    FOO=BAR
    HOME=/home/test
    HOSTNAME=test-ubuntu
    LANG=en_US.UTF-8
    LANGUAGE=en_US.UTF-8
    LC_ALL=en_US.UTF-8
    LS_COLORS=cd=40;33;01:*.jpg=01;35:*.mp3=00;36:
    PATH=/usr/local/sbin:/usr/local/bin:/usr/sbin:/usr/bin:/sbin:/bin
    PWD=/home/test
    SHLVL=0
    TERM=xterm
    _=/usr/bin/sudo
> sudo env
    HOME=/root
    HOSTNAME=test-ubuntu
    LANG=en_US.UTF-8
    LANGUAGE=en_US.UTF-8
    LC_ALL=en_US.UTF-8
    LOGNAME=root
    LS_COLORS=cd=40;33;01:*.jpg=01;35:*.mp3=00;36:
    MAIL=/var/mail/root
    PATH=/usr/local/sbin:/usr/local/bin:/usr/sbin:/usr/bin:/sbin:/bin
    SHELL=/bin/bash
    SUDO_COMMAND=/usr/bin/env
    SUDO_GID=1000
    SUDO_UID=1000
    SUDO_USER=test
    TERM=xterm
    USER=root
> sudo -u test env
    HOME=/home/test
    HOSTNAME=test-ubuntu
    LANG=en_US.UTF-8
    LANGUAGE=en_US.UTF-8
    LC_ALL=en_US.UTF-8
    LOGNAME=test
    LS_COLORS=cd=40;33;01:*.jpg=01;35:*.mp3=00;36:
    MAIL=/var/mail/test
    PATH=/usr/local/sbin:/usr/local/bin:/usr/sbin:/usr/bin:/sbin:/bin
    SHELL=/bin/sh
    SUDO_COMMAND=/usr/bin/env
    SUDO_GID=1000
    SUDO_UID=1000
    SUDO_USER=test
    TERM=xterm
    USER=test
";

fn parse_env_commands(input: &str) -> Vec<(&str, Environment)> {
    input
        .trim()
        .split("> ")
        .filter(|l| !l.is_empty())
        .map(|e| {
            let (cmd, vars) = e.split_once('\n').unwrap();

            let vars: Vec<(String, String)> = vars
                .lines()
                .map(|line| line.trim().split_once('=').unwrap())
                .map(|(k, v)| (k.to_string(), v.to_string()))
                .collect();

            (cmd, Environment { vars })
        })
        .collect()
}

fn current_user() -> User {
    User {
        uid: 1000,
        gid: 1000,
        name: "test".to_string(),
        home: "/home/test".to_string(),
        shell: "/bin/sh".to_string(),
        groups: None,
    }
}

fn current_group() -> Group {
    Group { gid: 1000, name: "test".to_string(), members: Vec::new() }
}

fn root_user() -> User {
    User {
        uid: 0,
        gid: 0,
        name: "root".to_string(),
        home: "/root".to_string(),
        shell: "/bin/bash".to_string(),
        groups: None,
    }
}

fn root_group() -> Group {
    Group { gid: 0, name: "root".to_string(), members: Vec::new() }
}

fn create_test_context(cmd: &str) -> Context {
    let words: Vec<&str> = cmd.split_whitespace().collect();
    let as_test = words.windows(2).any(|pair| pair[0] == "-u" && pair[1] == "test");
    Context {
        hostname: "test-ubuntu".to_string(),
        command: "/usr/bin/env".to_string(),
        current_user: current_user(),
        target_user: if as_test { current_user() } else { root_user() },
        target_group: if as_test { current_group() } else { root_group() },
        preserve_env: false,
        set_home: false,
        preserve_env_list: Vec::new(),
    }
}

fn environment_to_set(environment: Environment) -> HashSet<String> {
    HashSet::from_iter(environment.vars.iter().map(|(k, v)| format!("{}={}", k, v)))
}

#[test]
fn test_environment_variable_filtering() {
    let mut parts = parse_env_commands(TESTS);
    let initial_env = parts.remove(0).1;

    for (cmd, expected_env) in parts {
        let context = create_test_context(cmd);
        let resulting_env = build_environment(&initial_env.clone(), &context, &Settings::new());

        let resulting_env = environment_to_set(resulting_env);
        let expected_env = environment_to_set(expected_env);
        let mut diff = resulting_env.symmetric_difference(&expected_env).collect::<Vec<_>>();

        diff.sort();

        assert!(diff.is_empty(), "\"{cmd}\" results in an environment mismatch:\n{diff:#?}",);
    }
}

fn source() -> Environment {
    Environment {
        vars: vec![
            ("HOME".to_string(), "/home/test".to_string()),
            ("PATH".to_string(), "/usr/bin:/bin".to_string()),
            ("FOO".to_string(), "BAR".to_string()),
        ],
    }
}

fn to_root() -> Context {
    create_test_context("sudo env")
}

fn value<'a>(env: &'a Environment, name: &str) -> Option<&'a str> {
    env.get(name).map(|v| v.as_str())
}

fn settings(lines: &[(&str, DefaultValue)]) -> Settings {
    let mut settings = Settings::new();
    for (name, value) in lines {
        settings.apply(&name.to_string(), value);
    }
    settings
}

fn list(mode: Mode, entries: &[&str]) -> DefaultValue {
    DefaultValue::List(mode, entries.iter().map(|e| e.to_string()).collect())
}

#[test]
fn the_environment_of_a_command_for_root() {
    let env = build_environment(&source(), &to_root(), &Settings::new());
    assert_eq!(value(&env, "HOME"), Some("/root"));
    assert_eq!(value(&env, "USER"), Some("root"));
    assert_eq!(value(&env, "LOGNAME"), Some("root"));
    assert_eq!(value(&env, "SUDO_USER"), Some("test"));
    assert_eq!(value(&env, "SUDO_UID"), Some("1000"));
    assert_eq!(value(&env, "SUDO_GID"), Some("1000"));
    assert_eq!(value(&env, "SUDO_COMMAND"), Some("/usr/bin/env"));
    assert_eq!(value(&env, "MAIL"), Some("/var/mail/root"));
    assert_eq!(value(&env, "SHELL"), Some("/bin/bash"));
    assert_eq!(value(&env, "PATH"), Some("/usr/bin:/bin"));
    assert_eq!(value(&env, "FOO"), None);
    assert!(!env.contains("FOO"));
    assert_eq!(env.vars.len(), 10);
}

#[test]
fn the_whole_environment_is_preserved_on_request() {
    let mut context = to_root();
    context.preserve_env = true;
    let env = build_environment(&source(), &context, &Settings::new());
    assert_eq!(value(&env, "FOO"), Some("BAR"));
    assert_eq!(value(&env, "HOME"), Some("/home/test"));
    assert_eq!(value(&env, "USER"), Some("root"));
    context.set_home = true;
    let env = build_environment(&source(), &context, &Settings::new());
    assert_eq!(value(&env, "FOO"), Some("BAR"));
    assert_eq!(value(&env, "HOME"), Some("/root"));
}

#[test]
fn a_list_of_names_to_preserve_is_all_that_is_preserved() {
    let mut context = to_root();
    context.preserve_env = true;
    context.preserve_env_list = vec!["HOME".to_string()];
    let env = build_environment(&source(), &context, &Settings::new());
    assert_eq!(value(&env, "FOO"), None);
    assert_eq!(value(&env, "HOME"), Some("/home/test"));
    context.preserve_env = false;
    context.preserve_env_list = vec!["FOO".to_string()];
    let env = build_environment(&source(), &context, &Settings::new());
    assert_eq!(value(&env, "FOO"), Some("BAR"));
    assert_eq!(value(&env, "HOME"), Some("/root"));
}

#[test]
fn names_that_are_always_kept() {
    let vars = ["TERM", "PATH", "DISPLAY", "COLORS", "HOSTNAME", "LS_COLORS", "LANG", "LANGUAGE", "LC_ALL", "LC_", "LC_TIME"];
    let dropped = ["LC", "XLC_ALL", "lc_all", "TERMINAL", "EDITOR"];
    let mut all: Vec<(String, String)> = Vec::new();
    for name in vars.iter().chain(dropped.iter()) {
        all.push((name.to_string(), "a/b%c".to_string()));
    }
    let env = build_environment(&Environment { vars: all }, &to_root(), &Settings::new());
    for name in vars {
        assert_eq!(value(&env, name), Some("a/b%c"), "{}", name);
    }
    for name in dropped {
        assert_eq!(value(&env, name), None, "{}", name);
    }
}

#[test]
fn names_in_env_keep_are_kept() {
    let kept = settings(&[("env_keep", list(Mode::Add, &["FOO"]))]);
    let env = build_environment(&source(), &to_root(), &kept);
    assert_eq!(value(&env, "FOO"), Some("BAR"));
    let home = settings(&[("env_keep", list(Mode::Assign, &["HOME"]))]);
    let env = build_environment(&source(), &to_root(), &home);
    assert_eq!(value(&env, "HOME"), Some("/home/test"));
    assert_eq!(value(&env, "FOO"), None);
}

#[test]
fn names_in_env_check_are_kept_if_their_value_is_harmless() {
    let checked = settings(&[("env_check", list(Mode::Assign, &["A", "B", "C", "D", "PATH", "FOO"]))]);
    let mut from = source();
    from.vars.push(("A".to_string(), "plain value".to_string()));
    from.vars.push(("B".to_string(), "a/b".to_string()));
    from.vars.push(("C".to_string(), "100%".to_string()));
    from.vars.push(("D".to_string(), "two\nlines".to_string()));
    let mut context = to_root();
    let env = build_environment(&from, &context, &checked);
    assert_eq!(value(&env, "A"), Some("plain value"));
    assert_eq!(value(&env, "FOO"), Some("BAR"));
    assert_eq!(value(&env, "B"), None);
    assert_eq!(value(&env, "C"), None);
    assert_eq!(value(&env, "D"), None);
    assert_eq!(value(&env, "PATH"), None);
    context.preserve_env = true;
    let env = build_environment(&from, &context, &checked);
    assert_eq!(value(&env, "A"), Some("plain value"));
    assert_eq!(value(&env, "B"), None);
    assert_eq!(value(&env, "C"), None);
    assert_eq!(value(&env, "D"), None);
    let both = settings(&[
        ("env_check", list(Mode::Assign, &["B"])),
        ("env_keep", list(Mode::Assign, &["B"])),
    ]);
    assert_eq!(value(&build_environment(&from, &to_root(), &both), "B"), None);
}

#[test]
fn a_name_that_is_always_set_stays_though_it_fails_the_check() {
    let checked = settings(&[("env_check", list(Mode::Assign, &["HOME", "SHELL"]))]);
    let env = build_environment(&source(), &to_root(), &checked);
    assert_eq!(value(&env, "HOME"), Some("/root"));
    assert_eq!(value(&env, "SHELL"), Some("/bin/bash"));
}

#[test]
fn the_secure_path_replaces_the_path() {
    let secure = settings(&[("secure_path", DefaultValue::Text("/usr/sbin:/usr/bin".to_string()))]);
    let env = build_environment(&source(), &to_root(), &secure);
    assert_eq!(value(&env, "PATH"), Some("/usr/sbin:/usr/bin"));
    let env = build_environment(&Environment::new(), &to_root(), &secure);
    assert_eq!(value(&env, "PATH"), Some("/usr/sbin:/usr/bin"));
    let empty = settings(&[("secure_path", DefaultValue::Text(String::new()))]);
    let env = build_environment(&source(), &to_root(), &empty);
    assert_eq!(value(&env, "PATH"), Some("/usr/bin:/bin"));
    let env = build_environment(&Environment::new(), &to_root(), &Settings::new());
    assert_eq!(value(&env, "PATH"), None);
}

#[test]
fn building_twice_changes_nothing() {
    let all = [
        Settings::new(),
        settings(&[("env_keep", list(Mode::Add, &["FOO", "HOME", "SHELL"]))]),
        settings(&[("env_check", list(Mode::Add, &["FOO", "HOME", "PATH"]))]),
        settings(&[("secure_path", DefaultValue::Text("/usr/bin".to_string()))]),
    ];
    for given in &all {
        for preserve in [false, true] {
            for set_home in [false, true] {
                let mut context = to_root();
                context.preserve_env = preserve;
                context.set_home = set_home;
                let once = build_environment(&source(), &context, given);
                let twice = build_environment(&once, &context, given);
                assert_eq!(environment_to_set(once), environment_to_set(twice));
            }
        }
    }
}

#[test]
fn the_last_value_of_a_name_holds() {
    let mut from = source();
    from.vars.push(("PATH".to_string(), "/later".to_string()));
    from.vars.push(("TERM".to_string(), "vt100".to_string()));
    from.vars.push(("TERM".to_string(), "xterm".to_string()));
    let env = build_environment(&from, &to_root(), &Settings::new());
    assert_eq!(value(&env, "PATH"), Some("/later"));
    assert_eq!(value(&env, "TERM"), Some("xterm"));
    let names: HashSet<&String> = env.vars.iter().map(|(k, _)| k).collect();
    assert_eq!(names.len(), env.vars.len());
    let checked = settings(&[("env_check", list(Mode::Assign, &["TERM"]))]);
    from.vars.push(("TERM".to_string(), "a/b".to_string()));
    let env = build_environment(&from, &to_root(), &checked);
    assert_eq!(value(&env, "TERM"), None);
}

#[test]
fn environments_are_maps() {
    let mut env = Environment::new();
    assert_eq!(env.get("A"), None);
    env.insert("A".to_string(), "1".to_string());
    env.insert("B".to_string(), "2".to_string());
    env.insert("A".to_string(), "3".to_string());
    assert_eq!(value(&env, "A"), Some("3"));
    assert_eq!(value(&env, "B"), Some("2"));
    assert_eq!(env.vars.len(), 2);
    env.remove("A");
    assert!(!env.contains("A"));
    assert!(env.contains("B"));
    env.remove("A");
    assert_eq!(env.vars.len(), 1);
}

#[test]
fn numbers_in_the_environment_are_decimal() {
    let mut context = to_root();
    context.current_user.uid = 0;
    context.current_user.gid = 4294967295;
    let env = build_environment(&source(), &context, &Settings::new());
    assert_eq!(value(&env, "SUDO_UID"), Some("0"));
    assert_eq!(value(&env, "SUDO_GID"), Some("4294967295"));
}

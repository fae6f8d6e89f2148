use sudo_rs::su::cli::{SuAction, SuOptions};

fn parse(args: &[&str]) -> SuOptions {
    let mut args = args.iter().map(|s| s.to_string()).collect::<Vec<String>>();
    args.insert(0, "/bin/su".to_string());
    SuOptions::parse_arguments(args).unwrap()
}

#[test]
fn it_parses_group() {
    let expected = SuOptions {
        group: vec!["ferris".into()],
        ..Default::default()
    };
    assert_eq!(expected, parse(&["-g", "ferris"]));
    assert_eq!(expected, parse(&["-gferris"]));
    assert_eq!(expected, parse(&["--group", "ferris"]));
    assert_eq!(expected, parse(&["--group=ferris"]));
}

#[test]
fn it_parses_shell_default() {
    let result = parse(&["--shell", "/bin/bash"]);
    assert_eq!(
        result,
        SuOptions {
            shell: Some("/bin/bash".into()),
            ..Default::default()
        }
    );
}

#[test]
fn it_parses_whitelist() {
    let result = parse(&["-w", "FOO,BAR"]);
    assert_eq!(
        result,
        SuOptions {
            whitelist_environment: vec!["FOO".to_string(), "BAR".to_string()],
            ..Default::default()
        }
    );
}

#[test]
fn it_parses_combined_options() {
    let expected = SuOptions {
        login: true,
        ..Default::default()
    };

    assert_eq!(expected, parse(&["-Pl"]));
    assert_eq!(expected, parse(&["-lP"]));
}

#[test]
fn it_parses_combined_options_and_arguments() {
    let expected = SuOptions {
        login: true,
        shell: Some("/bin/bash".into()),
        ..Default::default()
    };

    assert_eq!(expected, parse(&["-Pls/bin/bash"]));
    assert_eq!(expected, parse(&["-Pls", "/bin/bash"]));
    assert_eq!(expected, parse(&["-Pl", "-s/bin/bash"]));
    assert_eq!(expected, parse(&["-lP", "-s", "/bin/bash"]));
    assert_eq!(expected, parse(&["-lP", "--shell=/bin/bash"]));
    assert_eq!(expected, parse(&["-lP", "--shell", "/bin/bash"]));
}

#[test]
fn it_parses_an_user() {
    let expected = SuOptions {
        user: "ferris".into(),
        ..Default::default()
    };
    assert_eq!(expected, parse(&["-P", "ferris"]));
    assert_eq!(expected, parse(&["ferris", "-P"]));
}

#[test]
fn it_parses_arguments() {
    let expected = SuOptions {
        user: "ferris".into(),
        arguments: vec!["script.sh".to_string()],
        ..Default::default()
    };

    assert_eq!(expected, parse(&["-P", "ferris", "script.sh"]));
}

#[test]
fn it_parses_command() {
    let expected = SuOptions {
        command: Some("'echo hi'".to_string()),
        ..Default::default()
    };
    assert_eq!(expected, parse(&["-c", "'echo hi'"]));
    assert_eq!(expected, parse(&["-c'echo hi'"]));
    assert_eq!(expected, parse(&["--command", "'echo hi'"]));
    assert_eq!(expected, parse(&["--command='echo hi'"]));

    let expected = SuOptions {
        command: Some("env".to_string()),
        ..Default::default()
    };
    assert_eq!(expected, parse(&["-c", "env"]));
    assert_eq!(expected, parse(&["-cenv"]));
    assert_eq!(expected, parse(&["--command", "env"]));
    assert_eq!(expected, parse(&["--command=env"]));
}

#[test]
fn it_parses_supplementary_group() {
    let expected = SuOptions {
        supp_group: vec!["ferris".into()],
        ..Default::default()
    };
    assert_eq!(expected, parse(&["-G", "ferris"]));
    assert_eq!(expected, parse(&["-Gferris"]));
    assert_eq!(expected, parse(&["--supp-group", "ferris"]));
    assert_eq!(expected, parse(&["--supp-group=ferris"]));
}

#[test]
fn it_parses_multiple_supplementary_groups() {
    let expected = SuOptions {
        supp_group: vec!["ferris".into(), "krabbetje".into(), "krabbe".into()],
        ..Default::default()
    };
    assert_eq!(
        expected,
        parse(&["-G", "ferris", "-G", "krabbetje", "--supp-group", "krabbe"])
    );
}

#[test]
fn it_parses_login() {
    let expected = SuOptions {
        login: true,
        ..Default::default()
    };
    assert_eq!(expected, parse(&["-"]));
    assert_eq!(expected, parse(&["-l"]));
    assert_eq!(expected, parse(&["--login"]));
}

#[test]
fn it_parses_pty() {
    let expected = SuOptions::default();
    assert_eq!(expected, parse(&["-P"]));
    assert_eq!(expected, parse(&["--pty"]));
}

#[test]
fn it_parses_shell() {
    let expected = SuOptions {
        shell: Some("some-shell".into()),
        ..Default::default()
    };
    assert_eq!(expected, parse(&["-s", "some-shell"]));
    assert_eq!(expected, parse(&["-ssome-shell"]));
    assert_eq!(expected, parse(&["--shell", "some-shell"]));
    assert_eq!(expected, parse(&["--shell=some-shell"]));
}

#[test]
fn it_parses_whitelist_environment() {
    let expected = SuOptions {
        whitelist_environment: vec!["FOO".to_string(), "BAR".to_string()],
        ..Default::default()
    };
    assert_eq!(expected, parse(&["-w", "FOO,BAR"]));
    assert_eq!(expected, parse(&["-wFOO,BAR"]));
    assert_eq!(expected, parse(&["--whitelist-environment", "FOO,BAR"]));
    assert_eq!(expected, parse(&["--whitelist-environment=FOO,BAR"]));
}

#[test]
fn it_parses_help() {
    let expected = SuOptions {
        action: SuAction::Help,
        ..Default::default()
    };
    assert_eq!(expected, parse(&["-h"]));
    assert_eq!(expected, parse(&["--help"]));
}

#[test]
fn it_parses_version() {
    let expected = SuOptions {
        action: SuAction::Version,
        ..Default::default()
    };
    assert_eq!(expected, parse(&["-V"]));
    assert_eq!(expected, parse(&["--version"]));
}

#[test]
fn short_flag_whitespace() {
    let expected = SuOptions {
        action: SuAction::Run,
        group: vec![" ".into()],
        ..Default::default()
    };
    assert_eq!(expected, parse(&["-g "]));
}

#[test]
fn short_flag_whitespace_positional_argument() {
    let expected = SuOptions {
        action: SuAction::Run,
        group: vec![" ".into()],
        user: "ghost".into(),
        ..Default::default()
    };
    assert_eq!(expected, parse(&["-g ", "ghost"]));
}

#[test]
fn long_flag_equal_whitespace() {
    let expected = SuOptions {
        action: SuAction::Run,
        group: vec![" ".to_string()],
        ..Default::default()
    };
    assert_eq!(expected, parse(&["--group= "]));
}

#[test]
fn flag_after_positional_argument() {
    let expected = SuOptions {
        action: SuAction::Run,
        arguments: vec![],
        login: true,
        user: "ferris".to_string(),
        ..Default::default()
    };
    assert_eq!(expected, parse(&["ferris", "-l"]));
}

#[test]
fn flags_after_dash() {
    let expected = SuOptions {
        action: SuAction::Run,
        command: Some("echo".to_string()),
        login: true,
        ..Default::default()
    };
    assert_eq!(expected, parse(&["-", "-c", "echo"]));
}

#[test]
fn only_positional_args_after_dashdash() {
    let expected = SuOptions {
        action: SuAction::Run,
        user: "ferris".to_string(),
        arguments: vec!["-c".to_string(), "echo".to_string()],
        ..Default::default()
    };
    assert_eq!(expected, parse(&["--", "ferris", "-c", "echo"]));
}

#[test]
fn su_default_options_ask_for_a_root_shell() {
    let options = SuOptions::default();
    assert_eq!(options.user, "root");
    assert_eq!(options.command, None);
    assert!(options.group.is_empty());
    assert!(!options.login);
    assert_eq!(options.action, SuAction::Run);
    assert_eq!(options, parse(&[]));
}

#[test]
fn su_without_any_argument_is_the_default() {
    assert_eq!(Ok(SuOptions::default()), SuOptions::parse_arguments(vec![]));
}

fn failure(args: &[&str]) -> String {
    let mut args = args.iter().map(|s| s.to_string()).collect::<Vec<String>>();
    args.insert(0, "/bin/su".to_string());
    SuOptions::parse_arguments(args).unwrap_err()
}

#[test]
fn su_rejects_unknown_options() {
    assert_eq!(failure(&["--frobnicate"]), "unrecognized option '--frobnicate'");
    assert_eq!(failure(&["--frobnicate=1"]), "unrecognized option '--frobnicate=1'");
    assert_eq!(failure(&["-x"]), "unrecognized option 'x'");
    assert_eq!(failure(&["-lx"]), "unrecognized option 'x'");
}

#[test]
fn su_rejects_a_value_for_an_option_without_one() {
    assert_eq!(failure(&["--login=yes"]), "'--login' does not take any arguments");
    assert_eq!(
        failure(&["--preserve-environment=1"]),
        "'--preserve-environment' does not take any arguments"
    );
}

#[test]
fn su_reports_a_missing_value() {
    assert_eq!(failure(&["-c"]), "no command provided");
    assert_eq!(failure(&["--command"]), "no command provided");
    assert_eq!(failure(&["-g"]), "no group provided");
    assert_eq!(failure(&["-G"]), "no supplementary group provided");
    assert_eq!(failure(&["--shell"]), "no shell provided");
    assert_eq!(failure(&["-lw"]), "no environment whitelist provided");
}

#[test]
fn su_keeps_empty_pieces_of_the_whitelist() {
    assert_eq!(
        parse(&["-w", "A,,B"]).whitelist_environment,
        vec!["A".to_string(), "".to_string(), "B".to_string()]
    );
    assert_eq!(parse(&["--whitelist-environment="]).whitelist_environment, vec!["".to_string()]);
    assert_eq!(
        parse(&["-w", "A", "-w", "B,C"]).whitelist_environment,
        vec!["A".to_string(), "B".to_string(), "C".to_string()]
    );
}

#[test]
fn su_takes_everything_behind_a_double_dash_as_it_is() {
    let options = parse(&["ferris", "--", "-l", "--", "x"]);
    assert_eq!(options.user, "ferris");
    assert!(!options.login);
    assert_eq!(options.arguments, vec!["-l".to_string(), "--".to_string(), "x".to_string()]);
    assert_eq!(parse(&["--"]), SuOptions::default());
}

#[test]
fn su_preserves_the_environment_on_either_letter() {
    assert!(parse(&["-p"]).preserve_environment);
    assert!(parse(&["-m"]).preserve_environment);
    assert!(parse(&["--preserve-environment"]).preserve_environment);
}

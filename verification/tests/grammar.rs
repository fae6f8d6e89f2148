use sudo_rs::ast::{
    is_bool_param, is_int_param, is_list_param, is_string_param, parse_lines, Command, CommandSpec, Def, DefaultValue, Directive, Hostname, Identifier, Meta,
    Mode, PermissionSpec, Qualified, RunAs, Spec, Sudo, Tag, UserSpecifier,
};
use sudo_rs::basic_parser::{Fault, Parse, Parsed, Status};
use sudo_rs::text::to_chars;

fn read(text: &str) -> Parsed<Sudo> {
    Sudo::parse(&to_chars(text), 0)
}

fn line(text: &str) -> Sudo {
    match read(text) {
        Ok((item, _)) => item,
        Err(status) => panic!("{:?} does not parse: {:?}", text, status),
    }
}

fn fault(text: &str) -> Fault {
    match read(text) {
        Err(Status::Fatal(fault, _)) => fault,
        other => panic!("{:?} parses: {:?}", text, other),
    }
}

fn user(name: &str) -> Spec<UserSpecifier> {
    Qualified::Allow(Meta::Only(UserSpecifier::User(Identifier::Name(name.to_string()))))
}

fn command(path: &str, args: Option<&str>) -> Spec<Command> {
    Qualified::Allow(Meta::Only(Command {
        path: path.to_string(),
        args: args.map(|a| a.to_string()),
    }))
}

fn everything() -> Sudo {
    Sudo::Spec(PermissionSpec {
        users: vec![user("root")],
        permissions: vec![(
            vec![Qualified::Allow(Meta::All)],
            Some(RunAs {
                users: vec![Qualified::Allow(Meta::All)],
                groups: vec![Qualified::Allow(Meta::All)],
            }),
            vec![CommandSpec(vec![], Qualified::Allow(Meta::All))],
        )],
    })
}

#[test]
fn permission_line_for_root() {
    assert_eq!(read("root ALL=(ALL:ALL) ALL"), Ok((everything(), 22)));
    assert_eq!(line("root    ALL=(ALL:ALL) ALL"), everything());
    assert_eq!(line("root\tALL = ( ALL : ALL ) ALL"), everything());
}

#[test]
fn parsing_is_repeatable() {
    let text = "User_Alias ADMINS = alice, !bob\nADMINS ALL=(ALL) NOPASSWD: /bin/ls, /bin/cat *\n";
    let chars = to_chars(text);
    assert_eq!(parse_lines(&chars), parse_lines(&chars));
    assert_eq!(read("!!x ALL=ALL"), read("!!x ALL=ALL"));
}

#[test]
fn exclamation_marks_add_up() {
    let chars = to_chars("x");
    let plain = Spec::<UserSpecifier>::parse(&chars, 0);
    assert_eq!(plain, Ok((user("x"), 1)));
    let chars = to_chars("!!x");
    assert_eq!(Spec::<UserSpecifier>::parse(&chars, 0), Ok((user("x"), 3)));
    let chars = to_chars("! ! x");
    assert_eq!(Spec::<UserSpecifier>::parse(&chars, 0), Ok((user("x"), 5)));
    let forbidden =
        Qualified::Forbid(Meta::Only(UserSpecifier::User(Identifier::Name("x".to_string()))));
    let chars = to_chars("!x");
    assert_eq!(Spec::<UserSpecifier>::parse(&chars, 0), Ok((forbidden.clone(), 2)));
    let chars = to_chars("!!!x");
    assert_eq!(Spec::<UserSpecifier>::parse(&chars, 0), Ok((forbidden, 4)));
    let chars = to_chars("!!!!ALL");
    assert_eq!(Spec::<Hostname>::parse(&chars, 0), Ok((Qualified::Allow(Meta::All), 7)));
}

#[test]
fn an_item_behind_an_exclamation_mark_is_required() {
    let chars = to_chars("=");
    assert_eq!(Spec::<UserSpecifier>::parse(&chars, 0), Err(Status::Reject));
    let chars = to_chars("!=");
    assert_eq!(
        Spec::<UserSpecifier>::parse(&chars, 0),
        Err(Status::Fatal(Fault::MissingItem, 1))
    );
}

#[test]
fn all_and_aliases_and_names() {
    let chars = to_chars("ALL");
    assert_eq!(Meta::<Hostname>::parse(&chars, 0), Ok((Meta::All, 3)));
    let chars = to_chars("SERVERS_2 ");
    assert_eq!(Meta::<Hostname>::parse(&chars, 0), Ok((Meta::Alias("SERVERS_2".to_string()), 10)));
    let chars = to_chars("mail.example.org");
    assert_eq!(
        Meta::<Hostname>::parse(&chars, 0),
        Ok((Meta::Only(Hostname("mail.example.org".to_string())), 16))
    );
    let chars = to_chars("All");
    assert_eq!(
        Meta::<Hostname>::parse(&chars, 0),
        Ok((Meta::Only(Hostname("All".to_string())), 3))
    );
    let chars = to_chars("ADMINS");
    assert_eq!(Meta::<UserSpecifier>::parse(&chars, 0), Ok((Meta::Alias("ADMINS".to_string()), 6)));
    let chars = to_chars("ALL");
    assert_eq!(Meta::<Identifier>::parse(&chars, 0), Ok((Meta::All, 3)));
}

#[test]
fn identifiers_are_names_or_numbers() {
    let chars = to_chars("_apt-2 x");
    assert_eq!(Identifier::parse(&chars, 0), Ok((Identifier::Name("_apt-2".to_string()), 7)));
    let chars = to_chars("#1000");
    assert_eq!(Identifier::parse(&chars, 0), Ok((Identifier::ID(1000), 5)));
    let chars = to_chars("#4294967295");
    assert_eq!(Identifier::parse(&chars, 0), Ok((Identifier::ID(4294967295), 11)));
    let chars = to_chars("#4294967296");
    assert_eq!(Identifier::parse(&chars, 0), Err(Status::Fatal(Fault::NumberTooLarge, 1)));
    let chars = to_chars("#x");
    assert_eq!(Identifier::parse(&chars, 0), Err(Status::Fatal(Fault::MissingItem, 1)));
    let chars = to_chars("9lives");
    assert_eq!(Identifier::parse(&chars, 0), Err(Status::Reject));
    let chars = to_chars("a.b");
    assert_eq!(Identifier::parse(&chars, 0), Ok((Identifier::Name("a".to_string()), 1)));
}

#[test]
fn user_specifiers() {
    let chars = to_chars("%wheel");
    assert_eq!(
        UserSpecifier::parse(&chars, 0),
        Ok((UserSpecifier::Group(Identifier::Name("wheel".to_string())), 6))
    );
    let chars = to_chars("%#10");
    assert_eq!(UserSpecifier::parse(&chars, 0), Ok((UserSpecifier::Group(Identifier::ID(10)), 4)));
    let chars = to_chars("%:domain");
    assert_eq!(
        UserSpecifier::parse(&chars, 0),
        Ok((UserSpecifier::NonunixGroup(Identifier::Name("domain".to_string())), 8))
    );
    let chars = to_chars("% wheel");
    assert_eq!(UserSpecifier::parse(&chars, 0), Err(Status::Fatal(Fault::MissingItem, 1)));
    let chars = to_chars("%ALL");
    assert_eq!(
        Meta::<UserSpecifier>::parse(&chars, 0),
        Ok((Meta::Only(UserSpecifier::Group(Identifier::Name("ALL".to_string()))), 4))
    );
}

#[test]
fn netgroups_are_refused() {
    assert_eq!(read("+admins ALL=ALL"), Err(Status::Fatal(Fault::Netgroup, 1)));
}

#[test]
fn a_line_that_begins_with_a_number_sign() {
    let spec = line("#1000 ALL = ALL");
    assert_eq!(
        spec,
        Sudo::Spec(PermissionSpec {
            users: vec![Qualified::Allow(Meta::Only(UserSpecifier::User(Identifier::ID(1000))))],
            permissions: vec![(
                vec![Qualified::Allow(Meta::All)],
                None,
                vec![CommandSpec(vec![], Qualified::Allow(Meta::All))],
            )],
        })
    );
    match line("#1000, alice, !bob ALL = ALL") {
        Sudo::Spec(p) => {
            assert_eq!(p.users.len(), 3);
            assert_eq!(p.users[1], user("alice"));
        }
        other => panic!("{:?}", other),
    }
    assert_eq!(read("# 1000 ALL = ALL"), Ok((Sudo::LineComment, 16)));
    assert_eq!(read("# a comment\nroot ALL=ALL"), Ok((Sudo::LineComment, 11)));
    assert_eq!(read("#"), Ok((Sudo::LineComment, 1)));
    assert_eq!(read("#4294967296 is too large for an id"), Ok((Sudo::LineComment, 34)));
    assert_eq!(line("#include /etc/sudoers.local"), Sudo::Include("/etc/sudoers.local".to_string()));
    assert_eq!(line("#includedir /etc/sudoers.d"), Sudo::IncludeDir("/etc/sudoers.d".to_string()));
    assert_eq!(read("#includes are fun"), Ok((Sudo::LineComment, 17)));
}

#[test]
fn include_directives() {
    assert_eq!(line("@include /etc/sudoers.local\n"), Sudo::Include("/etc/sudoers.local".to_string()));
    assert_eq!(
        line("@includedir \"/etc/sudoers d\""),
        Sudo::IncludeDir("/etc/sudoers d".to_string())
    );
    assert_eq!(line("@include /etc/with\\ blank"), Sudo::Include("/etc/with blank".to_string()));
    assert_eq!(fault("@include /etc/a b\n"), Fault::UnquotedPath);
    assert_eq!(fault("@include \"/etc/a"), Fault::UnterminatedQuote);
    assert_eq!(fault("@import /etc/a"), Fault::UnknownDirective);
    assert_eq!(read("@ include /etc/a"), Err(Status::Fatal(Fault::UnknownDirective, 1)));
    assert_eq!(fault("@include"), Fault::MissingItem);
    assert_eq!(fault("@include \"\""), Fault::MissingItem);
}

#[test]
fn what_is_nothing_else_is_an_empty_comment() {
    assert_eq!(read(""), Ok((Sudo::LineComment, 0)));
    assert_eq!(read("= nothing"), Ok((Sudo::LineComment, 0)));
    assert_eq!(read("\nroot ALL=ALL"), Ok((Sudo::LineComment, 0)));
}

#[test]
fn tags_before_commands() {
    match line("ALL ALL=(ALL:ALL) NOPASSWD: ALL") {
        Sudo::Spec(p) => {
            assert_eq!(p.users, vec![Qualified::Allow(Meta::All)]);
            assert_eq!(
                p.permissions[0].2,
                vec![CommandSpec(vec![Tag::NoPasswd], Qualified::Allow(Meta::All))]
            );
        }
        other => panic!("{:?}", other),
    }
    match line("u h = TIMEOUT=30 NOPASSWD: /bin/ls -l, NOEXEC: CMDS, !/bin/sh") {
        Sudo::Spec(p) => {
            let cmds = &p.permissions[0].2;
            assert_eq!(cmds.len(), 3);
            assert_eq!(
                cmds[0],
                CommandSpec(vec![Tag::Timeout(30), Tag::NoPasswd], command("/bin/ls", Some("-l")))
            );
            assert_eq!(cmds[1], CommandSpec(vec![], Qualified::Allow(Meta::Alias("CMDS".to_string()))));
            assert_eq!(
                cmds[2],
                CommandSpec(
                    vec![],
                    Qualified::Forbid(Meta::Only(Command { path: "/bin/sh".to_string(), args: None }))
                )
            );
        }
        other => panic!("{:?}", other),
    }
    assert_eq!(fault("u h = NOPASSWD ALL"), Fault::MissingSyntax(':'));
    assert_eq!(fault("u h = TIMEOUT ALL"), Fault::MissingSyntax('='));
    assert_eq!(fault("u h = TIMEOUT= ALL"), Fault::MissingItem);
    assert_eq!(fault("u h = TIMEOUT=2147483648 ALL"), Fault::NumberTooLarge);
    assert_eq!(fault("u h = TIMEOUT=12345678901 ALL"), Fault::TokenTooLong);
    match line("u h = TIMEOUT=2147483647 ALL") {
        Sudo::Spec(p) => assert_eq!(p.permissions[0].2[0].0, vec![Tag::Timeout(2147483647)]),
        other => panic!("{:?}", other),
    }
}

#[test]
fn commands_with_arguments_and_escapes() {
    let chars = to_chars("/usr/bin/apt   update  *  ");
    assert_eq!(
        Spec::<Command>::parse(&chars, 0),
        Ok((command("/usr/bin/apt", Some("update  *")), 26))
    );
    let chars = to_chars("/bin/echo a\\,b\\=c, /bin/true");
    assert_eq!(
        Spec::<Command>::parse(&chars, 0),
        Ok((command("/bin/echo", Some("a,b=c")), 17))
    );
    let chars = to_chars("/bin/ls \\\n -l");
    assert_eq!(Spec::<Command>::parse(&chars, 0), Ok((command("/bin/ls", None), 11)));
    let chars = to_chars("/bin/ls \\x");
    assert_eq!(Spec::<Command>::parse(&chars, 0), Err(Status::Fatal(Fault::IllegalEscape, 9)));
    let chars = to_chars("ALL");
    assert_eq!(Spec::<Command>::parse(&chars, 0), Ok((Qualified::Allow(Meta::All), 3)));
    let chars = to_chars("Foo");
    assert_eq!(Spec::<Command>::parse(&chars, 0), Err(Status::Fatal(Fault::BadCommand, 0)));
    let chars = to_chars("bin/ls");
    assert_eq!(Spec::<Command>::parse(&chars, 0), Err(Status::Reject));
}

#[test]
fn runas_parts() {
    let chars = to_chars("(root, %wheel : #0) x");
    let (runas, end) = RunAs::parse(&chars, 0).unwrap();
    assert_eq!(end, 20);
    assert_eq!(runas.users.len(), 2);
    assert_eq!(runas.groups, vec![Qualified::Allow(Meta::Only(Identifier::ID(0)))]);
    let chars = to_chars("()");
    assert_eq!(RunAs::parse(&chars, 0), Ok((RunAs::default(), 2)));
    let chars = to_chars("(:)");
    assert_eq!(RunAs::parse(&chars, 0), Ok((RunAs::default(), 3)));
    let chars = to_chars("(: wheel)");
    let (runas, _) = RunAs::parse(&chars, 0).unwrap();
    assert!(runas.users.is_empty());
    assert_eq!(runas.groups, vec![Qualified::Allow(Meta::Only(Identifier::Name("wheel".to_string())))]);
    let chars = to_chars("(root");
    assert_eq!(RunAs::parse(&chars, 0), Err(Status::Fatal(Fault::MissingSyntax(')'), 5)));
    let chars = to_chars("root");
    assert_eq!(RunAs::parse(&chars, 0), Err(Status::Reject));
    assert_eq!(fault("root ALL=(#4294967296) ALL"), Fault::NumberTooLarge);
}

#[test]
fn several_parts_on_one_line() {
    match line("alice web=(www) /bin/ls : db = /bin/cat, /bin/df") {
        Sudo::Spec(p) => {
            assert_eq!(p.permissions.len(), 2);
            assert_eq!(
                p.permissions[0].0,
                vec![Qualified::Allow(Meta::Only(Hostname("web".to_string())))]
            );
            assert!(p.permissions[0].1.is_some());
            assert!(p.permissions[1].1.is_none());
            assert_eq!(p.permissions[1].2.len(), 2);
        }
        other => panic!("{:?}", other),
    }
}

#[test]
fn alias_definitions() {
    assert_eq!(
        line("User_Alias ADMINS = alice, !bob"),
        Sudo::Decl(Directive::UserAlias(Def(
            "ADMINS".to_string(),
            vec![
                user("alice"),
                Qualified::Forbid(Meta::Only(UserSpecifier::User(Identifier::Name(
                    "bob".to_string()
                )))),
            ]
        )))
    );
    assert_eq!(
        line("Host_Alias WEB = www1, WWW2"),
        Sudo::Decl(Directive::HostAlias(Def(
            "WEB".to_string(),
            vec![
                Qualified::Allow(Meta::Only(Hostname("www1".to_string()))),
                Qualified::Allow(Meta::Alias("WWW2".to_string())),
            ]
        )))
    );
    let cmds = Directive::CmndAlias(Def(
        "PAGERS".to_string(),
        vec![command("/usr/bin/more", None), command("/usr/bin/less", None)],
    ));
    assert_eq!(line("Cmnd_Alias PAGERS = /usr/bin/more, /usr/bin/less"), Sudo::Decl(cmds.clone()));
    assert_eq!(line("Cmd_Alias PAGERS = /usr/bin/more, /usr/bin/less"), Sudo::Decl(cmds));
    assert_eq!(
        line("Runas_Alias OP = root, %operator"),
        Sudo::Decl(Directive::RunasAlias(Def(
            "OP".to_string(),
            vec![
                user("root"),
                Qualified::Allow(Meta::Only(UserSpecifier::Group(Identifier::Name(
                    "operator".to_string()
                )))),
            ]
        )))
    );
    assert_eq!(fault("User_Alias admins = alice"), Fault::MissingItem);
    assert_eq!(fault("User_Alias ADMINS alice"), Fault::MissingSyntax('='));
    assert_eq!(fault("User_Alias ADMINS ="), Fault::MissingItem);
    assert_eq!(fault("Cmnd_Alias X = Foo"), Fault::BadCommand);
    assert_eq!(fault("User_Alias, foo X = y"), Fault::KeywordInUserList);
}

fn setting(text: &str) -> (String, DefaultValue) {
    match line(text) {
        Sudo::Decl(Directive::Defaults(name, value)) => (name, value),
        other => panic!("{:?}", other),
    }
}

#[test]
fn the_five_shapes_of_a_setting() {
    assert_eq!(setting("Defaults use_pty"), ("use_pty".to_string(), DefaultValue::Flag(true)));
    assert_eq!(setting("Defaults !use_pty"), ("use_pty".to_string(), DefaultValue::Flag(false)));
    assert_eq!(
        setting("Defaults secure_path=\"/usr/sbin:/usr/bin\""),
        ("secure_path".to_string(), DefaultValue::Text("/usr/sbin:/usr/bin".to_string()))
    );
    assert_eq!(
        setting("Defaults lecture_file = /etc/lecture"),
        ("lecture_file".to_string(), DefaultValue::Text("/etc/lecture".to_string()))
    );
    assert_eq!(
        setting("Defaults env_keep = \"COLORS DISPLAY, LANG\""),
        (
            "env_keep".to_string(),
            DefaultValue::List(
                Mode::Assign,
                vec!["COLORS".to_string(), "DISPLAY".to_string(), "LANG".to_string()]
            )
        )
    );
    assert_eq!(
        setting("Defaults env_keep += EDITOR"),
        ("env_keep".to_string(), DefaultValue::List(Mode::Add, vec!["EDITOR".to_string()]))
    );
    assert_eq!(
        setting("Defaults env_check-=\"TZ\""),
        ("env_check".to_string(), DefaultValue::List(Mode::Del, vec!["TZ".to_string()]))
    );
    assert_eq!(
        setting("Defaults editor=vi"),
        ("editor".to_string(), DefaultValue::List(Mode::Assign, vec!["vi".to_string()]))
    );
}

#[test]
fn settings_of_the_wrong_kind() {
    assert_eq!(fault("Defaults env_keep"), Fault::NotBoolean);
    assert_eq!(fault("Defaults !secure_path"), Fault::NotBoolean);
    assert_eq!(fault("Defaults secure_path += \"x\""), Fault::NotList);
    assert_eq!(fault("Defaults lecture_file -= x"), Fault::NotList);
    assert_eq!(fault("Defaults env_keep = \"A=1\""), Fault::ValueInList);
    assert_eq!(fault("Defaults env_keep = \"\""), Fault::EmptyList);
    assert_eq!(fault("Defaults env_keep = \"A"), Fault::UnterminatedQuote);
    assert_eq!(fault("Defaults env_keep +"), Fault::MissingSyntax('='));
    assert_eq!(fault("Defaults env_keep ="), Fault::MissingItem);
    assert_eq!(fault("Defaults !"), Fault::MissingItem);
}

#[test]
fn the_kinds_of_settings() {
    assert!(is_list_param("env_keep"));
    assert!(is_list_param("anything"));
    assert!(!is_list_param("secure_path"));
    assert!(!is_list_param("lecture_file"));
    assert!(is_string_param("secure_path"));
    assert!(is_string_param("anything"));
    assert!(!is_string_param("env_check"));
    assert!(is_bool_param("use_pty"));
    assert!(!is_bool_param("env_delete"));
    assert!(!is_bool_param("lecture_file"));
    assert!(is_int_param("passwd_tries"));
    assert!(!is_int_param("env_keep"));
}

#[test]
fn syntax_that_is_missing() {
    assert_eq!(read("root ALL ALL"), Err(Status::Fatal(Fault::MissingSyntax('='), 9)));
    assert_eq!(read("root ALL="), Err(Status::Fatal(Fault::MissingItem, 9)));
    assert_eq!(read("root"), Err(Status::Fatal(Fault::MissingItem, 4)));
    assert_eq!(read("root ALL=ALL,"), Err(Status::Fatal(Fault::MissingItem, 13)));
}

#[test]
fn backslashes_between_tokens() {
    assert_eq!(line("root \\\n  ALL = \\\n ALL"), line("root ALL = ALL"));
    assert_eq!(read("root \\x ALL=ALL"), Err(Status::Fatal(Fault::StrayEscape, 6)));
    assert_eq!(read("root \\"), Err(Status::Fatal(Fault::StrayEscape, 6)));
}

#[test]
fn tokens_and_lists_have_limits() {
    let long = "a".repeat(255);
    assert!(read(&format!("{} ALL=ALL", long)).is_ok());
    let longer = "a".repeat(256);
    assert_eq!(read(&format!("{} ALL=ALL", longer)), Err(Status::Fatal(Fault::TokenTooLong, 255)));
    let users = vec!["u"; 127].join(",");
    assert!(read(&format!("{} ALL=ALL", users)).is_ok());
    let users = vec!["u"; 128].join(",");
    assert_eq!(fault(&format!("{} ALL=ALL", users)), Fault::TooManyItems);
    let tags = "NOPASSWD: ".repeat(127);
    assert!(read(&format!("u h = {}ALL", tags)).is_ok());
    let tags = "NOPASSWD: ".repeat(128);
    assert_eq!(fault(&format!("u h = {}ALL", tags)), Fault::TooManyTags);
}

#[test]
fn lines_of_a_policy() {
    let text = "\n# users\nroot ALL=ALL # all of it\n  alice ALL = /bin/ls\n";
    let lines = parse_lines(&to_chars(text));
    assert_eq!(lines.len(), 4);
    assert_eq!(lines[0], Ok(Sudo::LineComment));
    assert_eq!(lines[1], Ok(Sudo::LineComment));
    assert_eq!(lines[2], Ok(line("root ALL=ALL")));
    assert_eq!(lines[3], Ok(line("alice ALL = /bin/ls")));
    assert_eq!(parse_lines(&to_chars("")), vec![]);
    assert_eq!(parse_lines(&to_chars("   \t ")), vec![]);
    assert_eq!(parse_lines(&to_chars("root ALL=ALL")), vec![Ok(line("root ALL=ALL"))]);
}

#[test]
fn a_malformed_line_does_not_end_the_policy() {
    let text = "root ALL ALL\nalice ALL=ALL )\nbob ALL=ALL";
    let lines = parse_lines(&to_chars(text));
    assert_eq!(lines.len(), 4);
    assert_eq!(lines[0], Err((Fault::MissingSyntax('='), 9)));
    assert_eq!(lines[1], Ok(line("alice ALL=ALL")));
    assert_eq!(lines[2], Err((Fault::TrailingText, 27)));
    assert_eq!(lines[3], Ok(line("bob ALL=ALL")));
}

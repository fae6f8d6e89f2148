use sudo_rs::analysis::Problem;
use sudo_rs::basic_parser::Fault;
use sudo_rs::sudoers::{line_column, parse, ParseError, Source, Sudoers};
use sudo_rs::text::to_chars;

fn problems(text: &str) -> Vec<Problem> {
    match parse(text, &vec![]) {
        Ok(policy) => panic!("{:?}", policy),
        Err(ParseError { problems }) => problems,
    }
}

fn file(path: &str, text: &str) -> Source {
    Source::File { path: path.to_string(), text: text.to_string() }
}

fn dir(path: &str, entries: &[&str]) -> Source {
    Source::Dir { path: path.to_string(), entries: entries.iter().map(|e| e.to_string()).collect() }
}

#[test]
fn a_policy_in_order() {
    let text = "# the policy\nDefaults use_pty\nUser_Alias ADMINS = alice\nHost_Alias WEB = www\nCmnd_Alias LS = /bin/ls\nRunas_Alias OP = root\n\nADMINS WEB = (OP) LS\nroot ALL = ALL\n";
    let policy = parse(text, &vec![]).unwrap();
    assert_eq!(policy.rules.len(), 2);
    assert_eq!(policy.aliases.user.len(), 1);
    assert_eq!(policy.aliases.user[0].0, "ADMINS");
    assert_eq!(policy.aliases.host.len(), 1);
    assert_eq!(policy.aliases.cmnd.len(), 1);
    assert_eq!(policy.aliases.runas.len(), 1);
    assert!(policy.settings.flag("use_pty"));
    assert_eq!(parse(text, &vec![]), Ok(policy));
    assert_eq!(parse("", &vec![]), Ok(Sudoers::new()));
}

#[test]
fn malformed_lines_are_reported_with_their_place() {
    let text = "root ALL=ALL\nroot ALL ALL\n  alice ALL=ALL )\n";
    assert_eq!(
        problems(text),
        vec![
            Problem::Syntax { fault: Fault::MissingSyntax('='), line: 1, column: 9 },
            Problem::Syntax { fault: Fault::TrailingText, line: 2, column: 16 },
        ]
    );
    assert_eq!(
        problems("+net ALL=ALL"),
        vec![Problem::Syntax { fault: Fault::Netgroup, line: 0, column: 1 }]
    );
}

#[test]
fn lines_and_columns_are_counted_from_zero() {
    let text = to_chars("ab\ncd\n\nef");
    assert_eq!(line_column(&text, 0), (0, 0));
    assert_eq!(line_column(&text, 2), (0, 2));
    assert_eq!(line_column(&text, 3), (1, 0));
    assert_eq!(line_column(&text, 5), (1, 2));
    assert_eq!(line_column(&text, 6), (2, 0));
    assert_eq!(line_column(&text, 7), (3, 0));
    assert_eq!(line_column(&text, 9), (3, 2));
}

#[test]
fn aliases_that_are_defined_twice() {
    let text = "User_Alias A = alice\nUser_Alias B = bob\nUser_Alias A = carol\nHost_Alias A = web\nUser_Alias A = dave\n";
    assert_eq!(
        problems(text),
        vec![Problem::DuplicateAlias("A".to_string()), Problem::DuplicateAlias("A".to_string())]
    );
}

#[test]
fn aliases_that_are_not_defined() {
    assert_eq!(problems("ADMINS ALL = ALL"), vec![Problem::UndefinedAlias("ADMINS".to_string())]);
    assert_eq!(
        problems("User_Alias A = alice\nA H = (R : G) C, !D"),
        vec![
            Problem::UndefinedAlias("H".to_string()),
            Problem::UndefinedAlias("R".to_string()),
            Problem::UndefinedAlias("G".to_string()),
            Problem::UndefinedAlias("C".to_string()),
            Problem::UndefinedAlias("D".to_string()),
        ]
    );
    assert_eq!(
        problems("User_Alias A = B, alice\nHost_Alias B = web"),
        vec![Problem::UndefinedAlias("B".to_string())]
    );
    assert!(parse("Runas_Alias G = wheel\nroot ALL = (G : G) ALL", &vec![]).is_ok());
}

#[test]
fn aliases_that_are_defined_by_themselves() {
    assert_eq!(problems("User_Alias A = A"), vec![Problem::CyclicAlias("A".to_string())]);
    assert_eq!(
        problems("Cmnd_Alias A = /bin/ls, B\nCmnd_Alias B = !C\nCmnd_Alias C = A\nCmnd_Alias D = /bin/cat\nCmnd_Alias E = D, A"),
        vec![
            Problem::CyclicAlias("A".to_string()),
            Problem::CyclicAlias("B".to_string()),
            Problem::CyclicAlias("C".to_string()),
            Problem::CyclicAlias("E".to_string()),
        ]
    );
    assert!(parse("User_Alias A = B, C\nUser_Alias B = C\nUser_Alias C = c\nUser_Alias D = A, B, C", &vec![]).is_ok());
    assert!(parse("User_Alias A = alice\nHost_Alias A = A_HOST\nHost_Alias A_HOST = a", &vec![]).is_ok());
}

#[test]
fn everything_that_is_wrong_is_reported() {
    let text = "User_Alias A = A\nroot ALL ALL\nUser_Alias A = B\n@include /missing\n";
    assert_eq!(
        problems(text),
        vec![
            Problem::Syntax { fault: Fault::MissingSyntax('='), line: 1, column: 9 },
            Problem::MissingInclude("/missing".to_string()),
            Problem::DuplicateAlias("A".to_string()),
            Problem::UndefinedAlias("B".to_string()),
            Problem::CyclicAlias("A".to_string()),
        ]
    );
}

#[test]
fn included_files_are_read_in_place() {
    let sources = vec![
        file("/etc/sudoers.local", "alice ALL = !/bin/ls\n@includedir /etc/sudoers.d\n"),
        dir("/etc/sudoers.d", &["/etc/sudoers.d/10", "/etc/sudoers.d/20"]),
        file("/etc/sudoers.d/20", "User_Alias SECOND = b\n"),
        file("/etc/sudoers.d/10", "User_Alias FIRST = a\nDefaults secure_path = /usr/bin\n"),
        file("/etc/sudoers.local", "this one is never read"),
    ];
    let text = "alice ALL = ALL\n#include /etc/sudoers.local\nalice ALL = /bin/cat\nDefaults secure_path = /bin\n";
    let policy = parse(text, &sources).unwrap();
    let all = "alice ALL = ALL\nalice ALL = !/bin/ls\nUser_Alias FIRST = a\nDefaults secure_path = /usr/bin\nUser_Alias SECOND = b\nalice ALL = /bin/cat\nDefaults secure_path = /bin\n";
    assert_eq!(policy.rules, parse(all, &vec![]).unwrap().rules);
    assert_eq!(policy.aliases, parse(all, &vec![]).unwrap().aliases);
    assert_eq!(policy.settings.text("secure_path"), Some(&"/bin".to_string()));
}

#[test]
fn files_that_were_not_supplied() {
    assert_eq!(
        problems("@include /etc/a\n@includedir /etc/d\n"),
        vec![
            Problem::MissingInclude("/etc/a".to_string()),
            Problem::MissingInclude("/etc/d".to_string()),
        ]
    );
    let sources = vec![dir("/etc/d", &["/etc/d/x"]), dir("/etc/a", &[]), file("/etc/d", "")];
    match parse("@include /etc/a\n@includedir /etc/d\n", &sources) {
        Err(ParseError { problems }) => assert_eq!(
            problems,
            vec![
                Problem::MissingInclude("/etc/a".to_string()),
                Problem::MissingInclude("/etc/d/x".to_string()),
            ]
        ),
        other => panic!("{:?}", other),
    }
    assert!(parse("@includedir /etc/a\n", &sources).is_ok());
}

#[test]
fn problems_in_included_files_are_reported() {
    let sources = vec![file("/etc/a", "\n\nroot ALL\n")];
    match parse("root ALL = ALL\n@include /etc/a\n", &sources) {
        Err(ParseError { problems }) => assert_eq!(
            problems,
            vec![Problem::Syntax { fault: Fault::MissingSyntax('='), line: 2, column: 8 }]
        ),
        other => panic!("{:?}", other),
    }
}

#[test]
fn a_file_that_includes_itself() {
    let sources = vec![file("/etc/a", "@include /etc/a\nroot ALL = ALL\n")];
    match parse("@include /etc/a\n", &sources) {
        Err(ParseError { problems }) => {
            assert_eq!(problems, vec![Problem::IncludeNesting("/etc/a".to_string())])
        }
        other => panic!("{:?}", other),
    }
}

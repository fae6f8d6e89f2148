use sudo_rs::evaluate::{evaluate, Flags, Group, Judgement, Request, User};
use sudo_rs::policy::{Authorization, Policy, PreJudgementPolicy};
use sudo_rs::sudoers::{parse, Sudoers};

fn policy(text: &str) -> Sudoers {
    match parse(text, &vec![]) {
        Ok(policy) => policy,
        Err(error) => panic!("{:?}", error),
    }
}

fn group(name: &str, gid: u32) -> Group {
    Group { gid, name: name.to_string(), members: vec![] }
}

fn person(name: &str, uid: u32, groups: Vec<Group>) -> User {
    User {
        uid,
        gid: uid,
        name: name.to_string(),
        home: format!("/home/{}", name),
        shell: "/bin/sh".to_string(),
        groups: Some(groups),
    }
}

fn root() -> User {
    User {
        uid: 0,
        gid: 0,
        name: "root".to_string(),
        home: "/root".to_string(),
        shell: "/bin/bash".to_string(),
        groups: None,
    }
}

fn request(invoker: User, target: User, target_group: Group, command: &str, args: &[&str]) -> Request {
    Request {
        invoker_user: invoker,
        invoker_host: "host".to_string(),
        target_user: target,
        target_group,
        command_path: command.to_string(),
        command_args: args.iter().map(|a| a.to_string()).collect(),
    }
}

fn as_root(invoker: User, command: &str, args: &[&str]) -> Request {
    request(invoker, root(), group("root", 0), command, args)
}

fn verdict(text: &str, request: &Request) -> Option<Flags> {
    evaluate(&policy(text), request).flags
}

const ALLOWED: Option<Flags> = Some(Flags { passwd: true, timeout: None });
const ALLOWED_AT_ONCE: Option<Flags> = Some(Flags { passwd: false, timeout: None });

#[test]
fn root_may_run_everything() {
    let text = "root ALL=(ALL:ALL) ALL";
    assert_eq!(verdict(text, &as_root(root(), "/bin/ls", &[])), ALLOWED);
    let other = person("ferris", 1000, vec![]);
    let wheel = group("wheel", 10);
    let mut asked = request(root(), other, wheel, "/bin/ls", &["-l", "/tmp"]);
    asked.invoker_host = "elsewhere".to_string();
    let judged = evaluate(&policy(text), &asked);
    assert_eq!(judged.flags, ALLOWED);
    assert!(matches!(judged.authorization(), Authorization::Required));
}

#[test]
fn everybody_without_a_password() {
    let text = "ALL ALL=(ALL:ALL) NOPASSWD: ALL";
    let alice = person("alice", 1001, vec![]);
    let judged = evaluate(&policy(text), &as_root(alice, "/usr/bin/id", &[]));
    assert_eq!(judged.flags, ALLOWED_AT_ONCE);
    assert!(matches!(judged.authorization(), Authorization::Passed));
}

#[test]
fn another_user_is_forbidden() {
    let text = "ferris ALL=(ALL:ALL) NOPASSWD: ALL";
    let judged = evaluate(&policy(text), &as_root(root(), "/bin/sh", &[]));
    assert_eq!(judged.flags, None);
    assert!(matches!(judged.authorization(), Authorization::Forbidden));
    let ferris = person("ferris", 1000, vec![]);
    assert_eq!(verdict(text, &as_root(ferris, "/bin/sh", &[])), ALLOWED_AT_ONCE);
}

#[test]
fn an_alias_with_a_negated_member() {
    let text = "User_Alias ADMINS = alice, !bob\nADMINS ALL=(ALL) ALL";
    let bob = person("bob", 1002, vec![]);
    let alice = person("alice", 1001, vec![]);
    let carol = person("carol", 1003, vec![]);
    assert_eq!(verdict(text, &as_root(bob, "/bin/ls", &[])), None);
    assert_eq!(verdict(text, &as_root(alice, "/bin/ls", &[])), ALLOWED);
    assert_eq!(verdict(text, &as_root(carol, "/bin/ls", &[])), None);
}

#[test]
fn a_negated_alias_turns_its_members_round() {
    let text = "User_Alias STAFF = alice, !bob\nALL, !STAFF ALL=(ALL) ALL";
    let bob = person("bob", 1002, vec![]);
    let alice = person("alice", 1001, vec![]);
    let carol = person("carol", 1003, vec![]);
    assert_eq!(verdict(text, &as_root(alice, "/bin/ls", &[])), None);
    assert_eq!(verdict(text, &as_root(bob, "/bin/ls", &[])), ALLOWED);
    assert_eq!(verdict(text, &as_root(carol, "/bin/ls", &[])), ALLOWED);
}

#[test]
fn aliases_inside_aliases() {
    let text = "User_Alias OUTER = INNER, dave\nUser_Alias INNER = alice\nOUTER ALL = ALL";
    assert_eq!(verdict(text, &as_root(person("alice", 1, vec![]), "/bin/ls", &[])), ALLOWED);
    assert_eq!(verdict(text, &as_root(person("dave", 2, vec![]), "/bin/ls", &[])), ALLOWED);
    assert_eq!(verdict(text, &as_root(person("erin", 3, vec![]), "/bin/ls", &[])), None);
}

#[test]
fn the_last_entry_that_matches_decides() {
    let alice = person("alice", 1001, vec![]);
    let asked = as_root(alice, "/bin/ls", &[]);
    assert_eq!(verdict("alice ALL = ALL, !/bin/ls", &asked), None);
    assert_eq!(verdict("alice ALL = !/bin/ls, ALL", &asked), ALLOWED);
    assert_eq!(verdict("alice ALL = ALL\nalice ALL = !/bin/ls", &asked), None);
    assert_eq!(verdict("alice ALL = !/bin/ls\nalice ALL = /bin/ls", &asked), ALLOWED);
    assert_eq!(verdict("alice ALL = ALL : ALL = !ALL", &asked), None);
    assert_eq!(verdict("ALL, !alice ALL = ALL", &asked), None);
    assert_eq!(verdict("!alice, ALL ALL = ALL", &asked), ALLOWED);
}

#[test]
fn entries_that_do_not_match_change_nothing() {
    let alice = person("alice", 1001, vec![]);
    let asked = as_root(alice, "/bin/ls", &[]);
    let plain = "alice ALL = NOPASSWD: /bin/ls";
    let more = "bob ALL = !ALL\nalice other = !ALL\nalice ALL = (bob) !ALL\nalice ALL = NOPASSWD: /bin/ls\nbob ALL = !/bin/ls\nalice ALL = !/bin/cat";
    assert_eq!(verdict(plain, &asked), ALLOWED_AT_ONCE);
    assert_eq!(verdict(more, &asked), ALLOWED_AT_ONCE);
    assert_eq!(verdict("bob, alice, carol ALL = /bin/true, /bin/ls, !/bin/cat", &asked), ALLOWED);
    let denied = "alice ALL = !/bin/ls";
    let denied_more = "carol ALL = ALL\nalice ALL = !/bin/ls\nalice ALL = /bin/cat";
    assert_eq!(verdict(denied, &asked), None);
    assert_eq!(verdict(denied_more, &asked), None);
}

#[test]
fn tags_stay_in_force_within_a_list() {
    let alice = person("alice", 1001, vec![]);
    let text = "alice ALL = /bin/a, NOPASSWD: /bin/b, /bin/c, TIMEOUT=5 /bin/d : ALL = /bin/e";
    let flags = |command: &str| verdict(text, &as_root(alice.clone(), command, &[]));
    assert_eq!(flags("/bin/a"), ALLOWED);
    assert_eq!(flags("/bin/b"), ALLOWED_AT_ONCE);
    assert_eq!(flags("/bin/c"), ALLOWED_AT_ONCE);
    assert_eq!(flags("/bin/d"), Some(Flags { passwd: false, timeout: Some(5) }));
    assert_eq!(flags("/bin/e"), ALLOWED);
    assert_eq!(flags("/bin/f"), None);
    let later = "alice ALL = TIMEOUT=5 /bin/a, TIMEOUT=7 /bin/b";
    assert_eq!(
        verdict(later, &as_root(alice.clone(), "/bin/b", &[])),
        Some(Flags { passwd: true, timeout: Some(7) })
    );
}

#[test]
fn hosts_are_matched_by_name() {
    let alice = person("alice", 1001, vec![]);
    let asked = as_root(alice, "/bin/ls", &[]);
    assert_eq!(verdict("alice host = ALL", &asked), ALLOWED);
    assert_eq!(verdict("alice other = ALL", &asked), None);
    assert_eq!(verdict("alice ALL, !host = ALL", &asked), None);
    assert_eq!(verdict("Host_Alias HERE = other, host\nalice HERE = ALL", &asked), ALLOWED);
    assert_eq!(verdict("Host_Alias HERE = other, host\nalice !HERE = ALL", &asked), None);
}

#[test]
fn users_by_id_and_by_group() {
    let wheel = group("wheel", 10);
    let alice = person("alice", 1001, vec![wheel.clone()]);
    let bob = person("bob", 1002, vec![]);
    let as_alice = as_root(alice, "/bin/ls", &[]);
    let as_bob = as_root(bob, "/bin/ls", &[]);
    assert_eq!(verdict("#1001 ALL = ALL", &as_alice), ALLOWED);
    assert_eq!(verdict("#1001 ALL = ALL", &as_bob), None);
    assert_eq!(verdict("%wheel ALL = ALL", &as_alice), ALLOWED);
    assert_eq!(verdict("%wheel ALL = ALL", &as_bob), None);
    assert_eq!(verdict("%#10 ALL = ALL", &as_alice), ALLOWED);
    assert_eq!(verdict("%#10 ALL = ALL", &as_bob), None);
    assert_eq!(verdict("%#1002 ALL = ALL", &as_bob), ALLOWED);
    assert_eq!(verdict("%:wheel ALL = ALL", &as_alice), None);
}

#[test]
fn without_a_runas_part_only_root_is_the_target() {
    let alice = person("alice", 1001, vec![]);
    let bob = person("bob", 1002, vec![]);
    let bobs = group("bob", 1002);
    let to_bob = request(alice.clone(), bob.clone(), bobs.clone(), "/bin/ls", &[]);
    assert_eq!(verdict("alice ALL = ALL", &as_root(alice.clone(), "/bin/ls", &[])), ALLOWED);
    assert_eq!(verdict("alice ALL = ALL", &to_bob), None);
    assert_eq!(verdict("alice ALL = () ALL", &to_bob), None);
    assert_eq!(verdict("alice ALL = (bob) ALL", &to_bob), ALLOWED);
    assert_eq!(verdict("alice ALL = (ALL, !bob) ALL", &to_bob), None);
    assert_eq!(verdict("alice ALL = (bob) ALL", &as_root(alice.clone(), "/bin/ls", &[])), None);
    assert_eq!(verdict("Runas_Alias OP = bob\nalice ALL = (OP) ALL", &to_bob), ALLOWED);
}

#[test]
fn the_target_group_is_one_of_the_users_or_must_be_listed() {
    let alice = person("alice", 1001, vec![]);
    let wheel = group("wheel", 10);
    let to_wheel = request(alice.clone(), root(), wheel.clone(), "/bin/ls", &[]);
    assert_eq!(verdict("alice ALL = (root) ALL", &to_wheel), None);
    assert_eq!(verdict("alice ALL = (root : wheel) ALL", &to_wheel), ALLOWED);
    assert_eq!(verdict("alice ALL = (root : #10) ALL", &to_wheel), ALLOWED);
    assert_eq!(verdict("alice ALL = (root : ALL, !wheel) ALL", &to_wheel), None);
    assert_eq!(verdict("alice ALL = (root : other) ALL", &to_wheel), None);
    assert_eq!(verdict("Runas_Alias G = wheel\nalice ALL = (root : G) ALL", &to_wheel), ALLOWED);
    let mut listed = wheel.clone();
    listed.members = vec!["root".to_string()];
    let to_listed = request(alice.clone(), root(), listed, "/bin/ls", &[]);
    assert_eq!(verdict("alice ALL = (root) ALL", &to_listed), ALLOWED);
    let mut member = root();
    member.groups = Some(vec![wheel.clone()]);
    let to_member = request(alice, member, wheel, "/bin/ls", &[]);
    assert_eq!(verdict("alice ALL = (root) ALL", &to_member), ALLOWED);
    assert_eq!(verdict("alice ALL = (root : other) ALL", &to_member), ALLOWED);
    assert_eq!(verdict("alice ALL = (root : !wheel) ALL", &to_member), None);
    assert_eq!(verdict("alice ALL = (root : ALL) ALL", &to_member), ALLOWED);
}

#[test]
fn commands_are_matched_by_path_and_arguments() {
    let alice = person("alice", 1001, vec![]);
    let run = |text: &str, command: &str, args: &[&str]| {
        verdict(text, &as_root(alice.clone(), command, args)).is_some()
    };
    assert!(run("alice ALL = /bin/ls", "/bin/ls", &[]));
    assert!(run("alice ALL = /bin/ls", "/bin/ls", &["-l", "/tmp"]));
    assert!(!run("alice ALL = /bin/ls", "/bin/lsof", &[]));
    assert!(run("alice ALL = /bin/ls -l", "/bin/ls", &["-l"]));
    assert!(!run("alice ALL = /bin/ls -l", "/bin/ls", &[]));
    assert!(!run("alice ALL = /bin/ls -l", "/bin/ls", &["-l", "/tmp"]));
    assert!(run("alice ALL = /bin/ls -l *", "/bin/ls", &["-l", "/tmp"]));
    assert!(run("alice ALL = /bin/ls -l *", "/bin/ls", &["-l", "/tmp/a b"]));
    assert!(run("alice ALL = /usr/bin/*", "/usr/bin/id", &[]));
    assert!(!run("alice ALL = /usr/bin/*", "/usr/bin/sub/id", &[]));
    assert!(!run("alice ALL = /usr/bin/*", "/usr/sbin/id", &[]));
    assert!(run("alice ALL = /usr/*/id", "/usr/sbin/id", &[]));
    assert!(run("alice ALL = /bin/l?", "/bin/ls", &[]));
    assert!(!run("alice ALL = /bin/l?", "/bin/l/", &[]));
    assert!(run("Cmnd_Alias LIST = /bin/ls, /bin/dir\nalice ALL = LIST", "/bin/dir", &[]));
    assert!(!run("Cmnd_Alias LIST = /bin/ls, /bin/dir\nalice ALL = ALL, !LIST", "/bin/dir", &[]));
}

#[test]
fn a_judgement_carries_the_settings() {
    let text = "Defaults env_keep += \"EDITOR VISUAL\"\nDefaults env_check = TZ\nDefaults secure_path = /usr/bin\nroot ALL = ALL";
    let sudoers = policy(text);
    assert_eq!(sudoers.secure_path(), Some("/usr/bin"));
    let judged: Judgement = evaluate(&sudoers, &as_root(root(), "/bin/ls", &[]));
    let mut kept = judged.env_keep().to_vec();
    kept.sort();
    assert_eq!(kept, vec!["EDITOR".to_string(), "VISUAL".to_string()]);
    assert_eq!(judged.env_check().to_vec(), vec!["TZ".to_string()]);
    let none = evaluate(&policy("root ALL = ALL"), &as_root(root(), "/bin/ls", &[]));
    assert!(none.env_keep().is_empty());
    assert!(none.env_check().is_empty());
    assert_eq!(policy("root ALL = ALL").secure_path(), None);
    assert_eq!(policy("Defaults secure_path = \"/a\"\nDefaults secure_path = /b").secure_path(), Some("/b"));
}

#[test]
fn an_empty_policy_forbids() {
    assert_eq!(verdict("", &as_root(root(), "/bin/ls", &[])), None);
    assert_eq!(evaluate(&Sudoers::new(), &as_root(root(), "/bin/ls", &[])).flags, None);
}

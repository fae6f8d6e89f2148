//! The command line of `su`.

use crate::text::{from_chars, has_prefix, starts_with, to_chars};
use vstd::prelude::*;

verus! {

/// What `su` is asked to do.
#[derive(Debug, PartialEq)]
pub struct SuOptions {
    pub user: String,
    pub command: Option<String>,
    pub group: Vec<String>,
    pub supp_group: Vec<String>,
    pub login: bool,
    pub preserve_environment: bool,
    pub shell: Option<String>,
    pub whitelist_environment: Vec<String>,
    pub arguments: Vec<String>,
    pub action: SuAction,
}

/// Whether to run a command, or only to print the help or the version.
#[derive(Debug, Clone, Copy, PartialEq, Eq, Structural)]
pub enum SuAction {
    Help,
    Version,
    Run,
}

/// The model of [`SuOptions`].
pub struct SuOptionsView {
    pub user: Seq<char>,
    pub command: Option<Seq<char>>,
    pub group: Seq<Seq<char>>,
    pub supp_group: Seq<Seq<char>>,
    pub login: bool,
    pub preserve_environment: bool,
    pub shell: Option<Seq<char>>,
    pub whitelist_environment: Seq<Seq<char>>,
    pub arguments: Seq<Seq<char>>,
    pub action: SuAction,
}

impl DeepView for SuOptions {
    type V = SuOptionsView;

    open spec fn deep_view(&self) -> SuOptionsView {
        SuOptionsView {
            user: self.user@,
            command: self.command.deep_view(),
            group: self.group.deep_view(),
            supp_group: self.supp_group.deep_view(),
            login: self.login,
            preserve_environment: self.preserve_environment,
            shell: self.shell.deep_view(),
            whitelist_environment: self.whitelist_environment.deep_view(),
            arguments: self.arguments.deep_view(),
            action: self.action,
        }
    }
}

/// The options that hold when the command line asks for nothing: a shell for
/// `root`.
pub open spec fn default_options() -> SuOptionsView {
    SuOptionsView {
        user: "root"@,
        command: None,
        group: Seq::empty(),
        supp_group: Seq::empty(),
        login: false,
        preserve_environment: false,
        shell: None,
        whitelist_environment: Seq::empty(),
        arguments: Seq::empty(),
        action: SuAction::Run,
    }
}

impl Default for SuOptions {
    fn default() -> (r: Self)
        ensures
            r.deep_view() == default_options(),
    {
        let r = SuOptions {
            user: "root".to_owned(),
            command: None,
            group: Vec::new(),
            supp_group: Vec::new(),
            login: false,
            preserve_environment: false,
            shell: None,
            whitelist_environment: Vec::new(),
            arguments: Vec::new(),
            action: SuAction::Run,
        };
        assert(r.group.deep_view() =~= Seq::<Seq<char>>::empty());
        assert(r.supp_group.deep_view() =~= Seq::<Seq<char>>::empty());
        assert(r.whitelist_environment.deep_view() =~= Seq::<Seq<char>>::empty());
        assert(r.arguments.deep_view() =~= Seq::<Seq<char>>::empty());
        r
    }
}

/// The options of `su`. `-p` and `-m` are one option.
#[derive(Debug, Clone, Copy, PartialEq, Eq, Structural)]
pub enum SuFlag {
    Command,
    Group,
    SuppGroup,
    Login,
    PreserveEnvironment,
    Pty,
    Shell,
    WhitelistEnvironment,
    Version,
    Help,
}

/// The option that a letter behind `-` stands for.
pub open spec fn short_flag(c: char) -> Option<SuFlag> {
    if c == 'c' {
        Some(SuFlag::Command)
    } else if c == 'g' {
        Some(SuFlag::Group)
    } else if c == 'G' {
        Some(SuFlag::SuppGroup)
    } else if c == 'l' {
        Some(SuFlag::Login)
    } else if c == 'p' || c == 'm' {
        Some(SuFlag::PreserveEnvironment)
    } else if c == 'P' {
        Some(SuFlag::Pty)
    } else if c == 's' {
        Some(SuFlag::Shell)
    } else if c == 'w' {
        Some(SuFlag::WhitelistEnvironment)
    } else if c == 'V' {
        Some(SuFlag::Version)
    } else if c == 'h' {
        Some(SuFlag::Help)
    } else {
        None
    }
}

/// The name of an option behind `--`.
pub open spec fn long_name(flag: SuFlag) -> Seq<char> {
    match flag {
        SuFlag::Command => "command"@,
        SuFlag::Group => "group"@,
        SuFlag::SuppGroup => "supp-group"@,
        SuFlag::Login => "login"@,
        SuFlag::PreserveEnvironment => "preserve-environment"@,
        SuFlag::Pty => "pty"@,
        SuFlag::Shell => "shell"@,
        SuFlag::WhitelistEnvironment => "whitelist-environment"@,
        SuFlag::Version => "version"@,
        SuFlag::Help => "help"@,
    }
}

/// The option that a name behind `--` stands for.
pub open spec fn long_flag(name: Seq<char>) -> Option<SuFlag> {
    if name == long_name(SuFlag::Command) {
        Some(SuFlag::Command)
    } else if name == long_name(SuFlag::Group) {
        Some(SuFlag::Group)
    } else if name == long_name(SuFlag::SuppGroup) {
        Some(SuFlag::SuppGroup)
    } else if name == long_name(SuFlag::Login) {
        Some(SuFlag::Login)
    } else if name == long_name(SuFlag::PreserveEnvironment) {
        Some(SuFlag::PreserveEnvironment)
    } else if name == long_name(SuFlag::Pty) {
        Some(SuFlag::Pty)
    } else if name == long_name(SuFlag::Shell) {
        Some(SuFlag::Shell)
    } else if name == long_name(SuFlag::WhitelistEnvironment) {
        Some(SuFlag::WhitelistEnvironment)
    } else if name == long_name(SuFlag::Version) {
        Some(SuFlag::Version)
    } else if name == long_name(SuFlag::Help) {
        Some(SuFlag::Help)
    } else {
        None
    }
}

/// Whether the option is followed by a value.
pub open spec fn takes_argument(flag: SuFlag) -> bool {
    flag is Command || flag is Group || flag is SuppGroup || flag is Shell
        || flag is WhitelistEnvironment
}

/// What an option says where its value is missing.
pub open spec fn missing_value(flag: SuFlag) -> Seq<char> {
    match flag {
        SuFlag::Command => "no command provided"@,
        SuFlag::Group => "no group provided"@,
        SuFlag::SuppGroup => "no supplementary group provided"@,
        SuFlag::Shell => "no shell provided"@,
        _ => "no environment whitelist provided"@,
    }
}

/// The position of the first `sep` in `s` from `from` on, or the length of `s`.
pub open spec fn find_char(s: Seq<char>, sep: char, from: int) -> int
    decreases s.len() - from,
{
    if 0 <= from < s.len() && s[from] != sep {
        find_char(s, sep, from + 1)
    } else {
        from
    }
}

/// The pieces of `s` between its separators, from `from` on; a text without a
/// separator is one piece, and so is the empty text.
pub open spec fn split(s: Seq<char>, sep: char, from: int) -> Seq<Seq<char>>
    decreases s.len() - from,
{
    let e = find_char(s, sep, from);
    if 0 <= from <= e < s.len() {
        seq![s.subrange(from, e)] + split(s, sep, e + 1)
    } else if 0 <= from <= s.len() {
        seq![s.subrange(from, s.len() as int)]
    } else {
        Seq::empty()
    }
}

/// The options after `flag` was given, with `value` where it takes one.
pub open spec fn apply(flag: SuFlag, o: SuOptionsView, value: Option<Seq<char>>) -> Result<
    SuOptionsView,
    Seq<char>,
> {
    match flag {
        SuFlag::Login => Ok(SuOptionsView { login: true, ..o }),
        SuFlag::PreserveEnvironment => Ok(SuOptionsView { preserve_environment: true, ..o }),
        SuFlag::Pty => Ok(o),
        SuFlag::Version => Ok(SuOptionsView { action: SuAction::Version, ..o }),
        SuFlag::Help => Ok(SuOptionsView { action: SuAction::Help, ..o }),
        _ => match value {
            None => Err(missing_value(flag)),
            Some(v) => match flag {
                SuFlag::Command => Ok(SuOptionsView { command: Some(v), ..o }),
                SuFlag::Group => Ok(SuOptionsView { group: o.group.push(v), ..o }),
                SuFlag::SuppGroup => Ok(SuOptionsView { supp_group: o.supp_group.push(v), ..o }),
                SuFlag::Shell => Ok(SuOptionsView { shell: Some(v), ..o }),
                _ => Ok(
                    SuOptionsView {
                        whitelist_environment: o.whitelist_environment + split(v, ',', 0),
                        ..o
                    },
                ),
            },
        },
    }
}

/// The argument at `i`, if there is one.
pub open spec fn arg_at(args: Seq<Seq<char>>, i: int) -> Option<Seq<char>> {
    if 0 <= i < args.len() {
        Some(args[i])
    } else {
        None
    }
}

/// What is said of an option that `su` does not know.
pub open spec fn unrecognized(what: Seq<char>) -> Seq<char> {
    "unrecognized option '"@ + what + "'"@
}

/// What is said of a value for an option that takes none.
pub open spec fn takes_no_value(flag: SuFlag) -> Seq<char> {
    "'--"@ + long_name(flag) + "' does not take any arguments"@
}

/// An argument that begins with `--`: `name` is what follows the dashes. The
/// result holds the options and the number of arguments that were used.
pub open spec fn long_option(args: Seq<Seq<char>>, i: int, o: SuOptionsView) -> Result<
    (SuOptionsView, int),
    Seq<char>,
> {
    let name = args[i].skip(2);
    let eq = find_char(name, '=', 0);
    if eq < name.len() {
        match long_flag(name.take(eq)) {
            Some(flag) => if takes_argument(flag) {
                match apply(flag, o, Some(name.skip(eq + 1))) {
                    Ok(n) => Ok((n, 1)),
                    Err(e) => Err(e),
                }
            } else {
                Err(takes_no_value(flag))
            },
            None => Err(unrecognized(args[i])),
        }
    } else {
        match long_flag(name) {
            Some(flag) => if takes_argument(flag) {
                match apply(flag, o, arg_at(args, i + 1)) {
                    Ok(n) => Ok((n, 2)),
                    Err(e) => Err(e),
                }
            } else {
                match apply(flag, o, None) {
                    Ok(n) => Ok((n, 1)),
                    Err(e) => Err(e),
                }
            },
            None => Err(unrecognized(args[i])),
        }
    }
}

/// The letters of a group of short options from `j` on; `letters` is the
/// argument at `i` without its dash. An option that takes a value takes the
/// rest of the group or, where nothing is left, the next argument.
pub open spec fn short_options(
    args: Seq<Seq<char>>,
    i: int,
    letters: Seq<char>,
    j: int,
    o: SuOptionsView,
) -> Result<(SuOptionsView, int), Seq<char>>
    decreases letters.len() - j,
{
    if !(0 <= j < letters.len()) {
        Ok((o, 1))
    } else {
        match short_flag(letters[j]) {
            None => Err(unrecognized(seq![letters[j]])),
            Some(flag) => {
                if takes_argument(flag) {
                    if j + 1 == letters.len() {
                        match apply(flag, o, arg_at(args, i + 1)) {
                            Ok(n) => Ok((n, 2)),
                            Err(e) => Err(e),
                        }
                    } else {
                        match apply(flag, o, Some(letters.skip(j + 1))) {
                            Ok(n) => Ok((n, 1)),
                            Err(e) => Err(e),
                        }
                    }
                } else {
                    match apply(flag, o, None) {
                        Ok(n) => short_options(args, i, letters, j + 1, n),
                        Err(e) => Err(e),
                    }
                }
            },
        }
    }
}

/// An option uses one argument, or two where it takes the next for its value.
pub proof fn lemma_long_option(args: Seq<Seq<char>>, i: int, o: SuOptionsView)
    requires
        0 <= i < args.len(),
    ensures
        long_option(args, i, o) matches Ok((_, used)) ==> 1 <= used && i + used <= args.len(),
{
}

/// A group of short options uses one argument, or two where its last option
/// takes the next for its value.
pub proof fn lemma_short_options(
    args: Seq<Seq<char>>,
    i: int,
    letters: Seq<char>,
    j: int,
    o: SuOptionsView,
)
    requires
        0 <= i < args.len(),
    ensures
        short_options(args, i, letters, j, o) matches Ok((_, used)) ==> 1 <= used && i + used
            <= args.len(),
    decreases letters.len() - j,
{
    if 0 <= j < letters.len() {
        match short_flag(letters[j]) {
            Some(flag) => {
                if !takes_argument(flag) {
                    match apply(flag, o, None) {
                        Ok(n) => {
                            lemma_short_options(args, i, letters, j + 1, n);
                        },
                        Err(_) => {},
                    }
                }
            },
            None => {},
        }
    }
}

/// What stands behind `--`: the user unless one was named before, then
/// arguments for the command.
pub open spec fn positional_only(args: Seq<Seq<char>>, i: int, o: SuOptionsView, first: bool)
    -> SuOptionsView {
    if !(0 <= i < args.len()) {
        o
    } else if first {
        SuOptionsView { user: args[i], arguments: o.arguments + args.skip(i + 1), ..o }
    } else {
        SuOptionsView { arguments: o.arguments + args.skip(i), ..o }
    }
}

/// The options that the arguments from `i` on lead to, from the options `o`;
/// `first` tells whether no user was named yet.
pub open spec fn options_from(args: Seq<Seq<char>>, i: int, o: SuOptionsView, first: bool)
    -> Result<SuOptionsView, Seq<char>>
    decreases args.len() - i,
{
    if !(0 <= i < args.len()) {
        Ok(o)
    } else if args[i] == "-"@ {
        options_from(args, i + 1, SuOptionsView { login: true, ..o }, first)
    } else if args[i] == "--"@ {
        Ok(positional_only(args, i + 1, o, first))
    } else if has_prefix(args[i], "--"@) {
        match long_option(args, i, o) {
            Ok((n, used)) => {
                proof {
                    lemma_long_option(args, i, o);
                }
                options_from(args, i + used, n, first)
            },
            Err(e) => Err(e),
        }
    } else if has_prefix(args[i], "-"@) {
        match short_options(args, i, args[i].skip(1), 0, o) {
            Ok((n, used)) => {
                proof {
                    lemma_short_options(args, i, args[i].skip(1), 0, o);
                }
                options_from(args, i + used, n, first)
            },
            Err(e) => Err(e),
        }
    } else if first {
        options_from(args, i + 1, SuOptionsView { user: args[i], ..o }, false)
    } else {
        options_from(
            args,
            i + 1,
            SuOptionsView { arguments: o.arguments.push(args[i]), ..o },
            false,
        )
    }
}

/// What a command line asks for. The first argument is the name of the
/// program and is skipped.
pub open spec fn su_arguments(args: Seq<Seq<char>>) -> Result<SuOptionsView, Seq<char>> {
    options_from(args, 1, default_options(), true)
}

/// The model of the result of [`SuOptions::parse_arguments`].
pub open spec fn result_view(r: Result<SuOptions, String>) -> Result<SuOptionsView, Seq<char>> {
    match r {
        Ok(o) => Ok(o.deep_view()),
        Err(e) => Err(e@),
    }
}

fn flag_of_letter(c: char) -> (r: Option<SuFlag>)
    ensures
        r == short_flag(c),
{
    if c == 'c' {
        Some(SuFlag::Command)
    } else if c == 'g' {
        Some(SuFlag::Group)
    } else if c == 'G' {
        Some(SuFlag::SuppGroup)
    } else if c == 'l' {
        Some(SuFlag::Login)
    } else if c == 'p' || c == 'm' {
        Some(SuFlag::PreserveEnvironment)
    } else if c == 'P' {
        Some(SuFlag::Pty)
    } else if c == 's' {
        Some(SuFlag::Shell)
    } else if c == 'w' {
        Some(SuFlag::WhitelistEnvironment)
    } else if c == 'V' {
        Some(SuFlag::Version)
    } else if c == 'h' {
        Some(SuFlag::Help)
    } else {
        None
    }
}

fn name_of_flag(flag: SuFlag) -> (r: &'static str)
    ensures
        r@ == long_name(flag),
{
    match flag {
        SuFlag::Command => "command",
        SuFlag::Group => "group",
        SuFlag::SuppGroup => "supp-group",
        SuFlag::Login => "login",
        SuFlag::PreserveEnvironment => "preserve-environment",
        SuFlag::Pty => "pty",
        SuFlag::Shell => "shell",
        SuFlag::WhitelistEnvironment => "whitelist-environment",
        SuFlag::Version => "version",
        SuFlag::Help => "help",
    }
}

fn is_flag(name: &Vec<char>, flag: SuFlag) -> (r: bool)
    ensures
        r == (name@ == long_name(flag)),
{
    crate::text::spells(name, name_of_flag(flag))
}

fn flag_of_name(name: &Vec<char>) -> (r: Option<SuFlag>)
    ensures
        r == long_flag(name@),
{
    if is_flag(name, SuFlag::Command) {
        Some(SuFlag::Command)
    } else if is_flag(name, SuFlag::Group) {
        Some(SuFlag::Group)
    } else if is_flag(name, SuFlag::SuppGroup) {
        Some(SuFlag::SuppGroup)
    } else if is_flag(name, SuFlag::Login) {
        Some(SuFlag::Login)
    } else if is_flag(name, SuFlag::PreserveEnvironment) {
        Some(SuFlag::PreserveEnvironment)
    } else if is_flag(name, SuFlag::Pty) {
        Some(SuFlag::Pty)
    } else if is_flag(name, SuFlag::Shell) {
        Some(SuFlag::Shell)
    } else if is_flag(name, SuFlag::WhitelistEnvironment) {
        Some(SuFlag::WhitelistEnvironment)
    } else if is_flag(name, SuFlag::Version) {
        Some(SuFlag::Version)
    } else if is_flag(name, SuFlag::Help) {
        Some(SuFlag::Help)
    } else {
        None
    }
}

fn flag_takes_argument(flag: SuFlag) -> (r: bool)
    ensures
        r == takes_argument(flag),
{
    match flag {
        SuFlag::Command | SuFlag::Group | SuFlag::SuppGroup | SuFlag::Shell
        | SuFlag::WhitelistEnvironment => true,
        _ => false,
    }
}

fn missing_value_message(flag: SuFlag) -> (r: String)
    ensures
        r@ == missing_value(flag),
{
    match flag {
        SuFlag::Command => "no command provided".to_owned(),
        SuFlag::Group => "no group provided".to_owned(),
        SuFlag::SuppGroup => "no supplementary group provided".to_owned(),
        SuFlag::Shell => "no shell provided".to_owned(),
        _ => "no environment whitelist provided".to_owned(),
    }
}

/// The text made of `before`, `middle` and `after`.
fn framed(before: &str, middle: &Vec<char>, after: &str) -> (r: String)
    ensures
        r@ == before@ + middle@ + after@,
{
    let mut all = to_chars(before);
    let mut i: usize = 0;
    while i < middle.len()
        invariant
            i <= middle.len(),
            all@ == before@ + middle@.take(i as int),
        decreases middle.len() - i,
    {
        all.push(middle[i]);
        i += 1;
        assert(middle@.take(i as int) == middle@.take(i - 1).push(middle@[i - 1]));
        assert(all@ =~= before@ + middle@.take(i as int));
    }
    assert(middle@.take(middle.len() as int) == middle@);
    let mut tail = to_chars(after);
    all.append(&mut tail);
    from_chars(&all)
}

fn find(s: &Vec<char>, sep: char, from: usize) -> (e: usize)
    requires
        from <= s.len(),
    ensures
        e == find_char(s@, sep, from as int),
        from <= e <= s.len(),
        e < s.len() ==> s@[e as int] == sep,
{
    let mut e = from;
    while e < s.len() && s[e] != sep
        invariant
            from <= e <= s.len(),
            find_char(s@, sep, e as int) == find_char(s@, sep, from as int),
        decreases s.len() - e,
    {
        e += 1;
    }
    e
}

/// Appends the pieces of `s` between its commas to `list`.
fn push_pieces(list: &mut Vec<String>, s: &Vec<char>)
    ensures
        final(list).deep_view() == old(list).deep_view() + split(s@, ',', 0),
{
    let mut from: usize = 0;
    assert(list.deep_view() + split(s@, ',', 0) =~= old(list).deep_view() + split(s@, ',', 0));
    loop
        invariant
            from <= s.len(),
            list.deep_view() + split(s@, ',', from as int) == old(list).deep_view() + split(
                s@,
                ',',
                0,
            ),
        decreases s.len() - from,
    {
        let e = find(s, ',', from);
        let ghost before = list.deep_view();
        let piece = crate::text::string_of(s, from, e);
        list.push(piece);
        assert(list.deep_view() =~= before.push(s@.subrange(from as int, e as int)));
        if e < s.len() {
            assert(before + (seq![s@.subrange(from as int, e as int)] + split(s@, ',', e + 1))
                =~= list.deep_view() + split(s@, ',', e + 1));
            from = e + 1;
        } else {
            assert(before + seq![s@.subrange(from as int, s.len() as int)] =~= list.deep_view());
            return ;
        }
    }
}

fn apply_flag(flag: SuFlag, options: SuOptions, value: Option<String>) -> (r: Result<
    SuOptions,
    String,
>)
    ensures
        result_view(r) == apply(flag, options.deep_view(), value.deep_view()),
{
    let mut o = options;
    match flag {
        SuFlag::Login => {
            o.login = true;
            Ok(o)
        },
        SuFlag::PreserveEnvironment => {
            o.preserve_environment = true;
            Ok(o)
        },
        SuFlag::Pty => Ok(o),
        SuFlag::Version => {
            o.action = SuAction::Version;
            Ok(o)
        },
        SuFlag::Help => {
            o.action = SuAction::Help;
            Ok(o)
        },
        _ => match value {
            None => Err(missing_value_message(flag)),
            Some(v) => match flag {
                SuFlag::Command => {
                    o.command = Some(v);
                    Ok(o)
                },
                SuFlag::Group => {
                    let ghost before = o.group.deep_view();
                    o.group.push(v);
                    assert(o.group.deep_view() =~= before.push(v@));
                    Ok(o)
                },
                SuFlag::SuppGroup => {
                    let ghost before = o.supp_group.deep_view();
                    o.supp_group.push(v);
                    assert(o.supp_group.deep_view() =~= before.push(v@));
                    Ok(o)
                },
                SuFlag::Shell => {
                    o.shell = Some(v);
                    Ok(o)
                },
                _ => {
                    let chars = to_chars(v.as_str());
                    push_pieces(&mut o.whitelist_environment, &chars);
                    Ok(o)
                },
            },
        },
    }
}

/// The characters of the argument at `i`.
fn argument(args: &Vec<String>, i: usize) -> (r: Vec<char>)
    requires
        i < args.len(),
    ensures
        r@ == args.deep_view()[i as int],
{
    to_chars(args[i].as_str())
}

/// A copy of the argument at `i`, if there is one.
fn argument_at(args: &Vec<String>, i: usize) -> (r: Option<String>)
    ensures
        r.deep_view() == arg_at(args.deep_view(), i as int),
{
    if i < args.len() {
        Some(args[i].clone())
    } else {
        None
    }
}

/// The model of the result of reading one argument: the options, and how many
/// arguments were used.
pub open spec fn used_view(r: Result<(SuOptions, usize), String>) -> Result<
    (SuOptionsView, int),
    Seq<char>,
> {
    match r {
        Ok((o, n)) => Ok((o.deep_view(), n as int)),
        Err(e) => Err(e@),
    }
}

fn parse_long_option(args: &Vec<String>, i: usize, options: SuOptions) -> (r: Result<
    (SuOptions, usize),
    String,
>)
    requires
        i < args.len(),
        has_prefix(args.deep_view()[i as int], "--"@),
    ensures
        used_view(r) == long_option(args.deep_view(), i as int, options.deep_view()),
        r matches Ok((_, n)) ==> 1 <= n && i + n <= args.len(),
{
    let arg = argument(args, i);
    proof {
        reveal_strlit("--");
    }
    let mut name: Vec<char> = Vec::new();
    let mut k: usize = 2;
    while k < arg.len()
        invariant
            2 <= k <= arg.len(),
            name@ == arg@.subrange(2, k as int),
        decreases arg.len() - k,
    {
        name.push(arg[k]);
        k += 1;
        assert(arg@.subrange(2, k as int) == arg@.subrange(2, k - 1).push(arg@[k - 1]));
    }
    assert(name@ == arg@.skip(2));
    let eq = find(&name, '=', 0);
    if eq < name.len() {
        let mut key = name.clone();
        key.truncate(eq);
        assert(key@ == name@.take(eq as int));
        match flag_of_name(&key) {
            Some(flag) => {
                if flag_takes_argument(flag) {
                    let value = crate::text::string_of(&name, eq + 1, name.len());
                    assert(name@.skip(eq + 1) == name@.subrange(eq + 1, name.len() as int));
                    match apply_flag(flag, options, Some(value)) {
                        Ok(o) => Ok((o, 1)),
                        Err(e) => Err(e),
                    }
                } else {
                    let long = to_chars(name_of_flag(flag));
                    Err(framed("'--", &long, "' does not take any arguments"))
                }
            },
            None => Err(framed("unrecognized option '", &arg, "'")),
        }
    } else {
        match flag_of_name(&name) {
            Some(flag) => {
                if flag_takes_argument(flag) {
                    let value = argument_at(args, i + 1);
                    match apply_flag(flag, options, value) {
                        Ok(o) => Ok((o, 2)),
                        Err(e) => Err(e),
                    }
                } else {
                    match apply_flag(flag, options, None) {
                        Ok(o) => Ok((o, 1)),
                        Err(e) => Err(e),
                    }
                }
            },
            None => Err(framed("unrecognized option '", &arg, "'")),
        }
    }
}

fn parse_short_options(args: &Vec<String>, i: usize, options: SuOptions) -> (r: Result<
    (SuOptions, usize),
    String,
>)
    requires
        i < args.len(),
        has_prefix(args.deep_view()[i as int], "-"@),
    ensures
        used_view(r) == short_options(
            args.deep_view(),
            i as int,
            args.deep_view()[i as int].skip(1),
            0,
            options.deep_view(),
        ),
        r matches Ok((_, n)) ==> 1 <= n && i + n <= args.len(),
{
    let arg = argument(args, i);
    proof {
        reveal_strlit("-");
    }
    let ghost letters = arg@.skip(1);
    let mut o = options;
    let mut j: usize = 1;
    loop
        invariant
            1 <= j <= arg.len(),
            i < args.len(),
            letters == arg@.skip(1),
            arg@ == args.deep_view()[i as int],
            short_options(args.deep_view(), i as int, letters, j - 1, o.deep_view())
                == short_options(args.deep_view(), i as int, letters, 0, options.deep_view()),
        decreases arg.len() - j,
    {
        if j >= arg.len() {
            return Ok((o, 1));
        }
        let c = arg[j];
        assert(letters[j - 1] == c);
        match flag_of_letter(c) {
            None => {
                let mut one: Vec<char> = Vec::new();
                one.push(c);
                assert(one@ =~= seq![c]);
                return Err(framed("unrecognized option '", &one, "'"));
            },
            Some(flag) => {
                if flag_takes_argument(flag) {
                    if j + 1 == arg.len() {
                        let value = argument_at(args, i + 1);
                        return match apply_flag(flag, o, value) {
                            Ok(n) => Ok((n, 2)),
                            Err(e) => Err(e),
                        };
                    } else {
                        let rest = crate::text::string_of(&arg, j + 1, arg.len());
                        assert(letters.skip(j as int) == arg@.subrange(j + 1, arg.len() as int));
                        return match apply_flag(flag, o, Some(rest)) {
                            Ok(n) => Ok((n, 1)),
                            Err(e) => Err(e),
                        };
                    }
                } else {
                    match apply_flag(flag, o, None) {
                        Ok(n) => {
                            o = n;
                        },
                        Err(e) => {
                            return Err(e);
                        },
                    }
                    j += 1;
                }
            },
        }
    }
}

/// Takes what stands behind `--`: the arguments from `i` on.
fn take_positional(args: &Vec<String>, i: usize, options: SuOptions, first: bool) -> (r:
    SuOptions)
    ensures
        r.deep_view() == positional_only(args.deep_view(), i as int, options.deep_view(), first),
{
    let mut o = options;
    if i >= args.len() {
        return o;
    }
    let mut k = i;
    if first {
        o.user = args[i].clone();
        k = i + 1;
    }
    let ghost start = k;
    let ghost before = o.arguments.deep_view();
    assert(args.deep_view().skip(start as int).take(0) =~= Seq::<Seq<char>>::empty());
    assert(before + Seq::<Seq<char>>::empty() =~= before);
    while k < args.len()
        invariant
            start <= k <= args.len(),
            o.arguments.deep_view() == before + args.deep_view().skip(start as int).take(
                k - start,
            ),
            o.user == (if first {
                args@[i as int]
            } else {
                options.user
            }),
            i < args.len(),
            o.command == options.command,
            o.group == options.group,
            o.supp_group == options.supp_group,
            o.login == options.login,
            o.preserve_environment == options.preserve_environment,
            o.shell == options.shell,
            o.whitelist_environment == options.whitelist_environment,
            o.action == options.action,
        decreases args.len() - k,
    {
        let ghost sofar = o.arguments.deep_view();
        o.arguments.push(args[k].clone());
        assert(o.arguments.deep_view() =~= sofar.push(args@[k as int]@));
        k += 1;
        assert(args.deep_view().skip(start as int).take(k - start) =~= args.deep_view().skip(
            start as int,
        ).take(k - 1 - start).push(args@[k - 1]@));
        assert(o.arguments.deep_view() =~= before + args.deep_view().skip(start as int).take(
            k - start,
        ));
    }
    assert(args.deep_view().skip(start as int).take(args.len() - start) =~= args.deep_view().skip(
        start as int,
    ));
    o
}

impl SuOptions {
    /// Reads the command line of `su`. The first argument is the name of the
    /// program and is skipped.
    pub fn parse_arguments(arguments: Vec<String>) -> (r: Result<SuOptions, String>)
        ensures
            result_view(r) == su_arguments(arguments.deep_view()),
    {
        let mut options = SuOptions::default();
        let mut first_positional_argument = true;
        let mut i: usize = 1;
        loop
            invariant
                1 <= i,
                options_from(
                    arguments.deep_view(),
                    i as int,
                    options.deep_view(),
                    first_positional_argument,
                ) == su_arguments(arguments.deep_view()),
            decreases arguments.len() - i,
        {
            if i >= arguments.len() {
                return Ok(options);
            }
            let arg = argument(&arguments, i);
            if crate::text::spells(&arg, "-") {
                options.login = true;
                i += 1;
            } else if crate::text::spells(&arg, "--") {
                return Ok(take_positional(&arguments, i + 1, options, first_positional_argument));
            } else if starts_with(&arg, "--") {
                let (o, used) = parse_long_option(&arguments, i, options)?;
                options = o;
                i += used;
            } else if starts_with(&arg, "-") {
                let (o, used) = parse_short_options(&arguments, i, options)?;
                options = o;
                i += used;
            } else {
                if first_positional_argument {
                    options.user = arguments[i].clone();
                } else {
                    let ghost before = options.arguments.deep_view();
                    options.arguments.push(arguments[i].clone());
                    assert(options.arguments.deep_view() =~= before.push(arguments@[i as int]@));
                }
                first_positional_argument = false;
                i += 1;
            }
        }
    }
}

} // verus!

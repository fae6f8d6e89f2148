//! A policy that was read and checked: its permission lines, its aliases and
//! its settings.

use crate::analysis::{
    alias_problems, check_aliases, grounded, lemma_none_cyclic, Problem, ProblemView,
};
use crate::ast::{
    line_view, lines, lines_view, parse_lines, Command, CommandView, Def, DefView, Directive,
    DirectiveView, Hostname, LineView, PermissionSpec, PermissionSpecView, Sudo, SudoView,
    UserSpecifier, UserSpecifierView,
};
use crate::settings::{same_text, Settings, SettingsView};
use crate::text::to_chars;
use vstd::prelude::*;

verus! {

/// The aliases of a policy, one table for each kind, in the order of the
/// policy.
#[derive(Debug, Clone, PartialEq, Eq)]
pub struct AliasTable {
    pub user: Vec<Def<UserSpecifier>>,
    pub host: Vec<Def<Hostname>>,
    pub cmnd: Vec<Def<Command>>,
    pub runas: Vec<Def<UserSpecifier>>,
}

/// The model of [`AliasTable`].
pub struct AliasTableView {
    pub user: Seq<DefView<UserSpecifierView>>,
    pub host: Seq<DefView<Seq<char>>>,
    pub cmnd: Seq<DefView<CommandView>>,
    pub runas: Seq<DefView<UserSpecifierView>>,
}

impl DeepView for AliasTable {
    type V = AliasTableView;

    open spec fn deep_view(&self) -> AliasTableView {
        AliasTableView {
            user: self.user.deep_view(),
            host: self.host.deep_view(),
            cmnd: self.cmnd.deep_view(),
            runas: self.runas.deep_view(),
        }
    }
}

/// A policy: permission lines in the order of the text, aliases and settings.
#[derive(Debug, Clone, PartialEq, Eq)]
pub struct Sudoers {
    pub rules: Vec<PermissionSpec>,
    pub aliases: AliasTable,
    pub settings: Settings,
}

/// The model of [`Sudoers`].
pub struct SudoersView {
    pub rules: Seq<PermissionSpecView>,
    pub aliases: AliasTableView,
    pub settings: SettingsView,
}

impl View for Sudoers {
    type V = SudoersView;

    open spec fn view(&self) -> SudoersView {
        SudoersView {
            rules: self.rules.deep_view(),
            aliases: self.aliases.deep_view(),
            settings: self.settings@,
        }
    }
}

impl SudoersView {
    /// The policy that grants nothing and sets nothing.
    pub open spec fn empty() -> SudoersView {
        SudoersView {
            rules: Seq::empty(),
            aliases: AliasTableView {
                user: Seq::empty(),
                host: Seq::empty(),
                cmnd: Seq::empty(),
                runas: Seq::empty(),
            },
            settings: SettingsView::empty(),
        }
    }
}

impl Sudoers {
    /// The policy that grants nothing and sets nothing.
    pub fn new() -> (r: Sudoers)
        ensures
            r@ == SudoersView::empty(),
    {
        let r = Sudoers {
            rules: Vec::new(),
            aliases: AliasTable {
                user: Vec::new(),
                host: Vec::new(),
                cmnd: Vec::new(),
                runas: Vec::new(),
            },
            settings: Settings::new(),
        };
        assert(r.rules.deep_view() =~= Seq::<PermissionSpecView>::empty());
        assert(r.aliases.user.deep_view() =~= Seq::<DefView<UserSpecifierView>>::empty());
        assert(r.aliases.host.deep_view() =~= Seq::<DefView<Seq<char>>>::empty());
        assert(r.aliases.cmnd.deep_view() =~= Seq::<DefView<CommandView>>::empty());
        assert(r.aliases.runas.deep_view() =~= Seq::<DefView<UserSpecifierView>>::empty());
        r
    }
}

/// A file or a directory that an include directive may name, as it was read
/// beforehand.
#[derive(Debug, Clone, PartialEq, Eq)]
pub enum Source {
    /// A file and its text.
    File { path: String, text: String },
    /// A directory and the paths of the files in it that are to be read, in
    /// the order in which they are to be read.
    Dir { path: String, entries: Vec<String> },
}

/// The model of [`Source`].
pub enum SourceView {
    File { path: Seq<char>, text: Seq<char> },
    Dir { path: Seq<char>, entries: Seq<Seq<char>> },
}

impl DeepView for Source {
    type V = SourceView;

    open spec fn deep_view(&self) -> SourceView {
        match self {
            Source::File { path, text } => SourceView::File { path: path@, text: text@ },
            Source::Dir { path, entries } => SourceView::Dir {
                path: path@,
                entries: entries.deep_view(),
            },
        }
    }
}

/// What is wrong with a policy: why no [`Sudoers`] was made of it.
#[derive(Debug, Clone, PartialEq, Eq)]
pub struct ParseError {
    pub problems: Vec<Problem>,
}

/// How deep files may be read from inside files.
pub const INCLUDE_DEPTH: usize = 128;

/// The text of the first file with this path.
pub open spec fn find_file(sources: Seq<SourceView>, path: Seq<char>) -> Option<Seq<char>>
    decreases sources.len(),
{
    if sources.len() == 0 {
        None
    } else {
        match find_file(sources.drop_last(), path) {
            Some(t) => Some(t),
            None => match sources.last() {
                SourceView::File { path: p, text } => if p == path {
                    Some(text)
                } else {
                    None
                },
                _ => None,
            },
        }
    }
}

/// The entries of the first directory with this path.
pub open spec fn find_dir(sources: Seq<SourceView>, path: Seq<char>) -> Option<Seq<Seq<char>>>
    decreases sources.len(),
{
    if sources.len() == 0 {
        None
    } else {
        match find_dir(sources.drop_last(), path) {
            Some(e) => Some(e),
            None => match sources.last() {
                SourceView::Dir { path: p, entries } => if p == path {
                    Some(entries)
                } else {
                    None
                },
                _ => None,
            },
        }
    }
}

/// The number of the line that holds `pos`: how many newlines stand before it.
pub open spec fn line_of(text: Seq<char>, pos: int) -> int
    decreases pos,
{
    if pos <= 0 {
        0
    } else if pos - 1 < text.len() && text[pos - 1] == '\n' {
        line_of(text, pos - 1) + 1
    } else {
        line_of(text, pos - 1)
    }
}

/// The column of `pos`: how many characters of its line stand before it.
pub open spec fn column_of(text: Seq<char>, pos: int) -> int
    decreases pos,
{
    if pos <= 0 {
        0
    } else if pos - 1 < text.len() && text[pos - 1] == '\n' {
        0
    } else {
        column_of(text, pos - 1) + 1
    }
}

/// The line and the column of `pos`, both counted from zero.
pub fn line_column(text: &Vec<char>, pos: usize) -> (r: (usize, usize))
    requires
        pos <= text.len(),
    ensures
        r.0 == line_of(text@, pos as int),
        r.1 == column_of(text@, pos as int),
{
    let mut line: usize = 0;
    let mut column: usize = 0;
    let mut i: usize = 0;
    while i < pos
        invariant
            i <= pos <= text.len(),
            line == line_of(text@, i as int),
            column == column_of(text@, i as int),
            line <= i,
            column <= i,
        decreases pos - i,
    {
        if text[i] == '\n' {
            line += 1;
            column = 0;
        } else {
            column += 1;
        }
        i += 1;
    }
    (line, column)
}

/// What was read of a policy so far, and what is wrong with it.
pub struct Gathered {
    pub policy: Sudoers,
    pub problems: Vec<Problem>,
}

/// The model of [`Gathered`].
pub struct GatheredView {
    pub policy: SudoersView,
    pub problems: Seq<ProblemView>,
}

impl View for Gathered {
    type V = GatheredView;

    open spec fn view(&self) -> GatheredView {
        GatheredView { policy: self.policy@, problems: self.problems.deep_view() }
    }
}

impl GatheredView {
    /// Nothing was read.
    pub open spec fn empty() -> GatheredView {
        GatheredView { policy: SudoersView::empty(), problems: Seq::empty() }
    }

    /// The same with one more problem.
    pub open spec fn with(self, problem: ProblemView) -> GatheredView {
        GatheredView { problems: self.problems.push(problem), ..self }
    }

    /// The same with one more line that is no include directive: a permission
    /// line joins the permission lines, an alias its table, and a setting
    /// changes the settings.
    pub open spec fn absorb(self, item: SudoView) -> GatheredView {
        let p = self.policy;
        let a = p.aliases;
        match item {
            SudoView::Spec(rule) => GatheredView {
                policy: SudoersView { rules: p.rules.push(rule), ..p },
                ..self
            },
            SudoView::Decl(DirectiveView::UserAlias(d)) => GatheredView {
                policy: SudoersView { aliases: AliasTableView { user: a.user.push(d), ..a }, ..p },
                ..self
            },
            SudoView::Decl(DirectiveView::HostAlias(d)) => GatheredView {
                policy: SudoersView { aliases: AliasTableView { host: a.host.push(d), ..a }, ..p },
                ..self
            },
            SudoView::Decl(DirectiveView::CmndAlias(d)) => GatheredView {
                policy: SudoersView { aliases: AliasTableView { cmnd: a.cmnd.push(d), ..a }, ..p },
                ..self
            },
            SudoView::Decl(DirectiveView::RunasAlias(d)) => GatheredView {
                policy: SudoersView {
                    aliases: AliasTableView { runas: a.runas.push(d), ..a },
                    ..p
                },
                ..self
            },
            SudoView::Decl(DirectiveView::Defaults(name, value)) => GatheredView {
                policy: SudoersView { settings: p.settings.step(name, value), ..p },
                ..self
            },
            _ => self,
        }
    }
}

/// What is read after the file `path` was read too: its lines, unless it was
/// not supplied or lies too deep.
pub open spec fn gather_file(
    path: Seq<char>,
    sources: Seq<SourceView>,
    depth: nat,
    g: GatheredView,
) -> GatheredView
    decreases depth, 0nat, 0nat,
{
    if depth == 0 {
        g.with(ProblemView::IncludeNesting(path))
    } else {
        match find_file(sources, path) {
            Some(text) => gather_text(text, sources, (depth - 1) as nat, g),
            None => g.with(ProblemView::MissingInclude(path)),
        }
    }
}

/// What is read after the files `entries[j..]` were read too.
pub open spec fn gather_entries(
    entries: Seq<Seq<char>>,
    j: int,
    sources: Seq<SourceView>,
    depth: nat,
    g: GatheredView,
) -> GatheredView
    decreases depth, 1nat, entries.len() - j,
{
    if 0 <= j < entries.len() {
        gather_entries(entries, j + 1, sources, depth, gather_file(entries[j], sources, depth, g))
    } else {
        g
    }
}

/// What is read after the lines `lines[i..]` of `text` were read too. A line
/// that is malformed is a problem; an include directive stands for the lines
/// of the files that it names.
pub open spec fn gather_lines(
    lines: Seq<LineView>,
    i: int,
    text: Seq<char>,
    sources: Seq<SourceView>,
    depth: nat,
    g: GatheredView,
) -> GatheredView
    decreases depth, 2nat, lines.len() - i,
{
    if 0 <= i < lines.len() {
        let next = match lines[i] {
            Err((fault, pos)) => g.with(
                ProblemView::Syntax {
                    fault,
                    line: line_of(text, pos),
                    column: column_of(text, pos),
                },
            ),
            Ok(SudoView::Include(path)) => gather_file(path, sources, depth, g),
            Ok(SudoView::IncludeDir(path)) => match find_dir(sources, path) {
                Some(entries) => gather_entries(entries, 0, sources, depth, g),
                None => g.with(ProblemView::MissingInclude(path)),
            },
            Ok(item) => g.absorb(item),
        };
        gather_lines(lines, i + 1, text, sources, depth, next)
    } else {
        g
    }
}

/// What is read after `text` was read too.
pub open spec fn gather_text(
    text: Seq<char>,
    sources: Seq<SourceView>,
    depth: nat,
    g: GatheredView,
) -> GatheredView
    decreases depth, 3nat, 0nat,
{
    gather_lines(lines(text, 0), 0, text, sources, depth, g)
}

/// What a policy text is: the policy that its lines and the lines of the files
/// that it includes add up to, or everything that is wrong with it. There is a
/// policy if and only if nothing is wrong.
pub open spec fn parsed(text: Seq<char>, sources: Seq<SourceView>) -> Result<
    SudoersView,
    Seq<ProblemView>,
> {
    let g = gather_text(text, sources, INCLUDE_DEPTH as nat, GatheredView::empty());
    let problems = g.problems + alias_problems(g.policy.rules, g.policy.aliases);
    if problems.len() == 0 {
        Ok(g.policy)
    } else {
        Err(problems)
    }
}

/// In a policy that was read without problems every alias is grounded: none
/// is defined by itself.
pub proof fn lemma_parsed_grounded(text: Seq<char>, sources: Seq<SourceView>)
    requires
        parsed(text, sources) is Ok,
    ensures
        ({
            let tables = parsed(text, sources)->Ok_0.aliases;
            &&& forall|i: int| 0 <= i < tables.user.len() ==> grounded(tables.user, i)
            &&& forall|i: int| 0 <= i < tables.host.len() ==> grounded(tables.host, i)
            &&& forall|i: int| 0 <= i < tables.cmnd.len() ==> grounded(tables.cmnd, i)
            &&& forall|i: int| 0 <= i < tables.runas.len() ==> grounded(tables.runas, i)
        }),
{
    let tables = parsed(text, sources)->Ok_0.aliases;
    lemma_none_cyclic(tables.user, tables.user.len() as int);
    lemma_none_cyclic(tables.host, tables.host.len() as int);
    lemma_none_cyclic(tables.cmnd, tables.cmnd.len() as int);
    lemma_none_cyclic(tables.runas, tables.runas.len() as int);
}

/// The model of the result of [`parse`].
pub open spec fn parsed_view(r: Result<Sudoers, ParseError>) -> Result<
    SudoersView,
    Seq<ProblemView>,
> {
    match r {
        Ok(policy) => Ok(policy@),
        Err(e) => Err(e.problems.deep_view()),
    }
}

fn file_text<'a>(sources: &'a Vec<Source>, path: &str) -> (r: Option<&'a String>)
    ensures
        r.deep_view() == find_file(sources.deep_view(), path@),
{
    let mut i: usize = 0;
    assert(sources.deep_view().take(0) =~= Seq::<SourceView>::empty());
    while i < sources.len()
        invariant
            i <= sources.len(),
            find_file(sources.deep_view().take(i as int), path@) is None,
        decreases sources.len() - i,
    {
        assert(sources.deep_view().take(i + 1).drop_last() == sources.deep_view().take(i as int));
        assert(sources.deep_view().take(i + 1).last() == sources@[i as int].deep_view());
        match &sources[i] {
            Source::File { path: p, text } => {
                if same_text(p.as_str(), path) {
                    proof {
                        lemma_find_file_prefix(sources.deep_view(), path@, i + 1);
                    }
                    return Some(text);
                }
            },
            _ => {},
        }
        i += 1;
    }
    assert(sources.deep_view().take(sources.len() as int) == sources.deep_view());
    None
}

/// A file that is found among the first `n` sources is the one found among
/// all.
pub proof fn lemma_find_file_prefix(sources: Seq<SourceView>, path: Seq<char>, n: int)
    requires
        0 <= n <= sources.len(),
        find_file(sources.take(n), path) is Some,
    ensures
        find_file(sources, path) == find_file(sources.take(n), path),
    decreases sources.len() - n,
{
    if n < sources.len() {
        assert(sources.take(n + 1).drop_last() == sources.take(n));
        lemma_find_file_prefix(sources, path, n + 1);
    } else {
        assert(sources.take(n) == sources);
    }
}

fn dir_entries<'a>(sources: &'a Vec<Source>, path: &str) -> (r: Option<&'a Vec<String>>)
    ensures
        r.deep_view() == find_dir(sources.deep_view(), path@),
{
    let mut i: usize = 0;
    assert(sources.deep_view().take(0) =~= Seq::<SourceView>::empty());
    while i < sources.len()
        invariant
            i <= sources.len(),
            find_dir(sources.deep_view().take(i as int), path@) is None,
        decreases sources.len() - i,
    {
        assert(sources.deep_view().take(i + 1).drop_last() == sources.deep_view().take(i as int));
        assert(sources.deep_view().take(i + 1).last() == sources@[i as int].deep_view());
        match &sources[i] {
            Source::Dir { path: p, entries } => {
                if same_text(p.as_str(), path) {
                    proof {
                        lemma_find_dir_prefix(sources.deep_view(), path@, i + 1);
                    }
                    return Some(entries);
                }
            },
            _ => {},
        }
        i += 1;
    }
    assert(sources.deep_view().take(sources.len() as int) == sources.deep_view());
    None
}

/// A directory that is found among the first `n` sources is the one found
/// among all.
pub proof fn lemma_find_dir_prefix(sources: Seq<SourceView>, path: Seq<char>, n: int)
    requires
        0 <= n <= sources.len(),
        find_dir(sources.take(n), path) is Some,
    ensures
        find_dir(sources, path) == find_dir(sources.take(n), path),
    decreases sources.len() - n,
{
    if n < sources.len() {
        assert(sources.take(n + 1).drop_last() == sources.take(n));
        lemma_find_dir_prefix(sources, path, n + 1);
    } else {
        assert(sources.take(n) == sources);
    }
}

impl Gathered {
    fn note(&mut self, problem: Problem)
        ensures
            final(self)@ == old(self)@.with(problem.deep_view()),
    {
        let ghost before = self.problems.deep_view();
        self.problems.push(problem);
        assert(self.problems.deep_view() =~= before.push(problem.deep_view()));
    }

    fn take(&mut self, item: Sudo)
        ensures
            final(self)@ == old(self)@.absorb(item.deep_view()),
    {
        match item {
            Sudo::Spec(rule) => {
                let ghost before = self.policy.rules.deep_view();
                self.policy.rules.push(rule);
                assert(self.policy.rules.deep_view() =~= before.push(rule.deep_view()));
            },
            Sudo::Decl(Directive::UserAlias(d)) => {
                let ghost before = self.policy.aliases.user.deep_view();
                self.policy.aliases.user.push(d);
                assert(self.policy.aliases.user.deep_view() =~= before.push(d.deep_view()));
            },
            Sudo::Decl(Directive::HostAlias(d)) => {
                let ghost before = self.policy.aliases.host.deep_view();
                self.policy.aliases.host.push(d);
                assert(self.policy.aliases.host.deep_view() =~= before.push(d.deep_view()));
            },
            Sudo::Decl(Directive::CmndAlias(d)) => {
                let ghost before = self.policy.aliases.cmnd.deep_view();
                self.policy.aliases.cmnd.push(d);
                assert(self.policy.aliases.cmnd.deep_view() =~= before.push(d.deep_view()));
            },
            Sudo::Decl(Directive::RunasAlias(d)) => {
                let ghost before = self.policy.aliases.runas.deep_view();
                self.policy.aliases.runas.push(d);
                assert(self.policy.aliases.runas.deep_view() =~= before.push(d.deep_view()));
            },
            Sudo::Decl(Directive::Defaults(name, value)) => {
                self.policy.settings.apply(&name, &value);
            },
            _ => {},
        }
    }
}

fn read_file(path: &String, sources: &Vec<Source>, depth: usize, g: &mut Gathered)
    ensures
        final(g)@ == gather_file(path@, sources.deep_view(), depth as nat, old(g)@),
    decreases depth, 0nat, 0nat,
{
    if depth == 0 {
        g.note(Problem::IncludeNesting(path.clone()));
    } else {
        match file_text(sources, path.as_str()) {
            Some(text) => read_text(text.as_str(), sources, depth - 1, g),
            None => g.note(Problem::MissingInclude(path.clone())),
        }
    }
}

fn read_entries(entries: &Vec<String>, sources: &Vec<Source>, depth: usize, g: &mut Gathered)
    ensures
        final(g)@ == gather_entries(
            entries.deep_view(),
            0,
            sources.deep_view(),
            depth as nat,
            old(g)@,
        ),
    decreases depth, 1nat, entries.len(),
{
    let mut j: usize = 0;
    while j < entries.len()
        invariant
            j <= entries.len(),
            gather_entries(entries.deep_view(), j as int, sources.deep_view(), depth as nat, g@)
                == gather_entries(
                entries.deep_view(),
                0,
                sources.deep_view(),
                depth as nat,
                old(g)@,
            ),
        decreases entries.len() - j,
    {
        assert(entries.deep_view()[j as int] == entries@[j as int]@);
        read_file(&entries[j], sources, depth, g);
        j += 1;
    }
}

fn read_text(text: &str, sources: &Vec<Source>, depth: usize, g: &mut Gathered)
    ensures
        final(g)@ == gather_text(text@, sources.deep_view(), depth as nat, old(g)@),
    decreases depth, 3nat, 0nat,
{
    let chars = to_chars(text);
    let found = parse_lines(&chars);
    let ghost all = lines(text@, 0);
    let ghost start = g@;
    for line in it: found
        invariant
            chars@ == text@,
            all == lines(text@, 0),
            lines_view(it.seq()) == all,
            gather_lines(all, it.index() as int, text@, sources.deep_view(), depth as nat, g@)
                == gather_lines(all, 0, text@, sources.deep_view(), depth as nat, start),
    {
        let ghost i = it.index() as int;
        assert(all[i] == line_view(line));
        assert(all.len() == it.seq().len());
        match line {
            Err((fault, pos)) => {
                proof {
                    crate::ast::lemma_lines_within(text@, 0, i);
                }
                let (l, c) = line_column(&chars, pos);
                g.note(Problem::Syntax { fault, line: l, column: c });
            },
            Ok(Sudo::Include(path)) => {
                read_file(&path, sources, depth, g);
            },
            Ok(Sudo::IncludeDir(path)) => {
                match dir_entries(sources, path.as_str()) {
                    Some(entries) => read_entries(entries, sources, depth, g),
                    None => g.note(Problem::MissingInclude(path)),
                }
            },
            Ok(item) => {
                g.take(item);
            },
        }
    }
}

/// Reads a policy. `sources` holds the files and directories that include
/// directives may name. The result is the policy, or everything that is wrong
/// with the text: malformed lines, files that were not supplied, and aliases
/// that are defined twice, not defined, or defined by themselves.
pub fn parse(text: &str, sources: &Vec<Source>) -> (r: Result<Sudoers, ParseError>)
    ensures
        parsed_view(r) == parsed(text@, sources.deep_view()),
{
    let mut g = Gathered { policy: Sudoers::new(), problems: Vec::new() };
    assert(g.problems.deep_view() =~= Seq::<ProblemView>::empty());
    read_text(text, sources, INCLUDE_DEPTH, &mut g);
    let Gathered { policy, problems } = g;
    let mut all = problems;
    let ghost first = all.deep_view();
    let mut more = check_aliases(&policy.rules, &policy.aliases);
    let ghost second = more.deep_view();
    all.append(&mut more);
    assert(all.deep_view() =~= first + second);
    if all.len() == 0 {
        Ok(policy)
    } else {
        Err(ParseError { problems: all })
    }
}

} // verus!
